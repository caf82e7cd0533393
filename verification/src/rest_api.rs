//! The verified part of the HTTP surface: extracting a MAVLink envelope
//! from a posted JSON document, the service-information document, the
//! helper envelope around a default message, the query-string choice
//! between compact and pretty output, and the REST POST rule that the
//! store is updated exactly when the send succeeded.

use vstd::prelude::*;

use crate::data::{store_updated, MAVLinkVehiclesData};
use crate::json::{
    compact_chars, json_view_fields, obj_lookup, pretty_chars, JsonModel, JsonValue,
};
use crate::mavlink_vehicle::MavHeader;
use crate::text::{dec_digits, u64_to_string};

verus! {

/// A posted MAVLink envelope, reduced to plain values: the routing header,
/// the message name, and the message body as JSON.
#[derive(Debug)]
pub struct MavlinkMessage {
    pub header: MavHeader,
    pub name: String,
    pub message: JsonValue,
}

/// The mathematical content of a posted envelope.
#[verifier::ext_equal]
pub struct MavlinkMessageModel {
    pub header: MavHeader,
    pub name: Seq<char>,
    pub message: JsonModel,
}

impl View for MavlinkMessage {
    type V = MavlinkMessageModel;

    open spec fn view(&self) -> MavlinkMessageModel {
        MavlinkMessageModel { header: self.header, name: self.name@, message: self.message@ }
    }
}

/// Why a posted document was rejected.
#[derive(Debug, Copy, Clone, PartialEq, Eq, Structural)]
pub enum ExtractError {
    /// The document is not a JSON object.
    NotAnObject,
    /// It has no `header` member that is an object.
    MissingHeader,
    /// A header field is absent or not a byte-sized integer.
    BadHeaderField,
    /// It has no `message` member that is an object.
    MissingMessage,
    /// The message has no `type` member that is a string.
    MissingType,
}

/// Whether a JSON value is a byte-sized integer, and that integer.
pub open spec fn json_u8(v: JsonModel) -> Option<u8> {
    match v {
        JsonModel::Num(t) => if t.len() > 0 && crate::text::all_dec_digits(t)
            && crate::text::dec_value(t) <= 255 {
            Some(crate::text::dec_value(t) as u8)
        } else {
            None
        },
        _ => None,
    }
}

/// A header field of an envelope object, as a byte.
pub open spec fn header_field(h: Seq<(Seq<char>, JsonModel)>, name: Seq<char>) -> Option<u8> {
    match obj_lookup(h, name) {
        Some(v) => json_u8(v),
        None => None,
    }
}

/// What extracting a posted document yields: the header bytes, the value
/// of the message's `type` member as its name, and the message body; or
/// the first reason it cannot, in the order document, header, header
/// fields, message, type.
pub open spec fn extract_spec(v: JsonModel) -> Result<MavlinkMessageModel, ExtractError> {
    match v {
        JsonModel::Object(o) => {
            match obj_lookup(o, "header"@) {
                Some(JsonModel::Object(h)) => {
                    let sys = header_field(h, "system_id"@);
                    let comp = header_field(h, "component_id"@);
                    let seqn = header_field(h, "sequence"@);
                    if sys is None || comp is None || seqn is None {
                        Err(ExtractError::BadHeaderField)
                    } else {
                        match obj_lookup(o, "message"@) {
                            Some(JsonModel::Object(mo)) => {
                                match obj_lookup(mo, "type"@) {
                                    Some(JsonModel::Str(name)) => Ok(
                                        MavlinkMessageModel {
                                            header: MavHeader {
                                                system_id: sys->0,
                                                component_id: comp->0,
                                                sequence: seqn->0,
                                            },
                                            name,
                                            message: JsonModel::Object(mo),
                                        },
                                    ),
                                    _ => Err(ExtractError::MissingType),
                                }
                            },
                            _ => Err(ExtractError::MissingMessage),
                        }
                    }
                },
                _ => Err(ExtractError::MissingHeader),
            }
        },
        _ => Err(ExtractError::NotAnObject),
    }
}

/// Reads one header byte out of the envelope's header object.
fn read_header_field(h: &Vec<(String, JsonValue)>, name: &str) -> (r: Option<u8>)
    ensures
        r == header_field(json_view_fields(h@), name@),
{
    match crate::json::obj_find(h, name) {
        Some(JsonValue::Num(t)) => crate::text::parse_u8(t.as_str()),
        Some(_) => None,
        None => None,
    }
}

/// Extracts the MAVLink envelope from a posted JSON document, as
/// `extract_spec` describes.
pub fn extract_mavlink(v: &JsonValue) -> (r: Result<MavlinkMessage, ExtractError>)
    ensures
        match r {
            Ok(m) => extract_spec(v@) == Ok::<MavlinkMessageModel, ExtractError>(m@),
            Err(e) => extract_spec(v@) == Err::<MavlinkMessageModel, ExtractError>(e),
        },
{
    let o = match v {
        JsonValue::Object(o) => o,
        _ => {
            return Err(ExtractError::NotAnObject);
        },
    };
    let h = match crate::json::obj_find(o, "header") {
        Some(JsonValue::Object(h)) => h,
        _ => {
            return Err(ExtractError::MissingHeader);
        },
    };
    let sys = read_header_field(h, "system_id");
    let comp = read_header_field(h, "component_id");
    let seqn = read_header_field(h, "sequence");
    let (system_id, component_id, sequence) = match (sys, comp, seqn) {
        (Some(a), Some(b), Some(c)) => (a, b, c),
        _ => {
            return Err(ExtractError::BadHeaderField);
        },
    };
    let mo = match crate::json::obj_find(o, "message") {
        Some(m @ JsonValue::Object(_)) => m,
        _ => {
            return Err(ExtractError::MissingMessage);
        },
    };
    let name = match mo {
        JsonValue::Object(fields) => match crate::json::obj_find(fields, "type") {
            Some(JsonValue::Str(name)) => name.clone(),
            _ => {
                return Err(ExtractError::MissingType);
            },
        },
        _ => {
            return Err(ExtractError::MissingType);
        },
    };
    let message = mo.deep_clone();
    Ok(MavlinkMessage { header: MavHeader { system_id, component_id, sequence }, name, message })
}

/// Renders a value for a reply: pretty when the query asks for it,
/// compact otherwise.
#[derive(Debug, Default)]
pub struct JsonConfiguration {
    pub pretty: Option<bool>,
}

/// Renders a reply body: pretty exactly when the query holds
/// `pretty=true`.
pub fn parse_query(message: &JsonValue, query: &JsonConfiguration) -> (r: String)
    ensures
        query.pretty == Some(true) ==> r@ == pretty_chars(message@, Seq::<char>::empty()),
        query.pretty != Some(true) ==> r@ == compact_chars(message@),
{
    match query.pretty {
        Some(true) => message.to_pretty_string(),
        _ => message.to_compact_string(),
    }
}

/// The query of the WebSocket upgrade: an optional filter pattern.
#[derive(Debug)]
pub struct WebsocketQuery {
    pub filter: Option<String>,
}

/// The query of the helper endpoint: a message name.
#[derive(Debug)]
pub struct MAVLinkHelperQuery {
    pub name: String,
}

/// What the service says about itself.
#[derive(Debug, Default)]
pub struct InfoContent {
    pub name: String,
    pub version: String,
    pub sha: String,
    pub build_date: String,
    pub authors: String,
}

/// The information document: the API version and the service data.
#[derive(Debug, Default)]
pub struct Info {
    pub version: u32,
    pub service: InfoContent,
}

/// The JSON form of the information document.
pub open spec fn info_json(i: Info) -> JsonModel {
    JsonModel::Object(
        seq![
            ("version"@, JsonModel::Num(dec_digits(i.version as nat))),
            (
                "service"@,
                JsonModel::Object(
                    seq![
                        ("name"@, JsonModel::Str(i.service.name@)),
                        ("version"@, JsonModel::Str(i.service.version@)),
                        ("sha"@, JsonModel::Str(i.service.sha@)),
                        ("build_date"@, JsonModel::Str(i.service.build_date@)),
                        ("authors"@, JsonModel::Str(i.service.authors@)),
                    ],
                ),
            ),
        ],
    )
}

impl Info {
    /// Renders the information document as JSON.
    pub fn to_json(&self) -> (r: JsonValue)
        ensures
            r@ == info_json(*self),
    {
        let mut service: Vec<(String, JsonValue)> = Vec::new();
        service.push(("name".to_owned(), JsonValue::Str(self.service.name.clone())));
        service.push(("version".to_owned(), JsonValue::Str(self.service.version.clone())));
        service.push(("sha".to_owned(), JsonValue::Str(self.service.sha.clone())));
        service.push(("build_date".to_owned(), JsonValue::Str(self.service.build_date.clone())));
        service.push(("authors".to_owned(), JsonValue::Str(self.service.authors.clone())));
        let service_obj = JsonValue::Object(service);
        let mut fields: Vec<(String, JsonValue)> = Vec::new();
        fields.push(("version".to_owned(), JsonValue::Num(u64_to_string(self.version as u64))));
        fields.push(("service".to_owned(), service_obj));
        let r = JsonValue::Object(fields);
        proof {
            crate::json::lemma_json_view_fields(service_obj->Object_0@);
            assert(json_view_fields(service_obj->Object_0@) =~= info_json(
                *self,
            )->Object_0[1].1->Object_0);
            assert(service_obj@ =~~= info_json(*self)->Object_0[1].1);
            crate::json::lemma_json_view_fields(r->Object_0@);
            assert(json_view_fields(r->Object_0@) =~= info_json(*self)->Object_0);
            assert(r@ =~~= info_json(*self));
        }
        r
    }
}

/// The header the helper endpoint puts on its envelopes.
pub open spec fn default_header() -> MavHeader {
    MavHeader { system_id: 255, component_id: 0, sequence: 0 }
}

/// The JSON form of a routing header.
pub open spec fn header_json(h: MavHeader) -> JsonModel {
    JsonModel::Object(
        seq![
            ("system_id"@, JsonModel::Num(dec_digits(h.system_id as nat))),
            ("component_id"@, JsonModel::Num(dec_digits(h.component_id as nat))),
            ("sequence"@, JsonModel::Num(dec_digits(h.sequence as nat))),
        ],
    )
}

/// Renders a routing header as JSON.
pub fn header_to_json(h: &MavHeader) -> (r: JsonValue)
    ensures
        r@ == header_json(*h),
{
    let mut fields: Vec<(String, JsonValue)> = Vec::new();
    fields.push(("system_id".to_owned(), JsonValue::Num(u64_to_string(h.system_id as u64))));
    fields.push((
        "component_id".to_owned(),
        JsonValue::Num(u64_to_string(h.component_id as u64)),
    ));
    fields.push(("sequence".to_owned(), JsonValue::Num(u64_to_string(h.sequence as u64))));
    let r = JsonValue::Object(fields);
    proof {
        crate::json::lemma_json_view_fields(r->Object_0@);
        assert(json_view_fields(r->Object_0@) =~= header_json(*h)->Object_0);
        assert(r@ =~~= header_json(*h));
    }
    r
}

/// The envelope the helper endpoint returns: a default header around the
/// given message body.
pub open spec fn helper_envelope_json(message: JsonModel) -> JsonModel {
    JsonModel::Object(
        seq![("header"@, header_json(default_header())), ("message"@, message)],
    )
}

/// Wraps a message body in the helper envelope: the default header and the
/// message, as `helper_envelope_json` describes.
pub fn helper_envelope(message: JsonValue) -> (r: JsonValue)
    ensures
        r@ == helper_envelope_json(message@),
{
    let ghost m = message@;
    let header = header_to_json(&MavHeader { system_id: 255, component_id: 0, sequence: 0 });
    let mut fields: Vec<(String, JsonValue)> = Vec::new();
    fields.push(("header".to_owned(), header));
    fields.push(("message".to_owned(), message));
    let r = JsonValue::Object(fields);
    proof {
        crate::json::lemma_json_view_fields(r->Object_0@);
        assert(json_view_fields(r->Object_0@) =~= helper_envelope_json(m)->Object_0);
        assert(r@ =~~= helper_envelope_json(m));
    }
    r
}

/// The REST POST success path: the store is updated exactly when the link
/// send succeeded; a failed send leaves the store untouched.  Returns
/// whether the store was updated.
pub fn mavlink_post(
    store: &mut MAVLinkVehiclesData,
    content: MavlinkMessage,
    send_succeeded: bool,
    now: i64,
) -> (updated: bool)
    ensures
        updated == send_succeeded,
        send_succeeded ==> final(store)@ == store_updated(
            old(store)@,
            content.header.system_id,
            content.header.component_id,
            content.name@,
            content.message@,
            now,
        ),
        !send_succeeded ==> final(store)@ == old(store)@,
{
    if send_succeeded {
        let header = content.header;
        store.update(&header, content.name, content.message, now);
        true
    } else {
        false
    }
}

} // verus!
