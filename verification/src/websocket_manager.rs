//! The WebSocket broadcast manager: a registry of subscriptions, each with
//! a regular-expression filter on message names, and the fan-out decision
//! for every newly received message.  The manager decides who receives
//! which text; the surrounding program moves the frames.

use vstd::prelude::*;

use crate::json::{compact_chars, pretty_chars, JsonModel, JsonValue};

verus! {

/// Whether a regular-expression pattern compiles.
pub uninterp spec fn regex_compiles(pattern: Seq<char>) -> bool;

/// Whether a compiled pattern matches somewhere in a text.
pub uninterp spec fn regex_matches(pattern: Seq<char>, text: Seq<char>) -> bool;

/// Relies on regex's `Regex::new`: whether a pattern compiles depends on
/// the pattern alone.
#[verifier::external_body]
fn regex_compile_ok(pattern: &str) -> (r: bool)
    ensures
        r == regex_compiles(pattern@),
{
    regex::Regex::new(pattern).is_ok()
}

/// Relies on regex's `Regex::new` and `Regex::is_match`: both depend on
/// the pattern and the text alone; a pattern that does not compile matches
/// nothing.
#[verifier::external_body]
fn regex_match(pattern: &str, text: &str) -> (r: bool)
    ensures
        r == (regex_compiles(pattern@) && regex_matches(pattern@, text@)),
{
    match regex::Regex::new(pattern) {
        Ok(re) => re.is_match(text),
        Err(_) => false,
    }
}

/// A text frame on its way to a subscriber.
#[derive(Debug)]
pub struct StringMessage(pub String);

/// The canonical error body sent when no callback can take a text frame.
#[derive(Debug)]
pub struct WebsocketError {
    pub error: String,
}

/// One subscription: its handle and its filter pattern.  A pattern that
/// does not compile stays registered and never matches.
#[derive(Debug)]
pub struct WebsocketActorContent {
    pub id: u64,
    pub filter: String,
}

/// The mathematical content of a subscription.
#[verifier::ext_equal]
pub struct ContentModel {
    pub id: u64,
    pub filter: Seq<char>,
}

impl View for WebsocketActorContent {
    type V = ContentModel;

    open spec fn view(&self) -> ContentModel {
        ContentModel { id: self.id, filter: self.filter@ }
    }
}

/// The subscription registry.
#[derive(Debug)]
pub struct WebsocketManager {
    pub clients: Vec<WebsocketActorContent>,
    pub next_id: u64,
}

/// The mathematical content of the registry.
#[verifier::ext_equal]
pub struct ManagerModel {
    pub clients: Seq<ContentModel>,
    pub next_id: u64,
}

impl View for WebsocketManager {
    type V = ManagerModel;

    open spec fn view(&self) -> ManagerModel {
        ManagerModel {
            clients: self.clients@.map_values(|c: WebsocketActorContent| c@),
            next_id: self.next_id,
        }
    }
}

/// Whether a subscription receives a message of the given name.
pub open spec fn matches_filter(filter: Seq<char>, name: Seq<char>) -> bool {
    regex_compiles(filter) && regex_matches(filter, name)
}

/// The registry without the subscription of one handle.
pub open spec fn without_id(clients: Seq<ContentModel>, id: u64) -> Seq<ContentModel>
    decreases clients.len(),
{
    if clients.len() == 0 {
        Seq::empty()
    } else if clients[0].id == id {
        without_id(clients.drop_first(), id)
    } else {
        seq![clients[0]] + without_id(clients.drop_first(), id)
    }
}

/// Who receives a broadcast and what: one pretty-printed text per
/// subscription whose filter matches the name, in registry order.
pub open spec fn deliveries(clients: Seq<ContentModel>, v: JsonModel, name: Seq<char>) -> Seq<
    (u64, Seq<char>),
>
    decreases clients.len(),
{
    if clients.len() == 0 {
        Seq::empty()
    } else {
        let rest = deliveries(clients.drop_first(), v, name);
        if matches_filter(clients[0].filter, name) {
            seq![(clients[0].id, pretty_chars(v, Seq::<char>::empty()))] + rest
        } else {
            rest
        }
    }
}

proof fn lemma_without_id_take(clients: Seq<ContentModel>, id: u64, i: int)
    requires
        0 <= i < clients.len(),
    ensures
        without_id(clients.take(i + 1), id) == without_id(clients.take(i), id) + (if clients[
            i
        ].id == id {
            Seq::<ContentModel>::empty()
        } else {
            seq![clients[i]]
        }),
    decreases i,
{
    if i == 0 {
        assert(clients.take(1) =~= seq![clients[0]]);
        assert(clients.take(1).drop_first() =~= Seq::<ContentModel>::empty());
        assert(clients.take(0) =~= Seq::<ContentModel>::empty());
        assert(without_id(clients.take(1), id) =~= without_id(clients.take(0), id) + (
        if clients[0].id == id {
            Seq::<ContentModel>::empty()
        } else {
            seq![clients[0]]
        }));
    } else {
        lemma_without_id_take(clients.drop_first(), id, i - 1);
        assert(clients.take(i + 1).drop_first() =~= clients.drop_first().take(i));
        assert(clients.take(i).drop_first() =~= clients.drop_first().take(i - 1));
        assert(clients.take(i + 1)[0] == clients[0]);
        assert(clients.take(i)[0] == clients[0]);
        assert(clients.drop_first()[i - 1] == clients[i]);
        assert(without_id(clients.take(i + 1), id) =~= without_id(clients.take(i), id) + (
        if clients[i].id == id {
            Seq::<ContentModel>::empty()
        } else {
            seq![clients[i]]
        }));
    }
}

proof fn lemma_deliveries_take(clients: Seq<ContentModel>, v: JsonModel, name: Seq<char>, i: int)
    requires
        0 <= i < clients.len(),
    ensures
        deliveries(clients.take(i + 1), v, name) == deliveries(clients.take(i), v, name) + (
        if matches_filter(clients[i].filter, name) {
            seq![(clients[i].id, pretty_chars(v, Seq::<char>::empty()))]
        } else {
            Seq::<(u64, Seq<char>)>::empty()
        }),
    decreases i,
{
    if i == 0 {
        assert(clients.take(1) =~= seq![clients[0]]);
        assert(clients.take(1).drop_first() =~= Seq::<ContentModel>::empty());
        assert(clients.take(0) =~= Seq::<ContentModel>::empty());
        assert(deliveries(clients.take(1), v, name) =~= deliveries(clients.take(0), v, name) + (
        if matches_filter(clients[0].filter, name) {
            seq![(clients[0].id, pretty_chars(v, Seq::<char>::empty()))]
        } else {
            Seq::<(u64, Seq<char>)>::empty()
        }));
    } else {
        lemma_deliveries_take(clients.drop_first(), v, name, i - 1);
        assert(clients.take(i + 1).drop_first() =~= clients.drop_first().take(i));
        assert(clients.take(i).drop_first() =~= clients.drop_first().take(i - 1));
        assert(clients.take(i + 1)[0] == clients[0]);
        assert(clients.take(i)[0] == clients[0]);
        assert(clients.drop_first()[i - 1] == clients[i]);
        assert(deliveries(clients.take(i + 1), v, name) =~= deliveries(clients.take(i), v, name)
            + (if matches_filter(clients[i].filter, name) {
            seq![(clients[i].id, pretty_chars(v, Seq::<char>::empty()))]
        } else {
            Seq::<(u64, Seq<char>)>::empty()
        }));
    }
}

impl WebsocketManager {
    /// An empty registry.
    pub fn new() -> (r: Self)
        ensures
            r@.clients == Seq::<ContentModel>::empty(),
            r@.next_id == 0,
    {
        let r = WebsocketManager { clients: Vec::new(), next_id: 0 };
        proof {
            assert(r@.clients =~= Seq::<ContentModel>::empty());
        }
        r
    }

    /// Registers a subscription with the given filter pattern and returns
    /// its handle.  A pattern that does not compile is kept and will match
    /// nothing.
    pub fn subscribe(&mut self, filter: String) -> (id: u64)
        ensures
            id == old(self)@.next_id,
            final(self)@.clients == old(self)@.clients.push(
                ContentModel { id: old(self)@.next_id, filter: filter@ },
            ),
            final(self)@.next_id == (if old(self)@.next_id == u64::MAX {
                0
            } else {
                old(self)@.next_id + 1
            }),
    {
        let id = self.next_id;
        let ghost f = filter@;
        self.clients.push(WebsocketActorContent { id, filter });
        self.next_id = if self.next_id == u64::MAX {
            0
        } else {
            self.next_id + 1
        };
        proof {
            assert(self@.clients =~= old(self)@.clients.push(
                ContentModel { id: old(self)@.next_id, filter: f },
            ));
        }
        id
    }

    /// Removes every subscription with the given handle.
    pub fn unsubscribe(&mut self, id: u64)
        ensures
            final(self)@.clients == without_id(old(self)@.clients, id),
            final(self)@.next_id == old(self)@.next_id,
    {
        let ghost m0 = self@.clients;
        let mut kept: Vec<WebsocketActorContent> = Vec::new();
        let n = self.clients.len();
        proof {
            assert(m0.len() == n);
            assert(kept@.map_values(|c: WebsocketActorContent| c@) =~= without_id(
                m0.take(0),
                id,
            ));
        }
        let mut k: usize = 0;
        while k < n
            invariant
                k <= n,
                n == self.clients@.len(),
                m0 == old(self)@.clients,
                *self == *old(self),
                m0.len() == n,
                kept@.map_values(|c: WebsocketActorContent| c@) == without_id(
                    m0.take(k as int),
                    id,
                ),
            decreases n - k,
        {
            proof {
                lemma_without_id_take(m0, id, k as int);
                assert(m0[k as int] == self.clients@[k as int]@);
            }
            if self.clients[k].id != id {
                let c = WebsocketActorContent {
                    id: self.clients[k].id,
                    filter: self.clients[k].filter.clone(),
                };
                proof {
                    assert(c@ == m0[k as int]);
                }
                kept.push(c);
                proof {
                    assert(kept@.map_values(|c: WebsocketActorContent| c@) =~= without_id(
                        m0.take(k + 1),
                        id,
                    ));
                }
            } else {
                proof {
                    assert(kept@.map_values(|c: WebsocketActorContent| c@) =~= without_id(
                        m0.take(k + 1),
                        id,
                    ));
                }
            }
            k = k + 1;
        }
        proof {
            assert(m0.take(n as int) =~= m0);
        }
        self.clients = kept;
    }

    /// The fan-out decision for one received message: the subscribers that
    /// get its pretty-printed text, in registry order.
    pub fn send(&self, value: &JsonValue, name: &str) -> (out: Vec<(u64, String)>)
        ensures
            out@.map_values(|d: (u64, String)| (d.0, d.1@)) == deliveries(
                self@.clients,
                value@,
                name@,
            ),
    {
        let ghost cs = self@.clients;
        let mut out: Vec<(u64, String)> = Vec::new();
        let text = value.to_pretty_string();
        let n = self.clients.len();
        proof {
            assert(cs.len() == n);
            assert(out@.map_values(|d: (u64, String)| (d.0, d.1@)) =~= deliveries(
                cs.take(0),
                value@,
                name@,
            ));
        }
        let mut k: usize = 0;
        while k < n
            invariant
                k <= n,
                n == self.clients@.len(),
                cs == self@.clients,
                cs.len() == n,
                text@ == pretty_chars(value@, Seq::<char>::empty()),
                out@.map_values(|d: (u64, String)| (d.0, d.1@)) == deliveries(
                    cs.take(k as int),
                    value@,
                    name@,
                ),
            decreases n - k,
        {
            proof {
                lemma_deliveries_take(cs, value@, name@, k as int);
                assert(cs[k as int] == self.clients@[k as int]@);
            }
            if regex_match(self.clients[k].filter.as_str(), name) {
                out.push((self.clients[k].id, text.clone()));
                proof {
                    assert(out@.map_values(|d: (u64, String)| (d.0, d.1@)) =~= deliveries(
                        cs.take(k + 1),
                        value@,
                        name@,
                    ));
                }
            } else {
                proof {
                    assert(out@.map_values(|d: (u64, String)| (d.0, d.1@)) =~= deliveries(
                        cs.take(k + 1),
                        value@,
                        name@,
                    ));
                }
            }
            k = k + 1;
        }
        proof {
            assert(cs.take(n as int) =~= cs);
        }
        out
    }

    /// The canonical reply to a text frame when no callback is registered.
    pub fn on_text_error() -> (r: String)
        ensures
            r@ == compact_chars(
                JsonModel::Object(
                    seq![("error"@, JsonModel::Str("MAVLink callback does not exist."@))],
                ),
            ),
    {
        let mut fields: Vec<(String, JsonValue)> = Vec::new();
        fields.push((
            "error".to_owned(),
            JsonValue::Str("MAVLink callback does not exist.".to_owned()),
        ));
        let v = JsonValue::Object(fields);
        proof {
            crate::json::lemma_json_view_fields(v->Object_0@);
            assert(crate::json::json_view_fields(v->Object_0@) =~= seq![
                ("error"@, JsonModel::Str("MAVLink callback does not exist."@)),
            ]);
            assert(v@ =~~= (JsonModel::Object(
                seq![("error"@, JsonModel::Str("MAVLink callback does not exist."@))],
            )));
        }
        v.to_compact_string()
    }
}

/// What one subscriber receives over a run of broadcasts, from the
/// per-broadcast delivery lists: the texts addressed to its handle, in
/// order.
pub open spec fn texts_for_id(
    clients: Seq<ContentModel>,
    id: u64,
    broadcasts: Seq<(JsonModel, Seq<char>)>,
) -> Seq<Seq<char>>
    decreases broadcasts.len(),
{
    if broadcasts.len() == 0 {
        Seq::empty()
    } else {
        for_id(deliveries(clients, broadcasts[0].0, broadcasts[0].1), id) + texts_for_id(
            clients,
            id,
            broadcasts.drop_first(),
        )
    }
}

/// The texts addressed to one handle within a single delivery list.
pub open spec fn for_id(out: Seq<(u64, Seq<char>)>, id: u64) -> Seq<Seq<char>>
    decreases out.len(),
{
    if out.len() == 0 {
        Seq::empty()
    } else if out[0].0 == id {
        seq![out[0].1] + for_id(out.drop_first(), id)
    } else {
        for_id(out.drop_first(), id)
    }
}

/// What one subscription should see over a run of broadcasts: the pretty
/// text of exactly those messages whose name its filter matches, in
/// broadcast order.
pub open spec fn client_texts(c: ContentModel, broadcasts: Seq<(JsonModel, Seq<char>)>) -> Seq<
    Seq<char>,
>
    decreases broadcasts.len(),
{
    if broadcasts.len() == 0 {
        Seq::empty()
    } else {
        let rest = client_texts(c, broadcasts.drop_first());
        if matches_filter(c.filter, broadcasts[0].1) {
            seq![pretty_chars(broadcasts[0].0, Seq::<char>::empty())] + rest
        } else {
            rest
        }
    }
}

proof fn lemma_for_id_single(clients: Seq<ContentModel>, ci: int, v: JsonModel, name: Seq<char>)
    requires
        0 <= ci < clients.len(),
        forall|j: int| 0 <= j < clients.len() && j != ci ==> clients[j].id != clients[ci].id,
    ensures
        for_id(deliveries(clients, v, name), clients[ci].id) == (if matches_filter(
            clients[ci].filter,
            name,
        ) {
            seq![pretty_chars(v, Seq::<char>::empty())]
        } else {
            Seq::<Seq<char>>::empty()
        }),
    decreases clients.len(),
{
    let id = clients[ci].id;
    let d = deliveries(clients, v, name);
    if ci == 0 {
        lemma_for_id_absent(deliveries(clients.drop_first(), v, name), clients.drop_first(), id, v, name);
        if matches_filter(clients[0].filter, name) {
            assert(d[0] == (id, pretty_chars(v, Seq::<char>::empty())));
            assert(d.drop_first() =~= deliveries(clients.drop_first(), v, name));
            assert(for_id(d, id) =~= seq![pretty_chars(v, Seq::<char>::empty())]);
        } else {
            assert(for_id(d, id) =~= Seq::<Seq<char>>::empty());
        }
    } else {
        assert(clients.drop_first()[ci - 1] == clients[ci]);
        assert forall|j: int|
            0 <= j < clients.drop_first().len() && j != ci - 1 implies clients.drop_first()[
            j
        ].id != id by {
            assert(clients.drop_first()[j] == clients[j + 1]);
        }
        lemma_for_id_single(clients.drop_first(), ci - 1, v, name);
        if matches_filter(clients[0].filter, name) {
            assert(clients[0].id != id);
            assert(d.drop_first() =~= deliveries(clients.drop_first(), v, name));
            assert(for_id(d, id) =~= for_id(deliveries(clients.drop_first(), v, name), id));
        }
    }
}

proof fn lemma_for_id_absent(
    d: Seq<(u64, Seq<char>)>,
    clients: Seq<ContentModel>,
    id: u64,
    v: JsonModel,
    name: Seq<char>,
)
    requires
        d == deliveries(clients, v, name),
        forall|j: int| 0 <= j < clients.len() ==> clients[j].id != id,
    ensures
        for_id(d, id) == Seq::<Seq<char>>::empty(),
    decreases clients.len(),
{
    if clients.len() > 0 {
        lemma_for_id_absent(
            deliveries(clients.drop_first(), v, name),
            clients.drop_first(),
            id,
            v,
            name,
        );
        if matches_filter(clients[0].filter, name) {
            assert(d.drop_first() =~= deliveries(clients.drop_first(), v, name));
            assert(for_id(d, id) =~= Seq::<Seq<char>>::empty());
        }
    }
}

/// Broadcast matches filter: over any run of broadcasts, a subscriber
/// whose handle is unique receives exactly the pretty texts of the
/// messages whose names its filter matches, in the order they were
/// broadcast.
pub proof fn lemma_broadcast_order(
    clients: Seq<ContentModel>,
    ci: int,
    broadcasts: Seq<(JsonModel, Seq<char>)>,
)
    requires
        0 <= ci < clients.len(),
        forall|j: int| 0 <= j < clients.len() && j != ci ==> clients[j].id != clients[ci].id,
    ensures
        texts_for_id(clients, clients[ci].id, broadcasts) == client_texts(
            clients[ci],
            broadcasts,
        ),
    decreases broadcasts.len(),
{
    if broadcasts.len() > 0 {
        lemma_for_id_single(clients, ci, broadcasts[0].0, broadcasts[0].1);
        lemma_broadcast_order(clients, ci, broadcasts.drop_first());
        assert(texts_for_id(clients, clients[ci].id, broadcasts) =~= client_texts(
            clients[ci],
            broadcasts,
        ));
    }
}

} // verus!
