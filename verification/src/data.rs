//! The message store: the latest instance of every message name, indexed
//! by vehicle and component, each annotated with first/last timestamps, a
//! counter and a derived frequency.  The store also renders itself as JSON
//! and answers JSON-pointer queries against that rendering.
//!
//! Timestamps are milliseconds; the frequency is kept in millihertz, as
//! the counter divided by the whole seconds elapsed between the first and
//! the last update, and is zero while that span is below one second.

use vstd::prelude::*;

use crate::json::{json_view_fields, JsonModel, JsonValue};
use crate::mavlink_vehicle::MavHeader;

verus! {

/// A MAVLink message with the header it arrived under.
#[derive(Debug, Clone)]
pub struct MAVLinkMessage<T> {
    pub header: MavHeader,
    pub message: T,
}

/// When and how often one message name has been seen.
#[derive(Debug, Clone, Copy, PartialEq, Eq, Structural)]
pub struct Temporal {
    /// Milliseconds at the first observation.
    pub first_update: i64,
    /// Milliseconds at the latest observation.
    pub last_update: i64,
    /// How many observations, wrapping at 64 bits.
    pub counter: u64,
    /// Millihertz: counter per whole second of span, zero below one second.
    pub frequency_millihertz: u64,
}

/// The temporal data of a first observation.
pub open spec fn temporal_new(now: i64) -> Temporal {
    Temporal { first_update: now, last_update: now, counter: 1, frequency_millihertz: 0 }
}

/// A counter step, wrapping at 64 bits.
pub open spec fn wrap_inc_u64(c: u64) -> u64 {
    if c == u64::MAX {
        0
    } else {
        (c + 1) as u64
    }
}

/// The whole seconds between two millisecond stamps, never negative.
pub open spec fn span_secs(first: i64, last: i64) -> int {
    if last <= first {
        0
    } else {
        (last - first) / 1000
    }
}

/// The frequency in millihertz: counter over the span in whole seconds,
/// zero while the span is below one second, saturating at 64 bits.
pub open spec fn freq_millihertz(counter: u64, first: i64, last: i64) -> u64 {
    let s = span_secs(first, last);
    if s == 0 {
        0
    } else {
        let v = counter * 1000 / s;
        if v > u64::MAX {
            u64::MAX
        } else {
            v as u64
        }
    }
}

/// The temporal data after one more observation at `now`.
pub open spec fn temporal_updated(t: Temporal, now: i64) -> Temporal {
    Temporal {
        first_update: t.first_update,
        last_update: now,
        counter: wrap_inc_u64(t.counter),
        frequency_millihertz: freq_millihertz(wrap_inc_u64(t.counter), t.first_update, now),
    }
}

impl Temporal {
    /// The temporal data of a first observation at `now`.
    pub fn new(now: i64) -> (r: Temporal)
        ensures
            r == temporal_new(now),
    {
        Temporal { first_update: now, last_update: now, counter: 1, frequency_millihertz: 0 }
    }

    /// Records one more observation at `now`.
    pub fn update(&mut self, now: i64)
        ensures
            *final(self) == temporal_updated(*old(self), now),
    {
        self.last_update = now;
        self.counter = if self.counter == u64::MAX {
            0
        } else {
            self.counter + 1
        };
        let span: i128 = if now <= self.first_update {
            0
        } else {
            (now as i128 - self.first_update as i128) / 1000
        };
        if span == 0 {
            self.frequency_millihertz = 0;
        } else {
            let v: u128 = (self.counter as u128) * 1000 / (span as u128);
            self.frequency_millihertz = if v > u64::MAX as u128 {
                u64::MAX
            } else {
                v as u64
            };
        }
    }
}

/// The status of one message name: its temporal data.
#[derive(Debug, Clone, Copy, PartialEq, Eq, Structural)]
pub struct Status {
    pub time: Temporal,
}

/// The latest instance of one message name, with its status.
#[derive(Debug)]
pub struct MAVLinkMessageStatus {
    pub message: JsonValue,
    pub status: Status,
}

/// The mathematical content of a message entry.
#[verifier::ext_equal]
pub struct MessageStatusModel {
    pub message: JsonModel,
    pub status: Status,
}

impl View for MAVLinkMessageStatus {
    type V = MessageStatusModel;

    open spec fn view(&self) -> MessageStatusModel {
        MessageStatusModel { message: self.message@, status: self.status }
    }
}

/// The fresh entry of a first observation.
pub open spec fn entry_new(msg: JsonModel, now: i64) -> MessageStatusModel {
    MessageStatusModel { message: msg, status: Status { time: temporal_new(now) } }
}

/// An entry after one more observation: the message is replaced and the
/// temporal data advances.
pub open spec fn entry_updated(e: MessageStatusModel, msg: JsonModel, now: i64) -> MessageStatusModel {
    MessageStatusModel {
        message: msg,
        status: Status { time: temporal_updated(e.status.time, now) },
    }
}

impl MAVLinkMessageStatus {
    /// Replaces the message and advances the temporal data.
    pub fn update(&mut self, message: JsonValue, now: i64)
        ensures
            final(self)@ == entry_updated(old(self)@, message@, now),
    {
        let ghost m = message@;
        self.message = message;
        self.status.time.update(now);
        proof {
            assert(self@ =~= entry_updated(old(self)@, m, now));
        }
    }
}

/// All messages seen from one component.
#[derive(Debug)]
pub struct MAVLinkVehicleComponentData {
    pub id: u8,
    pub messages: Vec<(String, MAVLinkMessageStatus)>,
}

/// The mathematical content of a component: its message map in insertion
/// order.
#[verifier::ext_equal]
pub struct ComponentModel {
    pub id: u8,
    pub messages: Seq<(Seq<char>, MessageStatusModel)>,
}

impl View for MAVLinkVehicleComponentData {
    type V = ComponentModel;

    open spec fn view(&self) -> ComponentModel {
        ComponentModel {
            id: self.id,
            messages: self.messages@.map_values(
                |p: (String, MAVLinkMessageStatus)| (p.0@, p.1@),
            ),
        }
    }
}

/// The first position holding `name`, or `-1`.
pub open spec fn find_name<V>(s: Seq<(Seq<char>, V)>, name: Seq<char>) -> int
    decreases s.len(),
{
    if s.len() == 0 {
        -1
    } else if s[0].0 == name {
        0
    } else {
        let r = find_name(s.drop_first(), name);
        if r < 0 {
            -1
        } else {
            r + 1
        }
    }
}

/// What `find_name` finds: the first position with that name, if any.
pub proof fn lemma_find_name<V>(s: Seq<(Seq<char>, V)>, name: Seq<char>)
    ensures
        find_name(s, name) == -1 ==> forall|j: int| 0 <= j < s.len() ==> s[j].0 != name,
        find_name(s, name) >= 0 ==> {
            &&& find_name(s, name) < s.len()
            &&& s[find_name(s, name)].0 == name
            &&& forall|j: int| 0 <= j < find_name(s, name) ==> s[j].0 != name
        },
    decreases s.len(),
{
    if s.len() > 0 && s[0].0 != name {
        lemma_find_name(s.drop_first(), name);
        assert forall|j: int| 1 <= j < s.len() implies s.drop_first()[j - 1] == s[j] by {}
    }
}

/// The first position holding key `k`, or `-1`.
pub open spec fn find_key<V>(s: Seq<(u8, V)>, k: u8) -> int
    decreases s.len(),
{
    if s.len() == 0 {
        -1
    } else if s[0].0 == k {
        0
    } else {
        let r = find_key(s.drop_first(), k);
        if r < 0 {
            -1
        } else {
            r + 1
        }
    }
}

/// What `find_key` finds: the first position with that key, if any.
pub proof fn lemma_find_key<V>(s: Seq<(u8, V)>, k: u8)
    ensures
        find_key(s, k) == -1 ==> forall|j: int| 0 <= j < s.len() ==> s[j].0 != k,
        find_key(s, k) >= 0 ==> {
            &&& find_key(s, k) < s.len()
            &&& s[find_key(s, k)].0 == k
            &&& forall|j: int| 0 <= j < find_key(s, k) ==> s[j].0 != k
        },
    decreases s.len(),
{
    if s.len() > 0 && s[0].0 != k {
        lemma_find_key(s.drop_first(), k);
        assert forall|j: int| 1 <= j < s.len() implies s.drop_first()[j - 1] == s[j] by {}
    }
}

/// A component after one observation of `name`: a fresh entry, or the
/// existing one advanced.
pub open spec fn component_updated(c: ComponentModel, name: Seq<char>, msg: JsonModel, now: i64) -> ComponentModel {
    let i = find_name(c.messages, name);
    if i < 0 {
        ComponentModel { messages: c.messages.push((name, entry_new(msg, now))), ..c }
    } else {
        ComponentModel {
            messages: c.messages.update(i, (name, entry_updated(c.messages[i].1, msg, now))),
            ..c
        }
    }
}

impl MAVLinkVehicleComponentData {
    /// Records one observation of `name` carrying `message` at `now`.
    pub fn update(&mut self, name: String, message: JsonValue, now: i64)
        ensures
            final(self)@ == component_updated(old(self)@, name@, message@, now),
    {
        let ghost m0 = old(self)@;
        proof {
            lemma_find_name(m0.messages, name@);
        }
        let mut i: usize = 0;
        let n = self.messages.len();
        proof {
            assert(m0.messages.len() == n);
        }
        while i < n
            invariant
                n == self.messages@.len(),
                m0 == old(self)@,
                m0.messages.len() == n,
                i <= n,
                *self == *old(self),
                forall|j: int| 0 <= j < i ==> m0.messages[j].0 != name@,
            decreases n - i,
        {
            proof {
                assert(m0.messages[i as int] == (self.messages@[i as int].0@, self.messages@[
                    i as int
                ].1@));
            }
            if crate::text::str_eq(self.messages[i].0.as_str(), name.as_str()) {
                proof {
                    lemma_find_name(m0.messages, name@);
                    assert(m0.messages[i as int].0 == name@);
                    assert(find_name(m0.messages, name@) == i);
                }
                let mut entry = self.messages.remove(i);
                entry.1.update(message, now);
                self.messages.insert(i, entry);
                proof {
                    assert(self@.messages =~= m0.messages.update(
                        i as int,
                        (name@, entry_updated(m0.messages[i as int].1, message@, now)),
                    ));
                    assert(self@ =~= component_updated(m0, name@, message@, now));
                }
                return ;
            }
            i = i + 1;
        }
        proof {
            assert(find_name(m0.messages, name@) == -1) by {
                if find_name(m0.messages, name@) >= 0 {
                    assert(m0.messages[find_name(m0.messages, name@)].0 == name@);
                }
            }
        }
        let entry = MAVLinkMessageStatus {
            message,
            status: Status { time: Temporal::new(now) },
        };
        self.messages.push((name, entry));
        proof {
            assert(self@.messages =~= m0.messages.push(
                (name@, entry_new(message@, now)),
            ));
            assert(self@ =~= component_updated(m0, name@, message@, now));
        }
    }
}

/// All components seen from one vehicle.
#[derive(Debug)]
pub struct MAVLinkVehicleData {
    pub id: u8,
    pub components: Vec<(u8, MAVLinkVehicleComponentData)>,
}

/// The mathematical content of a vehicle: its component map in insertion
/// order.
#[verifier::ext_equal]
pub struct VehicleModel {
    pub id: u8,
    pub components: Seq<(u8, ComponentModel)>,
}

impl View for MAVLinkVehicleData {
    type V = VehicleModel;

    open spec fn view(&self) -> VehicleModel {
        VehicleModel {
            id: self.id,
            components: self.components@.map_values(
                |p: (u8, MAVLinkVehicleComponentData)| (p.0, p.1@),
            ),
        }
    }
}

/// A vehicle after one observation from component `comp`.
pub open spec fn vehicle_updated(
    v: VehicleModel,
    comp: u8,
    name: Seq<char>,
    msg: JsonModel,
    now: i64,
) -> VehicleModel {
    let i = find_key(v.components, comp);
    let empty = ComponentModel { id: comp, messages: Seq::empty() };
    if i < 0 {
        VehicleModel {
            components: v.components.push((comp, component_updated(empty, name, msg, now))),
            ..v
        }
    } else {
        VehicleModel {
            components: v.components.update(
                i,
                (comp, component_updated(v.components[i].1, name, msg, now)),
            ),
            ..v
        }
    }
}

impl MAVLinkVehicleData {
    /// Records one observation from component `comp`.
    pub fn update(&mut self, comp: u8, name: String, message: JsonValue, now: i64)
        ensures
            final(self)@ == vehicle_updated(old(self)@, comp, name@, message@, now),
    {
        let ghost m0 = old(self)@;
        proof {
            lemma_find_key(m0.components, comp);
        }
        let mut i: usize = 0;
        let n = self.components.len();
        proof {
            assert(m0.components.len() == n);
        }
        while i < n
            invariant
                n == self.components@.len(),
                m0 == old(self)@,
                m0.components.len() == n,
                i <= n,
                *self == *old(self),
                forall|j: int| 0 <= j < i ==> m0.components[j].0 != comp,
            decreases n - i,
        {
            proof {
                assert(m0.components[i as int] == (self.components@[i as int].0, self.components@[
                    i as int
                ].1@));
            }
            if self.components[i].0 == comp {
                proof {
                    lemma_find_key(m0.components, comp);
                    assert(m0.components[i as int].0 == comp);
                    assert(find_key(m0.components, comp) == i);
                }
                let mut entry = self.components.remove(i);
                entry.1.update(name, message, now);
                self.components.insert(i, entry);
                proof {
                    assert(self@.components =~= m0.components.update(
                        i as int,
                        (comp, component_updated(m0.components[i as int].1, name@, message@, now)),
                    ));
                    assert(self@ =~= vehicle_updated(m0, comp, name@, message@, now));
                }
                return ;
            }
            i = i + 1;
        }
        proof {
            assert(find_key(m0.components, comp) == -1) by {
                if find_key(m0.components, comp) >= 0 {
                    assert(m0.components[find_key(m0.components, comp)].0 == comp);
                }
            }
        }
        let mut fresh = MAVLinkVehicleComponentData { id: comp, messages: Vec::new() };
        proof {
            assert(fresh@ =~= (ComponentModel { id: comp, messages: Seq::empty() }));
        }
        fresh.update(name, message, now);
        self.components.push((comp, fresh));
        proof {
            assert(self@ =~= vehicle_updated(m0, comp, name@, message@, now));
        }
    }
}

/// Every vehicle heard on the link.
#[derive(Debug)]
pub struct MAVLinkVehiclesData {
    pub vehicles: Vec<(u8, MAVLinkVehicleData)>,
}

/// The mathematical content of the store: its vehicle map in insertion
/// order.
#[verifier::ext_equal]
pub struct StoreModel {
    pub vehicles: Seq<(u8, VehicleModel)>,
}

impl View for MAVLinkVehiclesData {
    type V = StoreModel;

    open spec fn view(&self) -> StoreModel {
        StoreModel {
            vehicles: self.vehicles@.map_values(|p: (u8, MAVLinkVehicleData)| (p.0, p.1@)),
        }
    }
}

/// The store after one observation under `header`.
pub open spec fn store_updated(
    s: StoreModel,
    sys: u8,
    comp: u8,
    name: Seq<char>,
    msg: JsonModel,
    now: i64,
) -> StoreModel {
    let i = find_key(s.vehicles, sys);
    let empty = VehicleModel { id: sys, components: Seq::empty() };
    if i < 0 {
        StoreModel {
            vehicles: s.vehicles.push((sys, vehicle_updated(empty, comp, name, msg, now))),
        }
    } else {
        StoreModel {
            vehicles: s.vehicles.update(
                i,
                (sys, vehicle_updated(s.vehicles[i].1, comp, name, msg, now)),
            ),
        }
    }
}

impl MAVLinkVehiclesData {
    /// An empty store.
    pub fn new() -> (r: Self)
        ensures
            r@.vehicles == Seq::<(u8, VehicleModel)>::empty(),
    {
        let r = MAVLinkVehiclesData { vehicles: Vec::new() };
        proof {
            assert(r@.vehicles =~= Seq::<(u8, VehicleModel)>::empty());
        }
        r
    }

    /// Records one observation: the message named `name` carried by
    /// `message`, from the system and component of `header`, at `now`.
    pub fn update(&mut self, header: &MavHeader, name: String, message: JsonValue, now: i64)
        ensures
            final(self)@ == store_updated(
                old(self)@,
                header.system_id,
                header.component_id,
                name@,
                message@,
                now,
            ),
    {
        let ghost m0 = old(self)@;
        let sys = header.system_id;
        let comp = header.component_id;
        proof {
            lemma_find_key(m0.vehicles, sys);
        }
        let mut i: usize = 0;
        let n = self.vehicles.len();
        proof {
            assert(m0.vehicles.len() == n);
        }
        while i < n
            invariant
                n == self.vehicles@.len(),
                m0 == old(self)@,
                m0.vehicles.len() == n,
                i <= n,
                *self == *old(self),
                sys == header.system_id,
                comp == header.component_id,
                forall|j: int| 0 <= j < i ==> m0.vehicles[j].0 != sys,
            decreases n - i,
        {
            proof {
                assert(m0.vehicles[i as int] == (self.vehicles@[i as int].0, self.vehicles@[
                    i as int
                ].1@));
            }
            if self.vehicles[i].0 == sys {
                proof {
                    lemma_find_key(m0.vehicles, sys);
                    assert(m0.vehicles[i as int].0 == sys);
                    assert(find_key(m0.vehicles, sys) == i);
                }
                let mut entry = self.vehicles.remove(i);
                entry.1.update(comp, name, message, now);
                self.vehicles.insert(i, entry);
                proof {
                    assert(self@.vehicles =~= m0.vehicles.update(
                        i as int,
                        (sys, vehicle_updated(m0.vehicles[i as int].1, comp, name@, message@, now)),
                    ));
                    assert(self@ =~= store_updated(m0, sys, comp, name@, message@, now));
                }
                return ;
            }
            i = i + 1;
        }
        proof {
            assert(find_key(m0.vehicles, sys) == -1) by {
                if find_key(m0.vehicles, sys) >= 0 {
                    assert(m0.vehicles[find_key(m0.vehicles, sys)].0 == sys);
                }
            }
        }
        let mut fresh = MAVLinkVehicleData { id: sys, components: Vec::new() };
        proof {
            assert(fresh@ =~= (VehicleModel { id: sys, components: Seq::empty() }));
        }
        fresh.update(comp, name, message, now);
        self.vehicles.push((sys, fresh));
        proof {
            assert(self@ =~= store_updated(m0, sys, comp, name@, message@, now));
        }
    }
}

/// Relies on chrono's `Local::now`: the moment of the call, in
/// milliseconds since the Unix epoch.  Nothing is promised of the value.
#[verifier::external_body]
pub fn now_ms() -> i64 {
    chrono::Local::now().timestamp_millis()
}

impl MAVLinkVehiclesData {
    /// Records one observation at the present moment, as `update` does.
    pub fn update_now(&mut self, header: &MavHeader, name: String, message: JsonValue)
        ensures
            exists|now: i64|
                final(self)@ == store_updated(
                    old(self)@,
                    header.system_id,
                    header.component_id,
                    name@,
                    message@,
                    now,
                ),
    {
        let now = now_ms();
        self.update(header, name, message, now);
    }
}

/// The temporal data of one message entry, if the store holds it.
pub open spec fn store_time(s: StoreModel, sys: u8, comp: u8, name: Seq<char>) -> Option<
    Temporal,
> {
    let i = find_key(s.vehicles, sys);
    if i < 0 {
        None
    } else {
        let j = find_key(s.vehicles[i].1.components, comp);
        if j < 0 {
            None
        } else {
            let k = find_name(s.vehicles[i].1.components[j].1.messages, name);
            if k < 0 {
                None
            } else {
                Some(s.vehicles[i].1.components[j].1.messages[k].1.status.time)
            }
        }
    }
}

/// The fractional part of a millihertz value, as serialized: up to three
/// digits with trailing zeros removed, `0` when there are none.
pub open spec fn frac_chars(f: nat) -> Seq<char> {
    if f % 10 != 0 {
        seq![
            crate::text::digit_char(f / 100),
            crate::text::digit_char((f / 10) % 10),
            crate::text::digit_char(f % 10),
        ]
    } else if f % 100 != 0 {
        seq![crate::text::digit_char(f / 100), crate::text::digit_char((f / 10) % 10)]
    } else if f != 0 {
        seq![crate::text::digit_char(f / 100)]
    } else {
        seq!['0']
    }
}

/// A millihertz value as a decimal number: whole part, a dot, and the
/// trimmed fraction (`1000` prints as `1.0`, `1250` as `1.25`).
pub open spec fn milli_decimal(m: u64) -> Seq<char> {
    crate::text::dec_digits((m / 1000) as nat) + seq!['.'] + frac_chars((m % 1000) as nat)
}

/// Renders a millihertz value as a decimal number.
pub fn milli_decimal_string(m: u64) -> (r: String)
    ensures
        r@ == milli_decimal(m),
{
    let mut out = String::new();
    crate::text::write_u64(m / 1000, &mut out);
    crate::text::push_char(&mut out, '.');
    let f: u64 = m % 1000;
    if f % 10 != 0 {
        crate::text::push_char(&mut out, crate::text::digit_char_exec((f / 100) as u8));
        crate::text::push_char(&mut out, crate::text::digit_char_exec(((f / 10) % 10) as u8));
        crate::text::push_char(&mut out, crate::text::digit_char_exec((f % 10) as u8));
    } else if f % 100 != 0 {
        crate::text::push_char(&mut out, crate::text::digit_char_exec((f / 100) as u8));
        crate::text::push_char(&mut out, crate::text::digit_char_exec(((f / 10) % 10) as u8));
    } else if f != 0 {
        crate::text::push_char(&mut out, crate::text::digit_char_exec((f / 100) as u8));
    } else {
        crate::text::push_char(&mut out, '0');
    }
    proof {
        assert(out@ =~= milli_decimal(m));
    }
    out
}

/// The JSON form of the temporal data.
pub open spec fn temporal_json(t: Temporal) -> JsonModel {
    JsonModel::Object(
        seq![
            ("first_update"@, JsonModel::Num(crate::text::dec_digits_signed(t.first_update as int))),
            ("last_update"@, JsonModel::Num(crate::text::dec_digits_signed(t.last_update as int))),
            ("counter"@, JsonModel::Num(crate::text::dec_digits(t.counter as nat))),
            ("frequency"@, JsonModel::Num(milli_decimal(t.frequency_millihertz))),
        ],
    )
}

/// The JSON form of one message entry: the message itself and its status.
pub open spec fn message_status_json(e: MessageStatusModel) -> JsonModel {
    JsonModel::Object(
        seq![
            ("message"@, e.message),
            (
                "status"@,
                JsonModel::Object(seq![("time"@, temporal_json(e.status.time))]),
            ),
        ],
    )
}

/// The JSON form of a component: its id and its message map.
pub open spec fn component_json(c: ComponentModel) -> JsonModel {
    JsonModel::Object(
        seq![
            ("id"@, JsonModel::Num(crate::text::dec_digits(c.id as nat))),
            (
                "messages"@,
                JsonModel::Object(
                    c.messages.map_values(
                        |p: (Seq<char>, MessageStatusModel)| (p.0, message_status_json(p.1)),
                    ),
                ),
            ),
        ],
    )
}

/// The JSON form of a vehicle: its id and its component map, keyed by the
/// components' decimal ids.
pub open spec fn vehicle_json(v: VehicleModel) -> JsonModel {
    JsonModel::Object(
        seq![
            ("id"@, JsonModel::Num(crate::text::dec_digits(v.id as nat))),
            (
                "components"@,
                JsonModel::Object(
                    v.components.map_values(
                        |p: (u8, ComponentModel)| (
                            crate::text::dec_digits(p.0 as nat),
                            component_json(p.1),
                        ),
                    ),
                ),
            ),
        ],
    )
}

/// The vehicle map of the store, keyed by the vehicles' decimal ids.
pub open spec fn vehicles_json(vs: Seq<(u8, VehicleModel)>) -> Seq<(Seq<char>, JsonModel)> {
    vs.map_values(
        |p: (u8, VehicleModel)| (crate::text::dec_digits(p.0 as nat), vehicle_json(p.1)),
    )
}

/// The JSON form of the whole store.
pub open spec fn store_json(s: StoreModel) -> JsonModel {
    JsonModel::Object(seq![("vehicles"@, JsonModel::Object(vehicles_json(s.vehicles)))])
}

/// Renders the temporal data as JSON.
fn temporal_to_json(t: &Temporal) -> (r: JsonValue)
    ensures
        r@ == temporal_json(*t),
{
    let mut fields: Vec<(String, JsonValue)> = Vec::new();
    fields.push((
        "first_update".to_owned(),
        JsonValue::Num(crate::text::i64_to_string(t.first_update)),
    ));
    fields.push((
        "last_update".to_owned(),
        JsonValue::Num(crate::text::i64_to_string(t.last_update)),
    ));
    fields.push(("counter".to_owned(), JsonValue::Num(crate::text::u64_to_string(t.counter))));
    fields.push((
        "frequency".to_owned(),
        JsonValue::Num(milli_decimal_string(t.frequency_millihertz)),
    ));
    let r = JsonValue::Object(fields);
    proof {
        let fs = r->Object_0@;
        crate::json::lemma_json_view_fields(fs);
        assert(fs.len() == 4);
        assert(fs[0].0@ == "first_update"@);
        assert(fs[0].1@ == JsonModel::Num(crate::text::dec_digits_signed(t.first_update as int)));
        assert(json_view_fields(fs)[0] == ("first_update"@, fs[0].1@));
        assert(json_view_fields(fs) =~= temporal_json(*t)->Object_0);
        assert(r@ =~~= temporal_json(*t));
    }
    r
}

/// Renders one message entry as JSON.
fn entry_to_json(e: &MAVLinkMessageStatus) -> (r: JsonValue)
    ensures
        r@ == message_status_json(e@),
{
    let mut time_fields: Vec<(String, JsonValue)> = Vec::new();
    time_fields.push(("time".to_owned(), temporal_to_json(&e.status.time)));
    let status = JsonValue::Object(time_fields);
    let mut fields: Vec<(String, JsonValue)> = Vec::new();
    fields.push(("message".to_owned(), e.message.deep_clone()));
    fields.push(("status".to_owned(), status));
    let r = JsonValue::Object(fields);
    proof {
        crate::json::lemma_json_view_fields(status->Object_0@);
        assert(json_view_fields(status->Object_0@) =~= seq![
            ("time"@, temporal_json(e.status.time)),
        ]);
        assert(status@ =~~= (JsonModel::Object(
            seq![("time"@, temporal_json(e.status.time))],
        )));
        crate::json::lemma_json_view_fields(r->Object_0@);
        assert(json_view_fields(r->Object_0@) =~= message_status_json(e@)->Object_0);
        assert(r@ =~~= message_status_json(e@));
    }
    r
}

/// Renders a component as JSON.
fn component_to_json(c: &MAVLinkVehicleComponentData) -> (r: JsonValue)
    ensures
        r@ == component_json(c@),
{
    let ghost cm = c@;
    let mut msgs: Vec<(String, JsonValue)> = Vec::new();
    let n = c.messages.len();
    proof {
        assert(cm.messages.len() == n);
    }
    let mut k: usize = 0;
    while k < n
        invariant
            k <= n,
            n == c.messages@.len(),
            cm == c@,
            cm.messages.len() == n,
            msgs@.len() == k,
            forall|i: int|
                0 <= i < k ==> #[trigger] msgs@[i].0@ == cm.messages[i].0 && msgs@[i].1@
                    == message_status_json(cm.messages[i].1),
        decreases n - k,
    {
        proof {
            assert(cm.messages[k as int] == (c.messages@[k as int].0@, c.messages@[k as int].1@));
        }
        let name = c.messages[k].0.clone();
        let entry = entry_to_json(&c.messages[k].1);
        msgs.push((name, entry));
        k = k + 1;
    }
    let messages = JsonValue::Object(msgs);
    let mut fields: Vec<(String, JsonValue)> = Vec::new();
    fields.push(("id".to_owned(), JsonValue::Num(crate::text::u64_to_string(c.id as u64))));
    fields.push(("messages".to_owned(), messages));
    let r = JsonValue::Object(fields);
    proof {
        crate::json::lemma_json_view_fields(messages->Object_0@);
        assert(json_view_fields(messages->Object_0@) =~= cm.messages.map_values(
            |p: (Seq<char>, MessageStatusModel)| (p.0, message_status_json(p.1)),
        ));
        assert(messages@ =~~= (JsonModel::Object(
            cm.messages.map_values(
                |p: (Seq<char>, MessageStatusModel)| (p.0, message_status_json(p.1)),
            ),
        )));
        crate::json::lemma_json_view_fields(r->Object_0@);
        assert(json_view_fields(r->Object_0@) =~= component_json(cm)->Object_0);
        assert(r@ =~~= component_json(cm));
    }
    r
}

/// Renders a vehicle as JSON.
fn vehicle_to_json(v: &MAVLinkVehicleData) -> (r: JsonValue)
    ensures
        r@ == vehicle_json(v@),
{
    let ghost vm = v@;
    let mut comps: Vec<(String, JsonValue)> = Vec::new();
    let n = v.components.len();
    proof {
        assert(vm.components.len() == n);
    }
    let mut k: usize = 0;
    while k < n
        invariant
            k <= n,
            n == v.components@.len(),
            vm == v@,
            vm.components.len() == n,
            comps@.len() == k,
            forall|i: int|
                0 <= i < k ==> #[trigger] comps@[i].0@ == crate::text::dec_digits(
                    vm.components[i].0 as nat,
                ) && comps@[i].1@ == component_json(vm.components[i].1),
        decreases n - k,
    {
        proof {
            assert(vm.components[k as int] == (v.components@[k as int].0, v.components@[
                k as int
            ].1@));
        }
        let key = crate::text::u64_to_string(v.components[k].0 as u64);
        let comp = component_to_json(&v.components[k].1);
        comps.push((key, comp));
        k = k + 1;
    }
    let components = JsonValue::Object(comps);
    let mut fields: Vec<(String, JsonValue)> = Vec::new();
    fields.push(("id".to_owned(), JsonValue::Num(crate::text::u64_to_string(v.id as u64))));
    fields.push(("components".to_owned(), components));
    let r = JsonValue::Object(fields);
    proof {
        crate::json::lemma_json_view_fields(components->Object_0@);
        assert(json_view_fields(components->Object_0@) =~= vm.components.map_values(
            |p: (u8, ComponentModel)| (crate::text::dec_digits(p.0 as nat), component_json(p.1)),
        ));
        assert(components@ =~~= (JsonModel::Object(
            vm.components.map_values(
                |p: (u8, ComponentModel)| (crate::text::dec_digits(p.0 as nat), component_json(
                    p.1,
                )),
            ),
        )));
        crate::json::lemma_json_view_fields(r->Object_0@);
        assert(json_view_fields(r->Object_0@) =~= vehicle_json(vm)->Object_0);
        assert(r@ =~~= vehicle_json(vm));
    }
    r
}

impl MAVLinkVehiclesData {
    /// Renders the whole store as a JSON document.
    pub fn to_json(&self) -> (r: JsonValue)
        ensures
            r@ == store_json(self@),
    {
        let ghost sm = self@;
        let mut vehs: Vec<(String, JsonValue)> = Vec::new();
        let n = self.vehicles.len();
        proof {
            assert(sm.vehicles.len() == n);
        }
        let mut k: usize = 0;
        while k < n
            invariant
                k <= n,
                n == self.vehicles@.len(),
                sm == self@,
                sm.vehicles.len() == n,
                vehs@.len() == k,
                forall|i: int|
                    0 <= i < k ==> #[trigger] vehs@[i].0@ == crate::text::dec_digits(
                        sm.vehicles[i].0 as nat,
                    ) && vehs@[i].1@ == vehicle_json(sm.vehicles[i].1),
            decreases n - k,
        {
            proof {
                assert(sm.vehicles[k as int] == (self.vehicles@[k as int].0, self.vehicles@[
                    k as int
                ].1@));
            }
            let key = crate::text::u64_to_string(self.vehicles[k].0 as u64);
            let veh = vehicle_to_json(&self.vehicles[k].1);
            vehs.push((key, veh));
            k = k + 1;
        }
        let vehicles = JsonValue::Object(vehs);
        let mut fields: Vec<(String, JsonValue)> = Vec::new();
        fields.push(("vehicles".to_owned(), vehicles));
        let r = JsonValue::Object(fields);
        proof {
            crate::json::lemma_json_view_fields(vehicles->Object_0@);
            assert(json_view_fields(vehicles->Object_0@) =~= vehicles_json(sm.vehicles));
            assert(vehicles@ =~~= (JsonModel::Object(vehicles_json(sm.vehicles))));
            crate::json::lemma_json_view_fields(r->Object_0@);
            assert(json_view_fields(r->Object_0@) =~= store_json(sm)->Object_0);
            assert(r@ =~~= store_json(sm));
        }
        r
    }
}

/// What a query returns: the whole store pretty-printed for the empty
/// path; otherwise the pretty-printed sub-value that the JSON pointer
/// `/path` names in the store's JSON document, or the text `None` when the
/// pointer does not resolve.
pub open spec fn store_query(s: StoreModel, path: Seq<char>) -> Seq<char> {
    if path.len() == 0 {
        crate::json::pretty_chars(store_json(s), Seq::<char>::empty())
    } else {
        match crate::json::json_pointer(store_json(s), seq!['/'] + path) {
            Some(v) => crate::json::pretty_chars(v, Seq::<char>::empty()),
            None => seq!['N', 'o', 'n', 'e'],
        }
    }
}

impl MAVLinkVehiclesData {
    /// Answers a path query against the store's JSON document, as
    /// `store_query` describes.
    pub fn pointer(&self, path: &str) -> (r: String)
        ensures
            r@ == store_query(self@, path@),
    {
        let tree = self.to_json();
        if path.unicode_len() == 0 {
            return tree.to_pretty_string();
        }
        let mut p = String::new();
        crate::text::push_char(&mut p, '/');
        p.append(path);
        proof {
            assert(p@ =~= seq!['/'] + path@);
        }
        match tree.pointer(p.as_str()) {
            Some(v) => v.to_pretty_string(),
            None => {
                let r = "None".to_owned();
                proof {
                    reveal_strlit("None");
                    assert(r@ =~= seq!['N', 'o', 'n', 'e']);
                }
                r
            },
        }
    }
}

/// JSON-pointer queries are consistent with the serialized tree: the empty
/// query prints the store's whole JSON document, and for every path whose
/// pointer resolves in that document, the query prints exactly the
/// sub-value the pointer names; every other non-empty path yields `None`.
pub proof fn lemma_query_consistent(s: StoreModel, path: Seq<char>)
    ensures
        store_query(s, Seq::<char>::empty()) == crate::json::pretty_chars(
            store_json(s),
            Seq::<char>::empty(),
        ),
        path.len() > 0 ==> match crate::json::json_pointer(store_json(s), seq!['/'] + path) {
            Some(v) => store_query(s, path) == crate::json::pretty_chars(
                v,
                Seq::<char>::empty(),
            ),
            None => store_query(s, path) == seq!['N', 'o', 'n', 'e'],
        },
{
}

/// Updating the entry at the found position keeps it the first with that key.
proof fn lemma_find_key_update<V>(s: Seq<(u8, V)>, k: u8, v: V)
    requires
        0 <= find_key(s, k) < s.len(),
        s[find_key(s, k)].0 == k,
        forall|j: int| 0 <= j < find_key(s, k) ==> s[j].0 != k,
    ensures
        find_key(s.update(find_key(s, k), (k, v)), k) == find_key(s, k),
{
    let i = find_key(s, k);
    let s2 = s.update(i, (k, v));
    lemma_find_key(s2, k);
    assert(s2[i].0 == k);
    if find_key(s2, k) == -1 {
        assert(false);
    }
    let f2 = find_key(s2, k);
    if f2 < i {
        assert(s2[f2] == s[f2]);
        assert(false);
    }
    if f2 > i {
        assert(false);
    }
}

/// Pushing a key that is absent makes it the first at the end.
proof fn lemma_find_key_push<V>(s: Seq<(u8, V)>, k: u8, v: V)
    requires
        forall|j: int| 0 <= j < s.len() ==> s[j].0 != k,
    ensures
        find_key(s.push((k, v)), k) == s.len(),
{
    let s2 = s.push((k, v));
    lemma_find_key(s2, k);
    assert(s2[s.len() as int].0 == k);
    if find_key(s2, k) == -1 {
        assert(false);
    }
    let f2 = find_key(s2, k);
    if f2 < s.len() {
        assert(s2[f2] == s[f2]);
        assert(false);
    }
}

/// Updating the entry at the found position keeps it the first with that name.
proof fn lemma_find_name_update<V>(s: Seq<(Seq<char>, V)>, k: Seq<char>, v: V)
    requires
        0 <= find_name(s, k) < s.len(),
        s[find_name(s, k)].0 == k,
        forall|j: int| 0 <= j < find_name(s, k) ==> s[j].0 != k,
    ensures
        find_name(s.update(find_name(s, k), (k, v)), k) == find_name(s, k),
{
    let i = find_name(s, k);
    let s2 = s.update(i, (k, v));
    lemma_find_name(s2, k);
    assert(s2[i].0 == k);
    if find_name(s2, k) == -1 {
        assert(false);
    }
    let f2 = find_name(s2, k);
    if f2 < i {
        assert(s2[f2] == s[f2]);
        assert(false);
    }
    if f2 > i {
        assert(false);
    }
}

/// Pushing a name that is absent makes it the first at the end.
proof fn lemma_find_name_push<V>(s: Seq<(Seq<char>, V)>, k: Seq<char>, v: V)
    requires
        forall|j: int| 0 <= j < s.len() ==> s[j].0 != k,
    ensures
        find_name(s.push((k, v)), k) == s.len(),
{
    let s2 = s.push((k, v));
    lemma_find_name(s2, k);
    assert(s2[s.len() as int].0 == k);
    if find_name(s2, k) == -1 {
        assert(false);
    }
    let f2 = find_name(s2, k);
    if f2 < s.len() {
        assert(s2[f2] == s[f2]);
        assert(false);
    }
}

/// What one observation does to the observed entry's temporal data: a fresh
/// record at its first observation, and an advanced one afterwards.
pub proof fn lemma_store_time_updated(
    s: StoreModel,
    sys: u8,
    comp: u8,
    name: Seq<char>,
    msg: JsonModel,
    now: i64,
)
    ensures
        store_time(store_updated(s, sys, comp, name, msg, now), sys, comp, name) == Some(
            match store_time(s, sys, comp, name) {
                None => temporal_new(now),
                Some(t) => temporal_updated(t, now),
            },
        ),
{
    let s2 = store_updated(s, sys, comp, name, msg, now);
    lemma_find_key(s.vehicles, sys);
    let i = find_key(s.vehicles, sys);
    if i < 0 {
        let empty_v = VehicleModel { id: sys, components: Seq::empty() };
        let v2 = vehicle_updated(empty_v, comp, name, msg, now);
        lemma_find_key_push(s.vehicles, sys, v2);
        assert(s2.vehicles[s.vehicles.len() as int].1 == v2);
        let empty_c = ComponentModel { id: comp, messages: Seq::empty() };
        assert(find_key(empty_v.components, comp) == -1);
        let c2 = component_updated(empty_c, name, msg, now);
        lemma_find_key_push(empty_v.components, comp, c2);
        assert(v2.components[0].1 == c2);
        assert(find_name(empty_c.messages, name) == -1);
        lemma_find_name_push(empty_c.messages, name, entry_new(msg, now));
        assert(c2.messages[0].1 == entry_new(msg, now));
    } else {
        let v = s.vehicles[i].1;
        let v2 = vehicle_updated(v, comp, name, msg, now);
        lemma_find_key_update(s.vehicles, sys, v2);
        assert(s2.vehicles[i].1 == v2);
        lemma_find_key(v.components, comp);
        let j = find_key(v.components, comp);
        if j < 0 {
            let empty_c = ComponentModel { id: comp, messages: Seq::empty() };
            let c2 = component_updated(empty_c, name, msg, now);
            lemma_find_key_push(v.components, comp, c2);
            assert(v2.components[v.components.len() as int].1 == c2);
            assert(find_name(empty_c.messages, name) == -1);
            lemma_find_name_push(empty_c.messages, name, entry_new(msg, now));
            assert(c2.messages[0].1 == entry_new(msg, now));
        } else {
            let c = v.components[j].1;
            let c2 = component_updated(c, name, msg, now);
            lemma_find_key_update(v.components, comp, c2);
            assert(v2.components[j].1 == c2);
            lemma_find_name(c.messages, name);
            let k = find_name(c.messages, name);
            if k < 0 {
                lemma_find_name_push(c.messages, name, entry_new(msg, now));
                assert(c2.messages[c.messages.len() as int].1 == entry_new(msg, now));
            } else {
                let e2 = entry_updated(c.messages[k].1, msg, now);
                lemma_find_name_update(c.messages, name, e2);
                assert(c2.messages[k].1 == e2);
            }
        }
    }
}

/// The store after a run of observations of one (system, component, name)
/// triple, each with its message and its clock reading.
pub open spec fn apply_observations(
    s: StoreModel,
    sys: u8,
    comp: u8,
    name: Seq<char>,
    obs: Seq<(JsonModel, i64)>,
) -> StoreModel
    decreases obs.len(),
{
    if obs.len() == 0 {
        s
    } else {
        apply_observations(
            store_updated(s, sys, comp, name, obs[0].0, obs[0].1),
            sys,
            comp,
            name,
            obs.drop_first(),
        )
    }
}

proof fn lemma_apply_observations_existing(
    s: StoreModel,
    sys: u8,
    comp: u8,
    name: Seq<char>,
    obs: Seq<(JsonModel, i64)>,
    t0: Temporal,
)
    requires
        store_time(s, sys, comp, name) == Some(t0),
        t0.counter + obs.len() <= u64::MAX,
    ensures
        ({
            let t = store_time(apply_observations(s, sys, comp, name, obs), sys, comp, name);
            &&& t is Some
            &&& t->0.counter == t0.counter + obs.len()
            &&& t->0.first_update == t0.first_update
            &&& t->0.last_update == (if obs.len() == 0 {
                t0.last_update
            } else {
                obs.last().1
            })
        }),
    decreases obs.len(),
{
    if obs.len() > 0 {
        lemma_store_time_updated(s, sys, comp, name, obs[0].0, obs[0].1);
        let s1 = store_updated(s, sys, comp, name, obs[0].0, obs[0].1);
        let t1 = temporal_updated(t0, obs[0].1);
        lemma_apply_observations_existing(s1, sys, comp, name, obs.drop_first(), t1);
        if obs.len() > 1 {
            assert(obs.drop_first().last() == obs.last());
        }
    }
}

/// Counter and clock: starting from a store that has never seen the
/// (system, component, name) triple, a run of observations leaves the
/// triple's counter equal to the number of observations, its first update
/// at the first observation's clock and its last update at the last one's.
pub proof fn lemma_store_counter(
    s: StoreModel,
    sys: u8,
    comp: u8,
    name: Seq<char>,
    obs: Seq<(JsonModel, i64)>,
)
    requires
        store_time(s, sys, comp, name) is None,
        1 <= obs.len() <= u64::MAX,
    ensures
        ({
            let t = store_time(apply_observations(s, sys, comp, name, obs), sys, comp, name);
            &&& t is Some
            &&& t->0.counter == obs.len()
            &&& t->0.first_update == obs[0].1
            &&& t->0.last_update == obs.last().1
        }),
{
    lemma_store_time_updated(s, sys, comp, name, obs[0].0, obs[0].1);
    let s1 = store_updated(s, sys, comp, name, obs[0].0, obs[0].1);
    lemma_apply_observations_existing(s1, sys, comp, name, obs.drop_first(), temporal_new(obs[0].1));
    if obs.len() > 1 {
        assert(obs.drop_first().last() == obs.last());
    }
}

/// The `vehicles` path resolves in the store's JSON document to the
/// vehicle map itself, so the query prints exactly that map.
pub proof fn lemma_vehicles_query(s: StoreModel)
    ensures
        crate::json::json_pointer(store_json(s), seq!['/'] + "vehicles"@) == Some(
            JsonModel::Object(vehicles_json(s.vehicles)),
        ),
        store_query(s, "vehicles"@) == crate::json::pretty_chars(
            JsonModel::Object(vehicles_json(s.vehicles)),
            Seq::<char>::empty(),
        ),
{
    reveal_strlit("vehicles");
    let p = seq!['/'] + "vehicles"@;
    assert(p.len() == 9);
    assert(p[0] == '/');
    assert forall|j: int| 1 <= j < p.len() implies p[j] != '/' by {
        assert(p[j] == "vehicles"@[j - 1]);
    }
    crate::json::lemma_slash_from_none(p, 1);
    let token_text = p.subrange(1, 9);
    assert(token_text =~= "vehicles"@);
    assert forall|j: int| 0 <= j < token_text.len() implies token_text[j] != '~' by {}
    crate::json::lemma_unescape_plain(token_text);
    let doc = store_json(s);
    let fields = doc->Object_0;
    assert(fields[0].0 == "vehicles"@);
    assert(crate::json::obj_lookup(fields, "vehicles"@) == Some(
        JsonModel::Object(vehicles_json(s.vehicles)),
    ));
    assert(crate::json::nav_path(doc, p, 1) == Some(
        JsonModel::Object(vehicles_json(s.vehicles)),
    ));
}

} // verus!

