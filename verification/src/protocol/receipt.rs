//! The `receipt` module contains structs that supply information on the
//! processing of transactions: the changes a transaction made to state, the
//! events it fired and the data it returned.

use crate::protos::events as proto_events;
use crate::protos::transaction_receipt as proto_receipt;
use crate::protos::wire::{top_level_slack, WireError};
use crate::protos::ProtoConversionError;
use crate::state;
use crate::state::StateChangeView;
use vstd::prelude::*;

verus! {

// ---------------------------------------------------------------------------
// Text of values

/// Compares two strings with std's `<str as PartialEq>::eq`; the contract
/// claims that they are equal exactly when they hold the same characters.
#[verifier::external_body]
fn str_eq(a: &str, b: &str) -> (r: bool)
    ensures
        r == (a@ == b@),
{
    a == b
}

/// What std's `Debug` formatting of a string (`format!("{:?}", s)`) gives
/// for a string of the characters `s`: the string quoted, with characters
/// escaped.
pub uninterp spec fn str_debug(s: Seq<char>) -> Seq<char>;

/// Formats a string with std's `Debug` (`format!("{:?}", s)`); the contract
/// names the result.
#[verifier::external_body]
fn debug_quoted(s: &str) -> (r: String)
    ensures
        r@ == str_debug(s@),
{
    format!("{:?}", s)
}

/// The decimal digit `d`.
pub open spec fn digit_char(d: nat) -> char {
    ((48 + d) as u32) as char
}

/// The decimal representation of `n`, without sign or leading zeros.
pub open spec fn decimal(n: nat) -> Seq<char>
    decreases n,
{
    if n < 10 {
        seq![digit_char(n)]
    } else {
        decimal(n / 10).push(digit_char(n % 10))
    }
}

/// The one-character text of the decimal digit `d`.
fn digit_str(d: usize) -> (r: &'static str)
    requires
        d < 10,
    ensures
        r@ == seq![digit_char(d as nat)],
{
    proof {
        reveal_strlit("0");
        reveal_strlit("1");
        reveal_strlit("2");
        reveal_strlit("3");
        reveal_strlit("4");
        reveal_strlit("5");
        reveal_strlit("6");
        reveal_strlit("7");
        reveal_strlit("8");
        reveal_strlit("9");
    }
    match d {
        0 => "0",
        1 => "1",
        2 => "2",
        3 => "3",
        4 => "4",
        5 => "5",
        6 => "6",
        7 => "7",
        8 => "8",
        _ => "9",
    }
}

/// Appends the decimal representation of `n` to `out`.
fn append_decimal(out: &mut String, n: usize)
    ensures
        final(out)@ == old(out)@ + decimal(n as nat),
    decreases n,
{
    if n >= 10 {
        append_decimal(out, n / 10);
    }
    out.append(digit_str(n % 10));
}

/// The decimal representation of `n`, as `format!("{}", n)` writes it.
fn decimal_string(n: usize) -> (r: String)
    ensures
        r@ == decimal(n as nat),
{
    let mut out = String::new();
    append_decimal(&mut out, n);
    out
}

// ---------------------------------------------------------------------------
// StateChange

/// A change to be applied to state, in terms of keys and values.
///
/// A `StateChange` represents the basic level of changes that can be applied
/// to values in state. This covers the setting of a key/value pair, or the
/// deletion of a key.
#[derive(Debug, PartialEq, Eq, Hash)]
pub enum StateChange {
    SetValue { key: String, value: Vec<u8> },
    Delete { key: String },
}

impl View for StateChange {
    type V = StateChangeView;

    open spec fn view(&self) -> StateChangeView {
        match self {
            StateChange::SetValue { key, value } => StateChangeView::SetValue { key: key@, value: value@ },
            StateChange::Delete { key } => StateChangeView::Delete { key: key@ },
        }
    }
}

/// The key that a state change sets or deletes.
pub open spec fn key_of(c: StateChangeView) -> Seq<char> {
    match c {
        StateChangeView::SetValue { key, .. } => key,
        StateChangeView::Delete { key } => key,
    }
}

/// The text that describes a state change for debugging: the key quoted, and
/// for a set the number of bytes of the value rather than the bytes.
pub open spec fn state_change_debug(c: StateChangeView) -> Seq<char> {
    match c {
        StateChangeView::SetValue { key, value } => "StateChange{ "@ + "key: "@ + str_debug(key) + ", "@
            + "value: <"@ + decimal(value.len()) + " byte"@ + (if value.len() == 1 {
            Seq::empty()
        } else {
            "s"@
        }) + ">"@ + " }"@,
        StateChangeView::Delete { key } => "StateChange::Delete{ key: "@ + str_debug(key) + " })"@,
    }
}

/// The message with which a state change whose type is unset is refused.
pub open spec fn unset_type_message() -> Seq<char> {
    "Cannot convert StateChange with type unset. /\n                    StageChange type must be StateChange_Type::SET or StateChange_Type::DELETE."@
}

/// The state change that a `StateChange` message describes; none when its
/// type is unset.
pub open spec fn state_change_of_proto(p: proto_receipt::StateChangeView) -> Option<StateChangeView> {
    match p.field_type {
        proto_receipt::StateChange_Type::SET => Some(StateChangeView::SetValue { key: p.address, value: p.value }),
        proto_receipt::StateChange_Type::DELETE => Some(StateChangeView::Delete { key: p.address }),
        proto_receipt::StateChange_Type::TYPE_UNSET => None,
    }
}

/// The `StateChange` message that describes a state change.
pub open spec fn proto_of_state_change(c: StateChangeView) -> proto_receipt::StateChangeView {
    match c {
        StateChangeView::SetValue { key, value } => proto_receipt::StateChangeView {
            address: key,
            value: value,
            field_type: proto_receipt::StateChange_Type::SET,
        },
        StateChangeView::Delete { key } => proto_receipt::StateChangeView {
            address: key,
            value: Seq::empty(),
            field_type: proto_receipt::StateChange_Type::DELETE,
        },
    }
}

/// The state change that `bytes` encode as a `StateChange` message; none
/// when they encode no message or the message's type is unset.
pub open spec fn state_change_of_bytes(bytes: Seq<u8>) -> Option<StateChangeView> {
    match proto_receipt::decode_state_change(bytes) {
        Some(p) => state_change_of_proto(p),
        None => None,
    }
}

/// A copy of a byte string.
fn copy_bytes(v: &Vec<u8>) -> (r: Vec<u8>)
    ensures
        r@ == v@,
{
    let r = v.clone();
    assert(r@ =~= v@);
    r
}

/// The state change a `StateChange` message describes, built from copies of
/// its fields.
fn state_change_from_proto_ref(p: &proto_receipt::StateChange) -> (r: Result<StateChange, ProtoConversionError>)
    ensures
        r is Ok <==> state_change_of_proto(p@) is Some,
        r matches Ok(c) ==> state_change_of_proto(p@) == Some(c@),
        r matches Err(e) ==> (e matches ProtoConversionError::InvalidTypeError(m) && m@ == unset_type_message()),
{
    match p.field_type {
        proto_receipt::StateChange_Type::SET => Ok(
            StateChange::SetValue { key: p.address.clone(), value: copy_bytes(&p.value) },
        ),
        proto_receipt::StateChange_Type::DELETE => Ok(StateChange::Delete { key: p.address.clone() }),
        proto_receipt::StateChange_Type::TYPE_UNSET => Err(
            ProtoConversionError::InvalidTypeError(
                "Cannot convert StateChange with type unset. /\n                    StageChange type must be StateChange_Type::SET or StateChange_Type::DELETE.".to_owned(),
            ),
        ),
    }
}

/// The `StateChange` message describing a state change, built from copies
/// of its fields.
fn proto_from_state_change_ref(c: &StateChange) -> (r: proto_receipt::StateChange)
    ensures
        r@ == proto_of_state_change(c@),
{
    match c {
        StateChange::SetValue { key, value } => proto_receipt::StateChange {
            address: key.clone(),
            value: copy_bytes(value),
            field_type: proto_receipt::StateChange_Type::SET,
        },
        StateChange::Delete { key } => {
            let r = proto_receipt::StateChange {
                address: key.clone(),
                value: Vec::new(),
                field_type: proto_receipt::StateChange_Type::DELETE,
            };
            assert(r@.value =~= Seq::<u8>::empty());
            r
        },
    }
}

impl StateChange {
    /// Compares state changes based on the key, regardless of variant.
    pub fn has_key(&self, k: &str) -> (r: bool)
        ensures
            r == (key_of(self@) == k@),
    {
        match self {
            StateChange::SetValue { key, .. } => str_eq(key.as_str(), k),
            StateChange::Delete { key } => str_eq(key.as_str(), k),
        }
    }

    /// The text that describes this state change for debugging, such as
    /// `StateChange{ key: "abc", value: <4 bytes> }`.
    pub fn debug_string(&self) -> (r: String)
        ensures
            r@ == state_change_debug(self@),
    {
        match self {
            StateChange::SetValue { key, value } => {
                let mut out = String::new();
                out.append("StateChange{ ");
                out.append("key: ");
                let quoted = debug_quoted(key.as_str());
                out.append(quoted.as_str());
                out.append(", ");
                out.append("value: <");
                let len = decimal_string(value.len());
                out.append(len.as_str());
                out.append(" byte");
                let ghost before_suffix = out@;
                if value.len() != 1 {
                    out.append("s");
                }
                assert(value.len() == 1 ==> out@ =~= before_suffix + Seq::<char>::empty());
                out.append(">");
                out.append(" }");
                out
            },
            StateChange::Delete { key } => {
                let mut out = String::new();
                out.append("StateChange::Delete{ key: ");
                let quoted = debug_quoted(key.as_str());
                out.append(quoted.as_str());
                out.append(" })");
                out
            },
        }
    }

    /// The state change that a `StateChange` message describes; a message
    /// whose type is unset is refused.
    pub fn from_proto(state_change: proto_receipt::StateChange) -> (r: Result<StateChange, ProtoConversionError>)
        ensures
            r is Ok <==> state_change_of_proto(state_change@) is Some,
            r matches Ok(c) ==> state_change_of_proto(state_change@) == Some(c@),
            r matches Err(e) ==> (e matches ProtoConversionError::InvalidTypeError(m) && m@ == unset_type_message()),
    {
        state_change_from_proto_ref(&state_change)
    }

    /// The `StateChange` message that describes this state change.
    pub fn into_proto(self) -> (r: Result<proto_receipt::StateChange, ProtoConversionError>)
        ensures
            r matches Ok(p) && p@ == proto_of_state_change(self@),
    {
        proto_receipt::StateChange::from_native(self)
    }

    /// The state change that `bytes` encode as a `StateChange` message.
    /// Bytes that encode no message are refused with a serialization error,
    /// a message whose type is unset with an invalid type error.
    pub fn from_bytes(bytes: &[u8]) -> (r: Result<StateChange, ProtoConversionError>)
        ensures
            r is Ok <==> state_change_of_bytes(bytes@) is Some,
            r matches Ok(c) ==> state_change_of_bytes(bytes@) == Some(c@),
            proto_receipt::decode_state_change(bytes@) is None ==> (r matches Err(
                ProtoConversionError::SerializationError(m),
            ) && m@ == "Unable to get StateChange from bytes"@),
            proto_receipt::decode_state_change(bytes@) is Some ==> (r matches Err(e) ==> (e matches ProtoConversionError::InvalidTypeError(
                m,
            ) && m@ == unset_type_message())),
    {
        let proto = match proto_receipt::StateChange::parse_from_bytes(bytes) {
            Ok(p) => p,
            Err(_) => {
                return Err(
                    ProtoConversionError::SerializationError("Unable to get StateChange from bytes".to_owned()),
                );
            },
        };
        proto.into_native()
    }

    /// The bytes of the `StateChange` message that describes this state
    /// change. A message with a field too long for a protobuf length is
    /// refused with a serialization error.
    pub fn into_bytes(self) -> (r: Result<Vec<u8>, ProtoConversionError>)
        ensures
            r is Ok <==> proto_receipt::state_change_encodable(proto_of_state_change(self@)),
            r matches Ok(b) ==> b@ == proto_receipt::encode_state_change(proto_of_state_change(self@)),
            r matches Err(e) ==> (e matches ProtoConversionError::SerializationError(m) && m@
                == "Unable to get bytes from StateChanger"@),
    {
        let proto = match self.into_proto() {
            Ok(p) => p,
            Err(e) => return Err(e),
        };
        match proto.write_to_bytes() {
            Ok(bytes) => Ok(bytes),
            Err(_) => Err(ProtoConversionError::SerializationError("Unable to get bytes from StateChanger".to_owned())),
        }
    }
}

impl proto_receipt::StateChange {
    /// The `StateChange` message that describes a state change.
    pub fn from_native(state_change: StateChange) -> (r: Result<proto_receipt::StateChange, ProtoConversionError>)
        ensures
            r matches Ok(p) && p@ == proto_of_state_change(state_change@),
    {
        Ok(proto_from_state_change_ref(&state_change))
    }

    /// The state change that this message describes; a message whose type
    /// is unset is refused.
    pub fn into_native(self) -> (r: Result<StateChange, ProtoConversionError>)
        ensures
            r is Ok <==> state_change_of_proto(self@) is Some,
            r matches Ok(c) ==> state_change_of_proto(self@) == Some(c@),
            r matches Err(e) ==> (e matches ProtoConversionError::InvalidTypeError(m) && m@ == unset_type_message()),
    {
        StateChange::from_proto(self)
    }
}

/// The change to state that a receipt's state change records.
pub open spec fn to_state_change(c: StateChange) -> state::StateChange {
    match c {
        StateChange::SetValue { key, value } => state::StateChange::SetValue { key, value },
        StateChange::Delete { key } => state::StateChange::Delete { key },
    }
}

impl From<StateChange> for state::StateChange {
    /// Converts this module's state change into the state layer's.
    fn from(c: StateChange) -> (r: state::StateChange) {
        match c {
            StateChange::SetValue { key, value } => state::StateChange::SetValue { key, value },
            StateChange::Delete { key } => state::StateChange::Delete { key },
        }
    }
}

impl vstd::std_specs::convert::FromSpecImpl<StateChange> for state::StateChange {
    open spec fn obeys_from_spec() -> bool {
        true
    }

    open spec fn from_spec(v: StateChange) -> state::StateChange {
        to_state_change(v)
    }
}

// ---------------------------------------------------------------------------
// Event

/// An `Event` is metadata about a transaction's processing. Events are
/// transmitted but are not verified or saved to state.
#[derive(Debug, PartialEq, Eq, Hash)]
pub struct Event {
    /// A human readable string that identifies this event, determined by the
    /// client.
    pub event_type: String,
    /// Human readable information about the transaction.
    pub attributes: Vec<(String, String)>,
    /// Opaque data, about the transaction, that the client can deserialize.
    pub data: Vec<u8>,
}

/// The value of an [`Event`].
pub struct EventView {
    pub event_type: Seq<char>,
    pub attributes: Seq<(Seq<char>, Seq<char>)>,
    pub data: Seq<u8>,
}

/// The values of key/value pairs of strings.
pub open spec fn pair_views(v: Seq<(String, String)>) -> Seq<(Seq<char>, Seq<char>)> {
    v.map_values(|p: (String, String)| (p.0@, p.1@))
}

impl View for Event {
    type V = EventView;

    open spec fn view(&self) -> EventView {
        EventView { event_type: self.event_type@, attributes: pair_views(self.attributes@), data: self.data@ }
    }
}

/// The event that an `Event` message describes.
pub open spec fn event_of_proto(p: proto_events::EventView) -> EventView {
    EventView {
        event_type: p.event_type,
        attributes: p.attributes.map_values(|a: proto_events::AttributeView| (a.key, a.value)),
        data: p.data,
    }
}

/// The `Event` message that describes an event.
pub open spec fn proto_of_event(e: EventView) -> proto_events::EventView {
    proto_events::EventView {
        event_type: e.event_type,
        attributes: e.attributes.map_values(
            |a: (Seq<char>, Seq<char>)| proto_events::AttributeView { key: a.0, value: a.1 },
        ),
        data: e.data,
    }
}

/// The event that `bytes` encode as an `Event` message, if they encode one.
pub open spec fn event_of_bytes(bytes: Seq<u8>) -> Option<EventView> {
    match proto_events::decode_event(bytes, top_level_slack(bytes.len())) {
        Some(p) => Some(event_of_proto(p)),
        None => None,
    }
}

/// The event an `Event` message describes, built from copies of its fields.
fn event_from_proto_ref(p: &proto_events::Event) -> (r: Event)
    ensures
        r@ == event_of_proto(p@),
{
    let mut attributes: Vec<(String, String)> = Vec::new();
    let mut i: usize = 0;
    while i < p.attributes.len()
        invariant
            i <= p.attributes@.len(),
            pair_views(attributes@) =~= event_of_proto(p@).attributes.take(i as int),
        decreases p.attributes@.len() - i,
    {
        let a = &p.attributes[i];
        let ghost before = attributes@;
        attributes.push((a.key.clone(), a.value.clone()));
        assert(pair_views(attributes@) =~= pair_views(before).push((a.key@, a.value@)));
        assert(event_of_proto(p@).attributes.take(i + 1) =~= event_of_proto(p@).attributes.take(i as int).push(
            (a.key@, a.value@),
        ));
        i = i + 1;
    }
    let r = Event { event_type: p.event_type.clone(), attributes, data: copy_bytes(&p.data) };
    assert(event_of_proto(p@).attributes.take(i as int) =~= event_of_proto(p@).attributes);
    r
}

/// The `Event` message describing an event, built from copies of its fields.
fn proto_from_event_ref(e: &Event) -> (r: proto_events::Event)
    ensures
        r@ == proto_of_event(e@),
{
    let mut attributes: Vec<proto_events::Event_Attribute> = Vec::new();
    let mut i: usize = 0;
    while i < e.attributes.len()
        invariant
            i <= e.attributes@.len(),
            proto_events::attribute_views(attributes@) =~= proto_of_event(e@).attributes.take(i as int),
        decreases e.attributes@.len() - i,
    {
        let (key, value) = &e.attributes[i];
        let ghost before = attributes@;
        attributes.push(proto_events::Event_Attribute { key: key.clone(), value: value.clone() });
        assert(proto_events::attribute_views(attributes@) =~= proto_events::attribute_views(before).push(
            proto_events::AttributeView { key: key@, value: value@ },
        ));
        assert(proto_of_event(e@).attributes.take(i + 1) =~= proto_of_event(e@).attributes.take(i as int).push(
            proto_events::AttributeView { key: key@, value: value@ },
        ));
        i = i + 1;
    }
    let r = proto_events::Event { event_type: e.event_type.clone(), attributes, data: copy_bytes(&e.data) };
    assert(proto_of_event(e@).attributes.take(i as int) =~= proto_of_event(e@).attributes);
    r
}

impl Event {
    /// The event that an `Event` message describes.
    pub fn from_proto(event: proto_events::Event) -> (r: Result<Event, ProtoConversionError>)
        ensures
            r matches Ok(e) && e@ == event_of_proto(event@),
    {
        Ok(event_from_proto_ref(&event))
    }

    /// The `Event` message that describes this event.
    pub fn into_proto(self) -> (r: Result<proto_events::Event, ProtoConversionError>)
        ensures
            r matches Ok(p) && p@ == proto_of_event(self@),
    {
        proto_events::Event::from_native(self)
    }

    /// The event that `bytes` encode as an `Event` message. Bytes that encode
    /// no message are refused with a serialization error.
    pub fn from_bytes(bytes: &[u8]) -> (r: Result<Event, ProtoConversionError>)
        ensures
            r is Ok <==> event_of_bytes(bytes@) is Some,
            r matches Ok(e) ==> event_of_bytes(bytes@) == Some(e@),
            r matches Err(e) ==> (e matches ProtoConversionError::SerializationError(m) && m@
                == "Unable to get TransactionReceipt from bytes"@),
    {
        let proto = match proto_events::Event::parse_from_bytes(bytes) {
            Ok(p) => p,
            Err(_) => {
                return Err(
                    ProtoConversionError::SerializationError("Unable to get TransactionReceipt from bytes".to_owned()),
                );
            },
        };
        proto.into_native()
    }

    /// The bytes of the `Event` message that describes this event. A message
    /// with a field too long for a protobuf length is refused with a
    /// serialization error.
    pub fn into_bytes(self) -> (r: Result<Vec<u8>, ProtoConversionError>)
        ensures
            r is Ok <==> proto_events::event_encodable(proto_of_event(self@)),
            r matches Ok(b) ==> b@ == proto_events::encode_event(proto_of_event(self@)),
            r matches Err(e) ==> (e matches ProtoConversionError::SerializationError(m) && m@
                == "Unable to get bytes from Event"@),
    {
        let proto = match self.into_proto() {
            Ok(p) => p,
            Err(e) => return Err(e),
        };
        match proto.write_to_bytes() {
            Ok(bytes) => Ok(bytes),
            Err(_) => Err(ProtoConversionError::SerializationError("Unable to get bytes from Event".to_owned())),
        }
    }
}

impl proto_events::Event {
    /// The `Event` message that describes an event.
    pub fn from_native(event: Event) -> (r: Result<proto_events::Event, ProtoConversionError>)
        ensures
            r matches Ok(p) && p@ == proto_of_event(event@),
    {
        Ok(proto_from_event_ref(&event))
    }

    /// The event that this message describes.
    pub fn into_native(self) -> (r: Result<Event, ProtoConversionError>)
        ensures
            r matches Ok(e) && e@ == event_of_proto(self@),
    {
        Event::from_proto(self)
    }
}

// ---------------------------------------------------------------------------
// TransactionReceipt

/// A `TransactionReceipt` has the state changes associated with a valid
/// transaction.
#[derive(Debug, PartialEq, Eq, Hash)]
pub struct TransactionReceipt {
    /// Updates to state that were generated by the transaction.
    pub state_changes: Vec<StateChange>,
    /// Events fired by this transaction.
    pub events: Vec<Event>,
    /// Transaction family defined data.
    pub data: Vec<Vec<u8>>,
    pub transaction_id: String,
}

/// The value of a [`TransactionReceipt`].
pub struct TransactionReceiptView {
    pub state_changes: Seq<StateChangeView>,
    pub events: Seq<EventView>,
    pub data: Seq<Seq<u8>>,
    pub transaction_id: Seq<char>,
}

/// The values of a sequence of state changes.
pub open spec fn state_change_views(v: Seq<StateChange>) -> Seq<StateChangeView> {
    v.map_values(|c: StateChange| c@)
}

/// The values of a sequence of events.
pub open spec fn event_views(v: Seq<Event>) -> Seq<EventView> {
    v.map_values(|e: Event| e@)
}

impl View for TransactionReceipt {
    type V = TransactionReceiptView;

    open spec fn view(&self) -> TransactionReceiptView {
        TransactionReceiptView {
            state_changes: state_change_views(self.state_changes@),
            events: event_views(self.events@),
            data: proto_receipt::bytes_views(self.data@),
            transaction_id: self.transaction_id@,
        }
    }
}

/// Whether every state change message of `v` has a type.
pub open spec fn state_changes_typed(v: Seq<proto_receipt::StateChangeView>) -> bool {
    forall|i: int| 0 <= i < v.len() ==> (#[trigger] state_change_of_proto(v[i])) is Some
}

/// The receipt that a `TransactionReceipt` message describes; none when one
/// of its state changes has its type unset.
pub open spec fn receipt_of_proto(p: proto_receipt::TransactionReceiptView) -> Option<TransactionReceiptView> {
    if state_changes_typed(p.state_changes) {
        Some(
            TransactionReceiptView {
                state_changes: p.state_changes.map_values(
                    |c: proto_receipt::StateChangeView| state_change_of_proto(c).unwrap(),
                ),
                events: p.events.map_values(|e: proto_events::EventView| event_of_proto(e)),
                data: p.data,
                transaction_id: p.transaction_id,
            },
        )
    } else {
        None
    }
}

/// The `TransactionReceipt` message that describes a receipt.
pub open spec fn proto_of_receipt(r: TransactionReceiptView) -> proto_receipt::TransactionReceiptView {
    proto_receipt::TransactionReceiptView {
        state_changes: r.state_changes.map_values(|c: StateChangeView| proto_of_state_change(c)),
        events: r.events.map_values(|e: EventView| proto_of_event(e)),
        data: r.data,
        transaction_id: r.transaction_id,
    }
}

/// The receipt that `bytes` encode as a `TransactionReceipt` message; none
/// when they encode no message or one of its state changes has its type
/// unset.
pub open spec fn receipt_of_bytes(bytes: Seq<u8>) -> Option<TransactionReceiptView> {
    match proto_receipt::decode_receipt(bytes, top_level_slack(bytes.len())) {
        Some(p) => receipt_of_proto(p),
        None => None,
    }
}

impl TransactionReceipt {
    /// The receipt that a `TransactionReceipt` message describes; a message
    /// with a state change whose type is unset is refused.
    pub fn from_proto(transaction_receipt: proto_receipt::TransactionReceipt) -> (r: Result<TransactionReceipt, ProtoConversionError>)
        ensures
            r is Ok <==> receipt_of_proto(transaction_receipt@) is Some,
            r matches Ok(t) ==> receipt_of_proto(transaction_receipt@) == Some(t@),
            r matches Err(e) ==> (e matches ProtoConversionError::InvalidTypeError(m) && m@ == unset_type_message()),
    {
        let ghost p = transaction_receipt@;
        let ghost target = p.state_changes.map_values(
            |c: proto_receipt::StateChangeView| state_change_of_proto(c).unwrap(),
        );
        let mut state_changes: Vec<StateChange> = Vec::new();
        let mut i: usize = 0;
        while i < transaction_receipt.state_changes.len()
            invariant
                p == transaction_receipt@,
                target == p.state_changes.map_values(
                    |c: proto_receipt::StateChangeView| state_change_of_proto(c).unwrap(),
                ),
                i <= p.state_changes.len(),
                state_changes_typed(p.state_changes.take(i as int)),
                state_change_views(state_changes@) =~= target.take(i as int),
            decreases p.state_changes.len() - i,
        {
            let ghost before = state_changes@;
            assert(p.state_changes[i as int] == transaction_receipt.state_changes@[i as int]@);
            match state_change_from_proto_ref(&transaction_receipt.state_changes[i]) {
                Ok(c) => {
                    state_changes.push(c);
                    assert(state_change_views(state_changes@) =~= state_change_views(before).push(c@));
                    assert(target[i as int] == c@);
                    assert(target.take(i + 1) =~= target.take(i as int).push(c@));
                    assert(state_changes_typed(p.state_changes.take(i + 1))) by {
                        assert forall|j: int| 0 <= j < i + 1 implies (#[trigger] state_change_of_proto(
                            p.state_changes.take(i + 1)[j],
                        )) is Some by {
                            if j < i {
                                assert(p.state_changes.take(i + 1)[j] == p.state_changes.take(i as int)[j]);
                            }
                        }
                    }
                },
                Err(e) => {
                    assert(!state_changes_typed(p.state_changes));
                    return Err(e);
                },
            }
            i = i + 1;
        }
        assert(p.state_changes.take(i as int) =~= p.state_changes);
        assert(target.take(i as int) =~= target);
        let ghost event_target = p.events.map_values(|e: proto_events::EventView| event_of_proto(e));
        let mut events: Vec<Event> = Vec::new();
        let mut k: usize = 0;
        while k < transaction_receipt.events.len()
            invariant
                p == transaction_receipt@,
                event_target == p.events.map_values(|e: proto_events::EventView| event_of_proto(e)),
                k <= p.events.len(),
                event_views(events@) =~= event_target.take(k as int),
            decreases p.events.len() - k,
        {
            let ghost before = events@;
            assert(p.events[k as int] == transaction_receipt.events@[k as int]@);
            let e = event_from_proto_ref(&transaction_receipt.events[k]);
            events.push(e);
            assert(event_views(events@) =~= event_views(before).push(e@));
            assert(event_target[k as int] == e@);
            assert(event_target.take(k + 1) =~= event_target.take(k as int).push(e@));
            k = k + 1;
        }
        assert(event_target.take(k as int) =~= event_target);
        Ok(
            TransactionReceipt {
                state_changes,
                events,
                data: transaction_receipt.data,
                transaction_id: transaction_receipt.transaction_id,
            },
        )
    }

    /// The `TransactionReceipt` message that describes this receipt.
    pub fn into_proto(self) -> (r: Result<proto_receipt::TransactionReceipt, ProtoConversionError>)
        ensures
            r matches Ok(p) && p@ == proto_of_receipt(self@),
    {
        proto_receipt::TransactionReceipt::from_native(self)
    }

    /// The receipt that `bytes` encode as a `TransactionReceipt` message.
    /// Bytes that encode no message are refused with a serialization error, a
    /// message with a state change whose type is unset with an invalid type
    /// error.
    pub fn from_bytes(bytes: &[u8]) -> (r: Result<TransactionReceipt, ProtoConversionError>)
        ensures
            r is Ok <==> receipt_of_bytes(bytes@) is Some,
            r matches Ok(t) ==> receipt_of_bytes(bytes@) == Some(t@),
            proto_receipt::decode_receipt(bytes@, top_level_slack(bytes@.len())) is None ==> (r matches Err(
                ProtoConversionError::SerializationError(m),
            ) && m@ == "Unable to get TransactionReceipt from bytes"@),
            proto_receipt::decode_receipt(bytes@, top_level_slack(bytes@.len())) is Some ==> (r matches Err(e) ==> (
            e matches ProtoConversionError::InvalidTypeError(m) && m@ == unset_type_message())),
    {
        let proto = match proto_receipt::TransactionReceipt::parse_from_bytes(bytes) {
            Ok(p) => p,
            Err(_) => {
                return Err(
                    ProtoConversionError::SerializationError("Unable to get TransactionReceipt from bytes".to_owned()),
                );
            },
        };
        proto.into_native()
    }

    /// The bytes of the `TransactionReceipt` message that describes this
    /// receipt. A message with a field too long for a protobuf length is
    /// refused with a serialization error.
    pub fn into_bytes(self) -> (r: Result<Vec<u8>, ProtoConversionError>)
        ensures
            r is Ok <==> proto_receipt::receipt_encodable(proto_of_receipt(self@)),
            r matches Ok(b) ==> b@ == proto_receipt::encode_receipt(proto_of_receipt(self@)),
            r matches Err(e) ==> (e matches ProtoConversionError::SerializationError(m) && m@
                == "Unable to get bytes from TransactionReceipt"@),
    {
        let proto = match self.into_proto() {
            Ok(p) => p,
            Err(e) => return Err(e),
        };
        match proto.write_to_bytes() {
            Ok(bytes) => Ok(bytes),
            Err(_) => Err(
                ProtoConversionError::SerializationError("Unable to get bytes from TransactionReceipt".to_owned()),
            ),
        }
    }
}

impl proto_receipt::TransactionReceipt {
    /// The `TransactionReceipt` message that describes a receipt.
    pub fn from_native(transaction_receipt: TransactionReceipt) -> (r: Result<proto_receipt::TransactionReceipt, ProtoConversionError>)
        ensures
            r matches Ok(p) && p@ == proto_of_receipt(transaction_receipt@),
    {
        let ghost n = transaction_receipt@;
        let ghost target = proto_of_receipt(n);
        let mut state_changes: Vec<proto_receipt::StateChange> = Vec::new();
        let mut i: usize = 0;
        while i < transaction_receipt.state_changes.len()
            invariant
                n == transaction_receipt@,
                target == proto_of_receipt(n),
                i <= n.state_changes.len(),
                proto_receipt::state_change_views(state_changes@) =~= target.state_changes.take(i as int),
            decreases n.state_changes.len() - i,
        {
            let ghost before = state_changes@;
            assert(n.state_changes[i as int] == transaction_receipt.state_changes@[i as int]@);
            let c = proto_from_state_change_ref(&transaction_receipt.state_changes[i]);
            state_changes.push(c);
            assert(proto_receipt::state_change_views(state_changes@) =~= proto_receipt::state_change_views(
                before,
            ).push(c@));
            assert(target.state_changes[i as int] == c@);
            assert(target.state_changes.take(i + 1) =~= target.state_changes.take(i as int).push(c@));
            i = i + 1;
        }
        assert(target.state_changes.take(i as int) =~= target.state_changes);
        let mut events: Vec<proto_events::Event> = Vec::new();
        let mut k: usize = 0;
        while k < transaction_receipt.events.len()
            invariant
                n == transaction_receipt@,
                target == proto_of_receipt(n),
                k <= n.events.len(),
                proto_receipt::event_views(events@) =~= target.events.take(k as int),
            decreases n.events.len() - k,
        {
            let ghost before = events@;
            assert(n.events[k as int] == transaction_receipt.events@[k as int]@);
            let e = proto_from_event_ref(&transaction_receipt.events[k]);
            events.push(e);
            assert(proto_receipt::event_views(events@) =~= proto_receipt::event_views(before).push(e@));
            assert(target.events[k as int] == e@);
            assert(target.events.take(k + 1) =~= target.events.take(k as int).push(e@));
            k = k + 1;
        }
        assert(target.events.take(k as int) =~= target.events);
        Ok(
            proto_receipt::TransactionReceipt {
                state_changes,
                events,
                data: transaction_receipt.data,
                transaction_id: transaction_receipt.transaction_id,
            },
        )
    }

    /// The receipt that this message describes; a message with a state
    /// change whose type is unset is refused.
    pub fn into_native(self) -> (r: Result<TransactionReceipt, ProtoConversionError>)
        ensures
            r is Ok <==> receipt_of_proto(self@) is Some,
            r matches Ok(t) ==> receipt_of_proto(self@) == Some(t@),
            r matches Err(e) ==> (e matches ProtoConversionError::InvalidTypeError(m) && m@ == unset_type_message()),
    {
        TransactionReceipt::from_proto(self)
    }
}

// ---------------------------------------------------------------------------
// Builders

/// Why an [`Event`] could not be built.
#[derive(Debug)]
pub enum EventBuilderError {
    MissingField(String),
}

impl EventBuilderError {
    /// The message of the error.
    pub fn description(&self) -> (r: &str)
        ensures
            self matches EventBuilderError::MissingField(m) && r@ == m@,
    {
        match self {
            EventBuilderError::MissingField(msg) => msg.as_str(),
        }
    }

    /// The text of the error: its kind, then its message.
    pub fn to_string(&self) -> (r: String)
        ensures
            self matches EventBuilderError::MissingField(m) && r@ == "MissingField: "@ + m@,
    {
        match self {
            EventBuilderError::MissingField(msg) => {
                let mut out = String::new();
                out.append("MissingField: ");
                out.append(msg.as_str());
                out
            },
        }
    }
}

/// Builds an [`Event`]; its event type is required.
pub struct EventBuilder {
    pub event_type: Option<String>,
    pub attributes: Vec<(String, String)>,
    pub data: Vec<u8>,
}

/// The value of an optional string.
pub open spec fn opt_string_view(s: Option<String>) -> Option<Seq<char>> {
    match s {
        Some(t) => Some(t@),
        None => None,
    }
}

/// The value of an [`EventBuilder`]: what each field holds so far.
pub struct EventBuilderView {
    pub event_type: Option<Seq<char>>,
    pub attributes: Seq<(Seq<char>, Seq<char>)>,
    pub data: Seq<u8>,
}

impl View for EventBuilder {
    type V = EventBuilderView;

    open spec fn view(&self) -> EventBuilderView {
        EventBuilderView {
            event_type: opt_string_view(self.event_type),
            attributes: pair_views(self.attributes@),
            data: self.data@,
        }
    }
}

/// A copy of an optional string.
fn copy_opt_string(s: &Option<String>) -> (r: Option<String>)
    ensures
        opt_string_view(r) == opt_string_view(*s),
{
    match s {
        Some(t) => Some(t.clone()),
        None => None,
    }
}

impl Clone for EventBuilder {
    /// A copy of the builder: the same event type, attributes and data.
    fn clone(&self) -> (r: EventBuilder)
        ensures
            r@ == self@,
    {
        EventBuilder {
            event_type: copy_opt_string(&self.event_type),
            attributes: copy_pairs(&self.attributes),
            data: copy_bytes(&self.data),
        }
    }
}

impl Default for EventBuilder {
    fn default() -> (r: EventBuilder)
        ensures
            r.event_type is None,
            r.attributes@.len() == 0,
            r.data@.len() == 0,
    {
        EventBuilder { event_type: None, attributes: Vec::new(), data: Vec::new() }
    }
}

impl EventBuilder {
    /// A builder with no event type, no attributes and no data.
    pub fn new() -> (r: EventBuilder)
        ensures
            r.event_type is None,
            r.attributes@.len() == 0,
            r.data@.len() == 0,
    {
        EventBuilder::default()
    }

    /// Sets the event type, leaving the rest unchanged.
    pub fn with_event_type(self, event_type: String) -> (r: EventBuilder)
        ensures
            r == event_builder_with_event_type(self, event_type),
    {
        EventBuilder { event_type: Some(event_type), attributes: self.attributes, data: self.data }
    }

    /// Sets the attributes, leaving the rest unchanged.
    pub fn with_attributes(self, attributes: Vec<(String, String)>) -> (r: EventBuilder)
        ensures
            r == event_builder_with_attributes(self, attributes),
    {
        EventBuilder { event_type: self.event_type, attributes, data: self.data }
    }

    /// Sets the data, leaving the rest unchanged.
    pub fn with_data(self, data: Vec<u8>) -> (r: EventBuilder)
        ensures
            r == event_builder_with_data(self, data),
    {
        EventBuilder { event_type: self.event_type, attributes: self.attributes, data }
    }

    /// The event with the builder's fields; refused when no event type was
    /// set.
    pub fn build(self) -> (r: Result<Event, EventBuilderError>)
        ensures
            r is Ok <==> self.event_type is Some,
            r matches Ok(e) ==> built_event(self) == Some(e),
            r matches Err(e) ==> (e matches EventBuilderError::MissingField(m) && m@
                == "'event_type' field is required"@),
    {
        let event_type = match self.event_type {
            Some(t) => t,
            None => {
                return Err(EventBuilderError::MissingField("'event_type' field is required".to_owned()));
            },
        };
        Ok(Event { event_type, attributes: self.attributes, data: self.data })
    }
}

/// Why a [`TransactionReceipt`] could not be built.
#[derive(Debug)]
pub enum TransactionReceiptBuilderError {
    MissingField(String),
}

impl TransactionReceiptBuilderError {
    /// The message of the error.
    pub fn description(&self) -> (r: &str)
        ensures
            self matches TransactionReceiptBuilderError::MissingField(m) && r@ == m@,
    {
        match self {
            TransactionReceiptBuilderError::MissingField(msg) => msg.as_str(),
        }
    }

    /// The text of the error: its kind, then its message.
    pub fn to_string(&self) -> (r: String)
        ensures
            self matches TransactionReceiptBuilderError::MissingField(m) && r@ == "MissingField: "@ + m@,
    {
        match self {
            TransactionReceiptBuilderError::MissingField(msg) => {
                let mut out = String::new();
                out.append("MissingField: ");
                out.append(msg.as_str());
                out
            },
        }
    }
}

/// Builds a [`TransactionReceipt`]; its transaction id is required.
pub struct TransactionReceiptBuilder {
    pub state_changes: Vec<StateChange>,
    pub events: Vec<Event>,
    pub data: Vec<Vec<u8>>,
    pub transaction_id: Option<String>,
}

/// The value of a [`TransactionReceiptBuilder`]: what each field holds so
/// far.
pub struct TransactionReceiptBuilderView {
    pub state_changes: Seq<StateChangeView>,
    pub events: Seq<EventView>,
    pub data: Seq<Seq<u8>>,
    pub transaction_id: Option<Seq<char>>,
}

impl View for TransactionReceiptBuilder {
    type V = TransactionReceiptBuilderView;

    open spec fn view(&self) -> TransactionReceiptBuilderView {
        TransactionReceiptBuilderView {
            state_changes: state_change_views(self.state_changes@),
            events: event_views(self.events@),
            data: proto_receipt::bytes_views(self.data@),
            transaction_id: opt_string_view(self.transaction_id),
        }
    }
}

impl Clone for TransactionReceiptBuilder {
    /// A copy of the builder: the same state changes, events, data and
    /// transaction id.
    fn clone(&self) -> (r: TransactionReceiptBuilder)
        ensures
            r@ == self@,
    {
        TransactionReceiptBuilder {
            state_changes: copy_state_changes(&self.state_changes),
            events: copy_events(&self.events),
            data: copy_bytes_list(&self.data),
            transaction_id: copy_opt_string(&self.transaction_id),
        }
    }
}

impl Default for TransactionReceiptBuilder {
    fn default() -> (r: TransactionReceiptBuilder)
        ensures
            r.state_changes@.len() == 0,
            r.events@.len() == 0,
            r.data@.len() == 0,
            r.transaction_id is None,
    {
        TransactionReceiptBuilder { state_changes: Vec::new(), events: Vec::new(), data: Vec::new(), transaction_id: None }
    }
}

impl TransactionReceiptBuilder {
    /// A builder with no state changes, events or data, and no transaction
    /// id.
    pub fn new() -> (r: TransactionReceiptBuilder)
        ensures
            r.state_changes@.len() == 0,
            r.events@.len() == 0,
            r.data@.len() == 0,
            r.transaction_id is None,
    {
        TransactionReceiptBuilder::default()
    }

    /// Sets the state changes, leaving the rest unchanged.
    pub fn with_state_changes(self, state_changes: Vec<StateChange>) -> (r: TransactionReceiptBuilder)
        ensures
            r == receipt_builder_with_state_changes(self, state_changes),
    {
        TransactionReceiptBuilder {
            state_changes,
            events: self.events,
            data: self.data,
            transaction_id: self.transaction_id,
        }
    }

    /// Sets the events, leaving the rest unchanged.
    pub fn with_events(self, events: Vec<Event>) -> (r: TransactionReceiptBuilder)
        ensures
            r == receipt_builder_with_events(self, events),
    {
        TransactionReceiptBuilder {
            state_changes: self.state_changes,
            events,
            data: self.data,
            transaction_id: self.transaction_id,
        }
    }

    /// Sets the data, leaving the rest unchanged.
    pub fn with_data(self, data: Vec<Vec<u8>>) -> (r: TransactionReceiptBuilder)
        ensures
            r == receipt_builder_with_data(self, data),
    {
        TransactionReceiptBuilder {
            state_changes: self.state_changes,
            events: self.events,
            data,
            transaction_id: self.transaction_id,
        }
    }

    /// Sets the transaction id, leaving the rest unchanged.
    pub fn with_transaction_id(self, transaction_id: String) -> (r: TransactionReceiptBuilder)
        ensures
            r == receipt_builder_with_transaction_id(self, transaction_id),
    {
        TransactionReceiptBuilder {
            state_changes: self.state_changes,
            events: self.events,
            data: self.data,
            transaction_id: Some(transaction_id),
        }
    }

    /// The receipt with the builder's fields; refused when no transaction id
    /// was set.
    pub fn build(self) -> (r: Result<TransactionReceipt, TransactionReceiptBuilderError>)
        ensures
            r is Ok <==> self.transaction_id is Some,
            r matches Ok(t) ==> built_receipt(self) == Some(t),
            r matches Err(e) ==> (e matches TransactionReceiptBuilderError::MissingField(m) && m@
                == "'transaction_id' field is required"@),
    {
        let transaction_id = match self.transaction_id {
            Some(t) => t,
            None => {
                return Err(
                    TransactionReceiptBuilderError::MissingField("'transaction_id' field is required".to_owned()),
                );
            },
        };
        Ok(
            TransactionReceipt {
                state_changes: self.state_changes,
                events: self.events,
                data: self.data,
                transaction_id,
            },
        )
    }
}

// ---------------------------------------------------------------------------
// Laws

/// Converting a state change into its protobuf message and back gives the
/// state change.
pub proof fn lemma_state_change_proto_roundtrip(c: StateChangeView)
    ensures
        state_change_of_proto(proto_of_state_change(c)) == Some(c),
{
}

/// Converting an event into its protobuf message and back gives the event.
pub proof fn lemma_event_proto_roundtrip(e: EventView)
    ensures
        event_of_proto(proto_of_event(e)) == e,
{
    assert(event_of_proto(proto_of_event(e)).attributes =~= e.attributes);
}

/// Converting a receipt into its protobuf message and back gives the
/// receipt.
pub proof fn lemma_receipt_proto_roundtrip(r: TransactionReceiptView)
    ensures
        receipt_of_proto(proto_of_receipt(r)) == Some(r),
{
    let p = proto_of_receipt(r);
    assert(state_changes_typed(p.state_changes)) by {
        assert forall|i: int| 0 <= i < p.state_changes.len() implies (#[trigger] state_change_of_proto(
            p.state_changes[i],
        )) is Some by {
            lemma_state_change_proto_roundtrip(r.state_changes[i]);
        }
    }
    let back = receipt_of_proto(p).unwrap();
    assert(back.state_changes =~= r.state_changes) by {
        assert forall|i: int| 0 <= i < r.state_changes.len() implies back.state_changes[i] == r.state_changes[i] by {
            lemma_state_change_proto_roundtrip(r.state_changes[i]);
        }
    }
    assert(back.events =~= r.events) by {
        assert forall|i: int| 0 <= i < r.events.len() implies back.events[i] == r.events[i] by {
            lemma_event_proto_roundtrip(r.events[i]);
        }
    }
}

/// Reading back the bytes that `into_bytes` writes for a state change gives
/// the state change, as `from_bytes` reads it.
pub proof fn lemma_state_change_bytes_roundtrip(c: StateChangeView)
    requires
        proto_receipt::state_change_encodable(proto_of_state_change(c)),
    ensures
        state_change_of_bytes(proto_receipt::encode_state_change(proto_of_state_change(c))) == Some(c),
{
    proto_receipt::lemma_state_change_roundtrip(proto_of_state_change(c));
    lemma_state_change_proto_roundtrip(c);
}

/// Reading back the bytes that `into_bytes` writes for an event gives the
/// event, as `from_bytes` reads it.
pub proof fn lemma_event_bytes_roundtrip(e: EventView)
    requires
        proto_events::event_encodable(proto_of_event(e)),
    ensures
        event_of_bytes(proto_events::encode_event(proto_of_event(e))) == Some(e),
{
    let b = proto_events::encode_event(proto_of_event(e));
    proto_events::lemma_event_roundtrip(proto_of_event(e), top_level_slack(b.len()));
    lemma_event_proto_roundtrip(e);
}

/// Reading back the bytes that `into_bytes` writes for a receipt gives the
/// receipt, as `from_bytes` reads it.
pub proof fn lemma_receipt_bytes_roundtrip(r: TransactionReceiptView)
    requires
        proto_receipt::receipt_encodable(proto_of_receipt(r)),
    ensures
        receipt_of_bytes(proto_receipt::encode_receipt(proto_of_receipt(r))) == Some(r),
{
    let b = proto_receipt::encode_receipt(proto_of_receipt(r));
    proto_receipt::lemma_receipt_roundtrip(proto_of_receipt(r), top_level_slack(b.len()));
    lemma_receipt_proto_roundtrip(r);
}

/// Converting a receipt's state change into the state layer's keeps the
/// change: the same key, and for a set the same value.
pub proof fn lemma_state_conversion_keeps_change(c: StateChange)
    ensures
        to_state_change(c)@ == c@,
{
}

/// A state change's message holds its key as the address and, for a set,
/// its value, with the type that names its variant; a typed message
/// describes the state change of its address (and, for a set, its value),
/// and a message with its type unset describes none.
pub proof fn lemma_state_change_message_fields(c: StateChangeView, p: proto_receipt::StateChangeView)
    ensures
        c matches StateChangeView::SetValue { key, value } ==> proto_of_state_change(c).address == key
            && proto_of_state_change(c).value == value && proto_of_state_change(c).field_type
            == proto_receipt::StateChange_Type::SET,
        c matches StateChangeView::Delete { key } ==> proto_of_state_change(c).address == key
            && proto_of_state_change(c).value.len() == 0 && proto_of_state_change(c).field_type
            == proto_receipt::StateChange_Type::DELETE,
        p.field_type == proto_receipt::StateChange_Type::SET ==> state_change_of_proto(p) == Some(
            StateChangeView::SetValue { key: p.address, value: p.value },
        ),
        p.field_type == proto_receipt::StateChange_Type::DELETE ==> state_change_of_proto(p) == Some(
            StateChangeView::Delete { key: p.address },
        ),
        p.field_type == proto_receipt::StateChange_Type::TYPE_UNSET ==> state_change_of_proto(p) is None,
{
}

/// A state change message can be written exactly when its address, as
/// UTF-8, and its value each fit a protobuf length (at most `u32::MAX`
/// bytes); so a state change of any such key and value can be written.
pub proof fn lemma_state_change_writable(c: StateChangeView, m: proto_receipt::StateChangeView)
    ensures
        proto_receipt::state_change_encodable(m) <==> (vstd::utf8::encode_utf8(m.address).len() <= u32::MAX
            && m.value.len() <= u32::MAX),
        (c matches StateChangeView::SetValue { key, value } && vstd::utf8::encode_utf8(key).len() <= u32::MAX
            && value.len() <= u32::MAX) ==> proto_receipt::state_change_encodable(proto_of_state_change(c)),
        (c matches StateChangeView::Delete { key } && vstd::utf8::encode_utf8(key).len() <= u32::MAX)
            ==> proto_receipt::state_change_encodable(proto_of_state_change(c)),
{
}

/// A bound on the bytes that key/value pairs take as `Event.Attribute`
/// messages: the UTF-8 of each key and value, and 18 bytes for each pair's
/// tags and lengths.
pub open spec fn pairs_size(a: Seq<(Seq<char>, Seq<char>)>) -> nat
    decreases a.len(),
{
    if a.len() == 0 {
        0
    } else {
        pairs_size(a.drop_last()) + vstd::utf8::encode_utf8(a.last().0).len() + vstd::utf8::encode_utf8(
            a.last().1,
        ).len() + 18
    }
}

/// A bound on the bytes that an event's message takes: the UTF-8 of its
/// type, its data, the size of its attributes, and 12 bytes for the tags
/// and lengths of its type and data.
pub open spec fn event_view_size(e: EventView) -> nat {
    vstd::utf8::encode_utf8(e.event_type).len() + pairs_size(e.attributes) + e.data.len() + 12
}

/// A bound on the bytes that a state change's message takes: the UTF-8 of
/// its key, its value (for a set), and 14 bytes for tags, lengths and type.
pub open spec fn state_change_view_size(c: StateChangeView) -> nat {
    match c {
        StateChangeView::SetValue { key, value } => vstd::utf8::encode_utf8(key).len() + value.len() + 14,
        StateChangeView::Delete { key } => vstd::utf8::encode_utf8(key).len() + 14,
    }
}

/// The size of pairs is the size of their attribute messages.
proof fn lemma_pairs_size(a: Seq<(Seq<char>, Seq<char>)>)
    ensures
        proto_events::attributes_size(
            a.map_values(|p: (Seq<char>, Seq<char>)| proto_events::AttributeView { key: p.0, value: p.1 }),
        ) == pairs_size(a),
    decreases a.len(),
{
    let m = a.map_values(|p: (Seq<char>, Seq<char>)| proto_events::AttributeView { key: p.0, value: p.1 });
    if a.len() > 0 {
        lemma_pairs_size(a.drop_last());
        assert(m.drop_last() =~= a.drop_last().map_values(
            |p: (Seq<char>, Seq<char>)| proto_events::AttributeView { key: p.0, value: p.1 },
        ));
    }
}

/// An event whose size fits a protobuf length can be written to bytes: its
/// `into_proto` and `into_bytes` succeed.
pub proof fn lemma_event_writable(e: EventView)
    requires
        event_view_size(e) <= u32::MAX,
    ensures
        proto_events::event_encodable(proto_of_event(e)),
{
    lemma_pairs_size(e.attributes);
    proto_events::lemma_event_size(proto_of_event(e));
}

/// A receipt can be written to bytes when each of its state changes and
/// events fits, with its framing, in a protobuf length, and each byte string
/// and its transaction id (as UTF-8) fit a protobuf length.
pub proof fn lemma_receipt_writable(r: TransactionReceiptView)
    requires
        forall|i: int| 0 <= i < r.state_changes.len() ==> state_change_view_size(#[trigger] r.state_changes[i]) <= u32::MAX,
        forall|i: int| 0 <= i < r.events.len() ==> event_view_size(#[trigger] r.events[i]) <= u32::MAX,
        forall|i: int| 0 <= i < r.data.len() ==> (#[trigger] r.data[i]).len() <= u32::MAX,
        vstd::utf8::encode_utf8(r.transaction_id).len() <= u32::MAX,
    ensures
        proto_receipt::receipt_encodable(proto_of_receipt(r)),
{
    let m = proto_of_receipt(r);
    assert forall|i: int| 0 <= i < m.state_changes.len() implies crate::protos::sizes::state_change_size(
        #[trigger] m.state_changes[i],
    ) <= u32::MAX by {
        assert(state_change_view_size(r.state_changes[i]) <= u32::MAX);
    }
    assert forall|i: int| 0 <= i < m.events.len() implies proto_events::event_size(#[trigger] m.events[i])
        <= u32::MAX by {
        assert(event_view_size(r.events[i]) <= u32::MAX);
        lemma_pairs_size(r.events[i].attributes);
    }
    crate::protos::sizes::lemma_receipt_writable(m);
}

/// An event's message holds the event's type and data, and its attributes
/// in the event's order, the i-th as the message of the i-th key and value;
/// the event a message describes holds the message's type and data, and its
/// attributes in the message's order, the i-th as the i-th key and value.
pub proof fn lemma_event_message_keeps_attribute_order(e: EventView, p: proto_events::EventView)
    ensures
        proto_of_event(e).event_type == e.event_type,
        proto_of_event(e).data == e.data,
        proto_of_event(e).attributes.len() == e.attributes.len(),
        forall|i: int|
            0 <= i < e.attributes.len() ==> (#[trigger] proto_of_event(e).attributes[i]).key == e.attributes[i].0
                && proto_of_event(e).attributes[i].value == e.attributes[i].1,
        event_of_proto(p).event_type == p.event_type,
        event_of_proto(p).data == p.data,
        event_of_proto(p).attributes.len() == p.attributes.len(),
        forall|i: int|
            0 <= i < p.attributes.len() ==> (#[trigger] event_of_proto(p).attributes[i]) == (
            p.attributes[i].key,
            p.attributes[i].value,
            ),
{
}

/// A receipt's message holds the receipt's state changes, events and data in
/// the receipt's order, each as its own message, and its transaction id; a
/// message describes a receipt exactly when each of its state changes is
/// typed, and that receipt holds the message's state changes, events and
/// data in the message's order, and its transaction id.
pub proof fn lemma_receipt_message_keeps_order(r: TransactionReceiptView, p: proto_receipt::TransactionReceiptView)
    ensures
        proto_of_receipt(r).state_changes.len() == r.state_changes.len(),
        forall|i: int|
            0 <= i < r.state_changes.len() ==> #[trigger] proto_of_receipt(r).state_changes[i]
                == proto_of_state_change(r.state_changes[i]),
        proto_of_receipt(r).events.len() == r.events.len(),
        forall|i: int|
            0 <= i < r.events.len() ==> #[trigger] proto_of_receipt(r).events[i] == proto_of_event(r.events[i]),
        proto_of_receipt(r).data == r.data,
        proto_of_receipt(r).transaction_id == r.transaction_id,
        receipt_of_proto(p) is Some <==> (forall|i: int|
            0 <= i < p.state_changes.len() ==> (#[trigger] p.state_changes[i]).field_type
                != proto_receipt::StateChange_Type::TYPE_UNSET),
        receipt_of_proto(p) matches Some(v) ==> {
            &&& v.state_changes.len() == p.state_changes.len()
            &&& forall|i: int|
                0 <= i < p.state_changes.len() ==> state_change_of_proto(#[trigger] p.state_changes[i]) == Some(
                    v.state_changes[i],
                )
            &&& v.events.len() == p.events.len()
            &&& forall|i: int| 0 <= i < p.events.len() ==> v.events[i] == event_of_proto(#[trigger] p.events[i])
            &&& v.data == p.data
            &&& v.transaction_id == p.transaction_id
        },
{
    if receipt_of_proto(p) is Some {
        assert forall|i: int| 0 <= i < p.state_changes.len() implies (#[trigger] p.state_changes[i]).field_type
            != proto_receipt::StateChange_Type::TYPE_UNSET by {
            assert(state_change_of_proto(p.state_changes[i]) is Some);
        }
    }
    if forall|i: int|
        0 <= i < p.state_changes.len() ==> (#[trigger] p.state_changes[i]).field_type
            != proto_receipt::StateChange_Type::TYPE_UNSET {
        assert forall|i: int| 0 <= i < p.state_changes.len() implies (#[trigger] state_change_of_proto(
            p.state_changes[i],
        )) is Some by {
            assert(p.state_changes[i].field_type != proto_receipt::StateChange_Type::TYPE_UNSET);
        }
    }
}

/// Each event builder setter sets its own field to the given value and
/// leaves the other fields as they were; so a builder whose event type was
/// never set builds nothing.
pub proof fn lemma_event_builder_setters_frame(b: EventBuilder, t: String, a: Vec<(String, String)>, d: Vec<u8>)
    ensures
        event_builder_with_event_type(b, t).event_type == Some(t),
        event_builder_with_event_type(b, t).attributes == b.attributes,
        event_builder_with_event_type(b, t).data == b.data,
        event_builder_with_attributes(b, a).event_type == b.event_type,
        event_builder_with_attributes(b, a).attributes == a,
        event_builder_with_attributes(b, a).data == b.data,
        event_builder_with_data(b, d).event_type == b.event_type,
        event_builder_with_data(b, d).attributes == b.attributes,
        event_builder_with_data(b, d).data == d,
        b.event_type is None ==> built_event(b) is None,
        b.event_type matches Some(s) ==> built_event(b) == Some(
            Event { event_type: s, attributes: b.attributes, data: b.data },
        ),
{
}

/// Each receipt builder setter sets its own field to the given value and
/// leaves the other fields as they were; so a builder whose transaction id
/// was never set builds nothing.
pub proof fn lemma_receipt_builder_setters_frame(
    b: TransactionReceiptBuilder,
    s: Vec<StateChange>,
    e: Vec<Event>,
    d: Vec<Vec<u8>>,
    t: String,
)
    ensures
        receipt_builder_with_state_changes(b, s).state_changes == s,
        receipt_builder_with_state_changes(b, s).events == b.events,
        receipt_builder_with_state_changes(b, s).data == b.data,
        receipt_builder_with_state_changes(b, s).transaction_id == b.transaction_id,
        receipt_builder_with_events(b, e).state_changes == b.state_changes,
        receipt_builder_with_events(b, e).events == e,
        receipt_builder_with_events(b, e).data == b.data,
        receipt_builder_with_events(b, e).transaction_id == b.transaction_id,
        receipt_builder_with_data(b, d).state_changes == b.state_changes,
        receipt_builder_with_data(b, d).events == b.events,
        receipt_builder_with_data(b, d).data == d,
        receipt_builder_with_data(b, d).transaction_id == b.transaction_id,
        receipt_builder_with_transaction_id(b, t).state_changes == b.state_changes,
        receipt_builder_with_transaction_id(b, t).events == b.events,
        receipt_builder_with_transaction_id(b, t).data == b.data,
        receipt_builder_with_transaction_id(b, t).transaction_id == Some(t),
        b.transaction_id is None ==> built_receipt(b) is None,
        b.transaction_id matches Some(id) ==> built_receipt(b) == Some(
            TransactionReceipt { state_changes: b.state_changes, events: b.events, data: b.data, transaction_id: id },
        ),
{
}

/// The builder with its event type set to `t`.
pub open spec fn event_builder_with_event_type(b: EventBuilder, t: String) -> EventBuilder {
    EventBuilder { event_type: Some(t), ..b }
}

/// The builder with its attributes set to `a`.
pub open spec fn event_builder_with_attributes(b: EventBuilder, a: Vec<(String, String)>) -> EventBuilder {
    EventBuilder { attributes: a, ..b }
}

/// The builder with its data set to `d`.
pub open spec fn event_builder_with_data(b: EventBuilder, d: Vec<u8>) -> EventBuilder {
    EventBuilder { data: d, ..b }
}

/// The event a builder builds: its fields, when the event type is set.
pub open spec fn built_event(b: EventBuilder) -> Option<Event> {
    match b.event_type {
        Some(t) => Some(Event { event_type: t, attributes: b.attributes, data: b.data }),
        None => None,
    }
}

/// The builder with its state changes set to `s`.
pub open spec fn receipt_builder_with_state_changes(b: TransactionReceiptBuilder, s: Vec<StateChange>) -> TransactionReceiptBuilder {
    TransactionReceiptBuilder { state_changes: s, ..b }
}

/// The builder with its events set to `e`.
pub open spec fn receipt_builder_with_events(b: TransactionReceiptBuilder, e: Vec<Event>) -> TransactionReceiptBuilder {
    TransactionReceiptBuilder { events: e, ..b }
}

/// The builder with its data set to `d`.
pub open spec fn receipt_builder_with_data(b: TransactionReceiptBuilder, d: Vec<Vec<u8>>) -> TransactionReceiptBuilder {
    TransactionReceiptBuilder { data: d, ..b }
}

/// The builder with its transaction id set to `t`.
pub open spec fn receipt_builder_with_transaction_id(b: TransactionReceiptBuilder, t: String) -> TransactionReceiptBuilder {
    TransactionReceiptBuilder { transaction_id: Some(t), ..b }
}

/// The receipt a builder builds: its fields, when the transaction id is set.
pub open spec fn built_receipt(b: TransactionReceiptBuilder) -> Option<TransactionReceipt> {
    match b.transaction_id {
        Some(t) => Some(
            TransactionReceipt { state_changes: b.state_changes, events: b.events, data: b.data, transaction_id: t },
        ),
        None => None,
    }
}

/// Setting all of an event builder's fields, in either order and whatever
/// the builder held before, builds the event of exactly those fields: each
/// setter overwrites only its own field. Two builders set in the two orders
/// from equal values (such as one from the values, the other from their
/// copies) build equal events.
pub proof fn lemma_event_builder_setters_commute(
    b1: EventBuilder,
    b2: EventBuilder,
    t1: String,
    t2: String,
    a1: Vec<(String, String)>,
    a2: Vec<(String, String)>,
    d1: Vec<u8>,
    d2: Vec<u8>,
)
    requires
        t1@ == t2@,
        pair_views(a1@) == pair_views(a2@),
        d1@ == d2@,
    ensures
        built_event(event_builder_with_data(event_builder_with_attributes(event_builder_with_event_type(b1, t1), a1), d1))
            == Some(Event { event_type: t1, attributes: a1, data: d1 }),
        built_event(event_builder_with_event_type(event_builder_with_attributes(event_builder_with_data(b2, d2), a2), t2))
            == Some(Event { event_type: t2, attributes: a2, data: d2 }),
        (Event { event_type: t1, attributes: a1, data: d1 })@ == (Event { event_type: t2, attributes: a2, data: d2 })@,
{
}

/// Setting all of a receipt builder's fields, in either order and whatever
/// the builder held before, builds the receipt of exactly those fields: each
/// setter overwrites only its own field. Two builders set in the two orders
/// from equal values (such as one from the values, the other from their
/// copies) build equal receipts.
pub proof fn lemma_receipt_builder_setters_commute(
    b1: TransactionReceiptBuilder,
    b2: TransactionReceiptBuilder,
    s1: Vec<StateChange>,
    s2: Vec<StateChange>,
    e1: Vec<Event>,
    e2: Vec<Event>,
    d1: Vec<Vec<u8>>,
    d2: Vec<Vec<u8>>,
    t1: String,
    t2: String,
)
    requires
        state_change_views(s1@) == state_change_views(s2@),
        event_views(e1@) == event_views(e2@),
        proto_receipt::bytes_views(d1@) == proto_receipt::bytes_views(d2@),
        t1@ == t2@,
    ensures
        built_receipt(
            receipt_builder_with_transaction_id(
                receipt_builder_with_data(receipt_builder_with_events(receipt_builder_with_state_changes(b1, s1), e1), d1),
                t1,
            ),
        ) == Some(TransactionReceipt { state_changes: s1, events: e1, data: d1, transaction_id: t1 }),
        built_receipt(
            receipt_builder_with_state_changes(
                receipt_builder_with_events(receipt_builder_with_data(receipt_builder_with_transaction_id(b2, t2), d2), e2),
                s2,
            ),
        ) == Some(TransactionReceipt { state_changes: s2, events: e2, data: d2, transaction_id: t2 }),
        (TransactionReceipt { state_changes: s1, events: e1, data: d1, transaction_id: t1 })@
            == (TransactionReceipt { state_changes: s2, events: e2, data: d2, transaction_id: t2 })@,
{
}

// ---------------------------------------------------------------------------
// Copies

impl Clone for StateChange {
    /// A copy of the state change: the same variant, key and value.
    fn clone(&self) -> (r: StateChange)
        ensures
            r@ == self@,
    {
        match self {
            StateChange::SetValue { key, value } => StateChange::SetValue { key: key.clone(), value: copy_bytes(value) },
            StateChange::Delete { key } => StateChange::Delete { key: key.clone() },
        }
    }
}

/// A copy of a sequence of key/value pairs.
fn copy_pairs(v: &Vec<(String, String)>) -> (r: Vec<(String, String)>)
    ensures
        pair_views(r@) == pair_views(v@),
{
    let mut r: Vec<(String, String)> = Vec::new();
    let mut i: usize = 0;
    while i < v.len()
        invariant
            i <= v@.len(),
            pair_views(r@) =~= pair_views(v@).take(i as int),
        decreases v@.len() - i,
    {
        let (a, b) = &v[i];
        let ghost before = r@;
        r.push((a.clone(), b.clone()));
        assert(pair_views(r@) =~= pair_views(before).push((a@, b@)));
        assert(pair_views(v@).take(i + 1) =~= pair_views(v@).take(i as int).push((a@, b@)));
        i = i + 1;
    }
    assert(pair_views(v@).take(i as int) =~= pair_views(v@));
    r
}

impl Clone for Event {
    /// A copy of the event: the same type, attributes and data.
    fn clone(&self) -> (r: Event)
        ensures
            r@ == self@,
    {
        Event { event_type: self.event_type.clone(), attributes: copy_pairs(&self.attributes), data: copy_bytes(&self.data) }
    }
}

/// A copy of a sequence of state changes.
fn copy_state_changes(v: &Vec<StateChange>) -> (r: Vec<StateChange>)
    ensures
        state_change_views(r@) == state_change_views(v@),
{
    let mut r: Vec<StateChange> = Vec::new();
    let mut i: usize = 0;
    while i < v.len()
        invariant
            i <= v@.len(),
            state_change_views(r@) =~= state_change_views(v@).take(i as int),
        decreases v@.len() - i,
    {
        let c = v[i].clone();
        let ghost before = r@;
        r.push(c);
        assert(state_change_views(r@) =~= state_change_views(before).push(c@));
        assert(state_change_views(v@).take(i + 1) =~= state_change_views(v@).take(i as int).push(c@));
        i = i + 1;
    }
    assert(state_change_views(v@).take(i as int) =~= state_change_views(v@));
    r
}

/// A copy of a sequence of events.
fn copy_events(v: &Vec<Event>) -> (r: Vec<Event>)
    ensures
        event_views(r@) == event_views(v@),
{
    let mut r: Vec<Event> = Vec::new();
    let mut i: usize = 0;
    while i < v.len()
        invariant
            i <= v@.len(),
            event_views(r@) =~= event_views(v@).take(i as int),
        decreases v@.len() - i,
    {
        let e = v[i].clone();
        let ghost before = r@;
        r.push(e);
        assert(event_views(r@) =~= event_views(before).push(e@));
        assert(event_views(v@).take(i + 1) =~= event_views(v@).take(i as int).push(e@));
        i = i + 1;
    }
    assert(event_views(v@).take(i as int) =~= event_views(v@));
    r
}

/// A copy of a sequence of byte strings.
fn copy_bytes_list(v: &Vec<Vec<u8>>) -> (r: Vec<Vec<u8>>)
    ensures
        proto_receipt::bytes_views(r@) == proto_receipt::bytes_views(v@),
{
    let mut r: Vec<Vec<u8>> = Vec::new();
    let mut i: usize = 0;
    while i < v.len()
        invariant
            i <= v@.len(),
            proto_receipt::bytes_views(r@) =~= proto_receipt::bytes_views(v@).take(i as int),
        decreases v@.len() - i,
    {
        let d = copy_bytes(&v[i]);
        let ghost before = r@;
        r.push(d);
        assert(proto_receipt::bytes_views(r@) =~= proto_receipt::bytes_views(before).push(d@));
        assert(proto_receipt::bytes_views(v@).take(i + 1) =~= proto_receipt::bytes_views(v@).take(i as int).push(
            d@,
        ));
        i = i + 1;
    }
    assert(proto_receipt::bytes_views(v@).take(i as int) =~= proto_receipt::bytes_views(v@));
    r
}

impl Clone for TransactionReceipt {
    /// A copy of the receipt: the same state changes, events, data and
    /// transaction id.
    fn clone(&self) -> (r: TransactionReceipt)
        ensures
            r@ == self@,
    {
        TransactionReceipt {
            state_changes: copy_state_changes(&self.state_changes),
            events: copy_events(&self.events),
            data: copy_bytes_list(&self.data),
            transaction_id: self.transaction_id.clone(),
        }
    }
}

} // verus!
