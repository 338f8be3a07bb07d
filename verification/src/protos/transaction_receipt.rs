//! The messages of `transaction_receipt.proto`:
//!
//! ```text
//! message StateChange {
//!     string address = 1;
//!     bytes value = 2;
//!     enum Type { TYPE_UNSET = 0; SET = 1; DELETE = 2; }
//!     Type type = 3;
//! }
//! message TransactionReceipt {
//!     repeated StateChange state_changes = 1;
//!     repeated Event events = 2;
//!     repeated bytes data = 3;
//!     string transaction_id = 4;
//! }
//! ```
//!
//! Each message is written with its fields in field-number order, leaving out
//! fields that hold their default value, and is read the way protobuf reads a
//! proto3 message: fields in any order, a later singular field replacing an
//! earlier one, repeated fields accumulating, and fields the message does not
//! declare skipped.

use crate::protos::events::{
    decode_event, encode_event, event_encodable, lemma_event_roundtrip, Event, EventView,
};
use crate::protos::wire::{
    lemma_nested_field_roundtrip, nested_prefix, read_varint64, top_level_slack,
    lemma_delimited_field_roundtrip, lemma_int32_field_roundtrip, lemma_string_field_roundtrip,
    delimited_field, delimited_prefix, int32_prefix, lemma_prefix_lengths, protobuf_unknown_field_len,
    read_bytes, read_int32, read_string, read_tag, skip_unknown_field, string_prefix, tag_prefix,
    varint_field, window, write_bytes_field, write_enum_field, write_string_field, WireError,
    WIRE_LENGTH_DELIMITED, WIRE_VARINT,
};
use vstd::prelude::*;
use vstd::utf8::*;

verus! {

/// The kind of a state change.
#[allow(non_camel_case_types)]
#[derive(Debug, Clone, Copy, PartialEq, Eq, Hash)]
pub enum StateChange_Type {
    TYPE_UNSET,
    SET,
    DELETE,
}

/// The number that stands for a state change kind on the wire.
pub open spec fn type_number(t: StateChange_Type) -> nat {
    match t {
        StateChange_Type::TYPE_UNSET => 0,
        StateChange_Type::SET => 1,
        StateChange_Type::DELETE => 2,
    }
}

/// The `StateChange` message.
#[derive(Debug, Clone, PartialEq, Eq)]
pub struct StateChange {
    pub address: String,
    pub value: Vec<u8>,
    pub field_type: StateChange_Type,
}

/// The value of a `StateChange` message.
pub struct StateChangeView {
    pub address: Seq<char>,
    pub value: Seq<u8>,
    pub field_type: StateChange_Type,
}

impl View for StateChange {
    type V = StateChangeView;

    open spec fn view(&self) -> StateChangeView {
        StateChangeView { address: self.address@, value: self.value@, field_type: self.field_type }
    }
}

/// The `StateChange` message with every field at its default.
pub open spec fn empty_state_change() -> StateChangeView {
    StateChangeView { address: Seq::empty(), value: Seq::empty(), field_type: StateChange_Type::TYPE_UNSET }
}

/// Whether every length in the encoding of `m` fits a protobuf length.
pub open spec fn state_change_encodable(m: StateChangeView) -> bool {
    encode_utf8(m.address).len() <= u32::MAX && m.value.len() <= u32::MAX
}

/// The encoding of a `StateChange` message.
pub open spec fn encode_state_change(m: StateChangeView) -> Seq<u8> {
    (if m.address.len() == 0 {
        Seq::empty()
    } else {
        delimited_field(1, encode_utf8(m.address))
    }) + (if m.value.len() == 0 {
        Seq::empty()
    } else {
        delimited_field(2, m.value)
    }) + (if m.field_type == StateChange_Type::TYPE_UNSET {
        Seq::empty()
    } else {
        varint_field(3, type_number(m.field_type))
    })
}

/// Reads the fields of a `StateChange` message from `b` on top of `acc`.
pub open spec fn parse_state_change(b: Seq<u8>, acc: StateChangeView) -> Option<StateChangeView>
    decreases b.len(),
{
    if b.len() == 0 {
        Some(acc)
    } else {
        match tag_prefix(b) {
            None => None,
            Some((f, w, n)) => {
                proof {
                    lemma_prefix_lengths(b, 0);
                }
                let r = b.skip(n as int);
                if f == 1 {
                    if w != WIRE_LENGTH_DELIMITED {
                        None
                    } else {
                        match string_prefix(r) {
                            Some((s, m)) => {
                                proof {
                                    lemma_prefix_lengths(r, 0);
                                }
                                parse_state_change(r.skip(m as int), StateChangeView { address: s, ..acc })
                            },
                            None => None,
                        }
                    }
                } else if f == 2 {
                    if w != WIRE_LENGTH_DELIMITED {
                        None
                    } else {
                        match delimited_prefix(r) {
                            Some((p, m)) => {
                                proof {
                                    lemma_prefix_lengths(r, 0);
                                }
                                parse_state_change(r.skip(m as int), StateChangeView { value: p, ..acc })
                            },
                            None => None,
                        }
                    }
                } else if f == 3 {
                    if w != WIRE_VARINT {
                        None
                    } else {
                        match int32_prefix(r) {
                            Some((v, m)) => {
                                proof {
                                    lemma_prefix_lengths(r, 0);
                                }
                                let t = if v == 0 {
                                    StateChange_Type::TYPE_UNSET
                                } else if v == 1 {
                                    StateChange_Type::SET
                                } else if v == 2 {
                                    StateChange_Type::DELETE
                                } else {
                                    acc.field_type
                                };
                                parse_state_change(r.skip(m as int), StateChangeView { field_type: t, ..acc })
                            },
                            None => None,
                        }
                    }
                } else {
                    match protobuf_unknown_field_len(r, f, w) {
                        Some(m) => if m <= r.len() {
                            parse_state_change(r.skip(m as int), acc)
                        } else {
                            None
                        },
                        None => None,
                    }
                }
            },
        }
    }
}

/// The `StateChange` message that `b` encodes, if it encodes one.
#[verifier::opaque]
pub open spec fn decode_state_change(b: Seq<u8>) -> Option<StateChangeView> {
    parse_state_change(b, empty_state_change())
}

/// Reading an address field sets the address.
proof fn lemma_parse_address_field(s: Seq<char>, rest: Seq<u8>, acc: StateChangeView)
    requires
        encode_utf8(s).len() <= u32::MAX,
    ensures
        parse_state_change(delimited_field(1, encode_utf8(s)) + rest, acc)
            == parse_state_change(rest, StateChangeView { address: s, ..acc }),
{
    lemma_string_field_roundtrip(1, s, rest);
}

/// Reading a value field sets the value.
proof fn lemma_parse_value_field(v: Seq<u8>, rest: Seq<u8>, acc: StateChangeView)
    requires
        v.len() <= u32::MAX,
    ensures
        parse_state_change(delimited_field(2, v) + rest, acc)
            == parse_state_change(rest, StateChangeView { value: v, ..acc }),
{
    lemma_delimited_field_roundtrip(2, v, rest);
}

/// Reading a type field sets the type.
proof fn lemma_parse_type_field(t: StateChange_Type, rest: Seq<u8>, acc: StateChangeView)
    requires
        t != StateChange_Type::TYPE_UNSET,
    ensures
        parse_state_change(varint_field(3, type_number(t)) + rest, acc)
            == parse_state_change(rest, StateChangeView { field_type: t, ..acc }),
{
    lemma_int32_field_roundtrip(3, type_number(t), rest);
}

/// Reading the encoding of a `StateChange` message gives back the message.
pub proof fn lemma_state_change_roundtrip(m: StateChangeView)
    requires
        state_change_encodable(m),
    ensures
        decode_state_change(encode_state_change(m)) == Some(m),
{
    reveal(decode_state_change);
    let a: Seq<u8> = if m.address.len() == 0 {
        Seq::empty()
    } else {
        delimited_field(1, encode_utf8(m.address))
    };
    let b: Seq<u8> = if m.value.len() == 0 {
        Seq::empty()
    } else {
        delimited_field(2, m.value)
    };
    let c: Seq<u8> = if m.field_type == StateChange_Type::TYPE_UNSET {
        Seq::empty()
    } else {
        varint_field(3, type_number(m.field_type))
    };
    let acc0 = empty_state_change();
    let acc1 = StateChangeView { address: m.address, ..acc0 };
    let acc2 = StateChangeView { value: m.value, ..acc1 };
    assert(encode_state_change(m) =~= a + (b + c));
    if m.address.len() == 0 {
        assert(a + (b + c) =~= b + c);
        assert(acc1.address =~= acc0.address);
    } else {
        lemma_parse_address_field(m.address, b + c, acc0);
    }
    if m.value.len() == 0 {
        assert(b + c =~= c);
        assert(acc2.value =~= acc1.value);
    } else {
        lemma_parse_value_field(m.value, c, acc1);
    }
    if m.field_type == StateChange_Type::TYPE_UNSET {
        assert(c =~= Seq::<u8>::empty());
    } else {
        assert(c + Seq::<u8>::empty() =~= c);
        lemma_parse_type_field(m.field_type, Seq::empty(), acc2);
    }
}

impl StateChange {
    /// A `StateChange` message with every field at its default.
    pub fn new() -> (r: StateChange)
        ensures
            r@ == empty_state_change(),
    {
        StateChange { address: String::new(), value: Vec::new(), field_type: StateChange_Type::TYPE_UNSET }
    }

    /// Appends the encoding of the message to `out`.
    pub(crate) fn write_to(&self, out: &mut Vec<u8>) -> (r: Result<(), WireError>)
        ensures
            r is Ok <==> state_change_encodable(self@),
            r is Ok ==> final(out)@ == old(out)@ + encode_state_change(self@),
            r is Err ==> r == Err::<(), WireError>(WireError::TooLarge),
    {
        let address = self.address.as_str();
        let address_len = address.as_bytes().len();
        if (address_len as u64) > (u32::MAX as u64) || (self.value.len() as u64) > (u32::MAX as u64) {
            return Err(WireError::TooLarge);
        }
        let ghost start = out@;
        if address_len != 0 {
            match write_string_field(out, 1, address) {
                Ok(()) => {},
                Err(_) => return Err(WireError::TooLarge),
            }
        }
        let ghost after_address = out@;
        if self.value.len() != 0 {
            match write_bytes_field(out, 2, self.value.as_slice()) {
                Ok(()) => {},
                Err(_) => return Err(WireError::TooLarge),
            }
        }
        let ghost after_value = out@;
        match self.field_type {
            StateChange_Type::TYPE_UNSET => {},
            StateChange_Type::SET => {
                match write_enum_field(out, 3, 1) {
                    Ok(()) => {},
                    Err(_) => return Err(WireError::TooLarge),
                }
            },
            StateChange_Type::DELETE => {
                match write_enum_field(out, 3, 2) {
                    Ok(()) => {},
                    Err(_) => return Err(WireError::TooLarge),
                }
            },
        }
        assert(out@ =~= start + encode_state_change(self@));
        Ok(())
    }

    /// The encoding of the message.
    pub fn write_to_bytes(&self) -> (r: Result<Vec<u8>, WireError>)
        ensures
            r is Ok <==> state_change_encodable(self@),
            r matches Ok(b) ==> b@ == encode_state_change(self@),
            r is Err ==> r == Err::<Vec<u8>, WireError>(WireError::TooLarge),
    {
        let mut out: Vec<u8> = Vec::new();
        match self.write_to(&mut out) {
            Ok(()) => {
                assert(out@ =~= encode_state_change(self@));
                Ok(out)
            },
            Err(e) => Err(e),
        }
    }

    /// Reads the message that `buf[start..end]` encodes.
    pub(crate) fn parse_from_window(buf: &[u8], start: usize, end: usize) -> (r: Result<StateChange, WireError>)
        requires
            start <= end <= buf@.len(),
        ensures
            r is Ok <==> decode_state_change(window(buf@, start, end)) is Some,
            r matches Ok(m) ==> decode_state_change(window(buf@, start, end)) == Some(m@),
            r is Err ==> r == Err::<StateChange, WireError>(WireError::Malformed),
    {
        reveal(decode_state_change);
        let mut acc = StateChange::new();
        let mut pos = start;
        while pos < end
            invariant
                start <= pos <= end <= buf@.len(),
                decode_state_change(window(buf@, start, end)) == parse_state_change(window(buf@, pos, end), acc@),
            decreases end - pos,
        {
            let ghost b = window(buf@, pos, end);
            let (f, w, n) = match read_tag(buf, pos, end) {
                Ok(t) => t,
                Err(_) => return Err(WireError::Malformed),
            };
            proof {
                lemma_prefix_lengths(b, 0);
            }
            let body = pos + n;
            assert(b.skip(n as int) =~= window(buf@, body, end));
            if f == 1 {
                if w != WIRE_LENGTH_DELIMITED {
                    return Err(WireError::Malformed);
                }
                match read_string(buf, body, end) {
                    Ok((s, m)) => {
                        proof {
                            lemma_prefix_lengths(window(buf@, body, end), 0);
                        }
                        acc.address = s;
                        pos = body + m;
                        assert(window(buf@, body, end).skip(m as int) =~= window(buf@, pos, end));
                    },
                    Err(_) => return Err(WireError::Malformed),
                }
            } else if f == 2 {
                if w != WIRE_LENGTH_DELIMITED {
                    return Err(WireError::Malformed);
                }
                match read_bytes(buf, body, end) {
                    Ok((v, m)) => {
                        proof {
                            lemma_prefix_lengths(window(buf@, body, end), 0);
                        }
                        acc.value = v;
                        pos = body + m;
                        assert(window(buf@, body, end).skip(m as int) =~= window(buf@, pos, end));
                    },
                    Err(_) => return Err(WireError::Malformed),
                }
            } else if f == 3 {
                if w != WIRE_VARINT {
                    return Err(WireError::Malformed);
                }
                match read_int32(buf, body, end) {
                    Ok((v, m)) => {
                        proof {
                            lemma_prefix_lengths(window(buf@, body, end), 0);
                        }
                        if v == 0 {
                            acc.field_type = StateChange_Type::TYPE_UNSET;
                        } else if v == 1 {
                            acc.field_type = StateChange_Type::SET;
                        } else if v == 2 {
                            acc.field_type = StateChange_Type::DELETE;
                        }
                        pos = body + m;
                        assert(window(buf@, body, end).skip(m as int) =~= window(buf@, pos, end));
                    },
                    Err(_) => return Err(WireError::Malformed),
                }
            } else {
                match skip_unknown_field(buf, body, end, f, w) {
                    Ok(m) => {
                        pos = body + m;
                        assert(window(buf@, body, end).skip(m as int) =~= window(buf@, pos, end));
                    },
                    Err(_) => return Err(WireError::Malformed),
                }
            }
        }
        assert(window(buf@, pos, end) =~= Seq::<u8>::empty());
        Ok(acc)
    }

    /// Reads an embedded `StateChange` message (its length, then its bytes)
    /// from the front of `buf[start..end]`, under a limit that reaches `slack`
    /// bytes past `end`. Gives the message and the number of bytes taken.
    pub(crate) fn read_nested(buf: &[u8], start: usize, end: usize, slack: u64) -> (r: Result<(StateChange, usize), WireError>)
        requires
            start <= end <= buf@.len(),
        ensures
            r is Ok <==> (nested_prefix(window(buf@, start, end), slack as nat) matches Some((sub, _s, _m))
                && decode_state_change(sub) is Some),
            r matches Ok((c, k)) ==> (nested_prefix(window(buf@, start, end), slack as nat) matches Some((sub, _s, m))
                && k == m && decode_state_change(sub) == Some(c@)),
            r is Err ==> r == Err::<(StateChange, usize), WireError>(WireError::Malformed),
    {
        let ghost b = window(buf@, start, end);
        let (len, n) = match read_varint64(buf, start, end) {
            Ok(v) => v,
            Err(_) => return Err(WireError::Malformed),
        };
        proof {
            lemma_prefix_lengths(b, 0);
        }
        let sub_start = start + n;
        let avail = end - sub_start;
        let sub_len: usize;
        if len <= avail as u64 {
            sub_len = len as usize;
        } else {
            if len - (avail as u64) > slack {
                return Err(WireError::Malformed);
            }
            sub_len = avail;
        }
        let sub_end = sub_start + sub_len;
        assert(b.subrange(n as int, n + sub_len) =~= window(buf@, sub_start, sub_end));
        match StateChange::parse_from_window(buf, sub_start, sub_end) {
            Ok(c) => Ok((c, n + sub_len)),
            Err(e) => Err(e),
        }
    }

    /// Reads the message that `bytes` encodes.
    pub fn parse_from_bytes(bytes: &[u8]) -> (r: Result<StateChange, WireError>)
        ensures
            r is Ok <==> decode_state_change(bytes@) is Some,
            r matches Ok(m) ==> decode_state_change(bytes@) == Some(m@),
            r is Err ==> r == Err::<StateChange, WireError>(WireError::Malformed),
    {
        let r = StateChange::parse_from_window(bytes, 0, bytes.len());
        assert(window(bytes@, 0, bytes.len()) =~= bytes@);
        r
    }
}

// ---------------------------------------------------------------------------
// The `TransactionReceipt` message

/// The `TransactionReceipt` message.
#[derive(Debug, Clone, PartialEq, Eq)]
pub struct TransactionReceipt {
    pub state_changes: Vec<StateChange>,
    pub events: Vec<Event>,
    pub data: Vec<Vec<u8>>,
    pub transaction_id: String,
}

/// The value of a `TransactionReceipt` message.
pub struct TransactionReceiptView {
    pub state_changes: Seq<StateChangeView>,
    pub events: Seq<EventView>,
    pub data: Seq<Seq<u8>>,
    pub transaction_id: Seq<char>,
}

/// The values of a sequence of `StateChange` messages.
pub open spec fn state_change_views(v: Seq<StateChange>) -> Seq<StateChangeView> {
    v.map_values(|c: StateChange| c@)
}

/// The values of a sequence of `Event` messages.
pub open spec fn event_views(v: Seq<Event>) -> Seq<EventView> {
    v.map_values(|e: Event| e@)
}

/// The values of a sequence of byte strings.
pub open spec fn bytes_views(v: Seq<Vec<u8>>) -> Seq<Seq<u8>> {
    v.map_values(|d: Vec<u8>| d@)
}

impl View for TransactionReceipt {
    type V = TransactionReceiptView;

    open spec fn view(&self) -> TransactionReceiptView {
        TransactionReceiptView {
            state_changes: state_change_views(self.state_changes@),
            events: event_views(self.events@),
            data: bytes_views(self.data@),
            transaction_id: self.transaction_id@,
        }
    }
}

/// The `TransactionReceipt` message with every field at its default.
pub open spec fn empty_receipt() -> TransactionReceiptView {
    TransactionReceiptView {
        state_changes: Seq::empty(),
        events: Seq::empty(),
        data: Seq::empty(),
        transaction_id: Seq::empty(),
    }
}

/// Whether each state change can be written as an embedded message.
pub open spec fn state_changes_encodable(v: Seq<StateChangeView>) -> bool {
    forall|i: int|
        0 <= i < v.len() ==> state_change_encodable(#[trigger] v[i]) && encode_state_change(v[i]).len()
            <= u32::MAX
}

/// Whether each event can be written as an embedded message.
pub open spec fn events_encodable(v: Seq<EventView>) -> bool {
    forall|i: int| 0 <= i < v.len() ==> event_encodable(#[trigger] v[i]) && encode_event(v[i]).len() <= u32::MAX
}

/// Whether each byte string fits a protobuf length.
pub open spec fn data_encodable(v: Seq<Seq<u8>>) -> bool {
    forall|i: int| 0 <= i < v.len() ==> (#[trigger] v[i]).len() <= u32::MAX
}

/// Whether every length in the encoding of `m` fits a protobuf length.
pub open spec fn receipt_encodable(m: TransactionReceiptView) -> bool {
    &&& state_changes_encodable(m.state_changes)
    &&& events_encodable(m.events)
    &&& data_encodable(m.data)
    &&& encode_utf8(m.transaction_id).len() <= u32::MAX
}

/// The state changes written as repeated field 1, in order.
pub open spec fn encode_state_changes(v: Seq<StateChangeView>) -> Seq<u8>
    decreases v.len(),
{
    if v.len() == 0 {
        Seq::empty()
    } else {
        encode_state_changes(v.drop_last()) + delimited_field(1, encode_state_change(v.last()))
    }
}

/// The events written as repeated field 2, in order.
pub open spec fn encode_events(v: Seq<EventView>) -> Seq<u8>
    decreases v.len(),
{
    if v.len() == 0 {
        Seq::empty()
    } else {
        encode_events(v.drop_last()) + delimited_field(2, encode_event(v.last()))
    }
}

/// The byte strings written as repeated field 3, in order.
pub open spec fn encode_data(v: Seq<Seq<u8>>) -> Seq<u8>
    decreases v.len(),
{
    if v.len() == 0 {
        Seq::empty()
    } else {
        encode_data(v.drop_last()) + delimited_field(3, v.last())
    }
}

/// The encoding of a `TransactionReceipt` message.
pub open spec fn encode_receipt(m: TransactionReceiptView) -> Seq<u8> {
    encode_state_changes(m.state_changes) + encode_events(m.events) + encode_data(m.data) + (
    if m.transaction_id.len() == 0 {
        Seq::empty()
    } else {
        delimited_field(4, encode_utf8(m.transaction_id))
    })
}

/// Reads the fields of a `TransactionReceipt` message from `b` on top of
/// `acc`; the message's limit reaches `slack` bytes past the end of `b`.
pub open spec fn parse_receipt(b: Seq<u8>, slack: nat, acc: TransactionReceiptView) -> Option<TransactionReceiptView>
    decreases b.len(),
{
    if b.len() == 0 {
        Some(acc)
    } else {
        match tag_prefix(b) {
            None => None,
            Some((f, w, n)) => {
                proof {
                    lemma_prefix_lengths(b, 0);
                }
                let r = b.skip(n as int);
                if 1 <= f <= 4 && w != WIRE_LENGTH_DELIMITED {
                    None
                } else if f == 1 || f == 2 {
                    match nested_prefix(r, slack) {
                        Some((sub, sub_slack, m)) => {
                            proof {
                                lemma_prefix_lengths(r, slack);
                            }
                            if f == 1 {
                                match decode_state_change(sub) {
                                    Some(c) => parse_receipt(
                                        r.skip(m as int),
                                        slack,
                                        TransactionReceiptView { state_changes: acc.state_changes.push(c), ..acc },
                                    ),
                                    None => None,
                                }
                            } else {
                                match decode_event(sub, sub_slack) {
                                    Some(e) => parse_receipt(
                                        r.skip(m as int),
                                        slack,
                                        TransactionReceiptView { events: acc.events.push(e), ..acc },
                                    ),
                                    None => None,
                                }
                            }
                        },
                        None => None,
                    }
                } else if f == 3 {
                    match delimited_prefix(r) {
                        Some((p, m)) => {
                            proof {
                                lemma_prefix_lengths(r, 0);
                            }
                            parse_receipt(
                                r.skip(m as int),
                                slack,
                                TransactionReceiptView { data: acc.data.push(p), ..acc },
                            )
                        },
                        None => None,
                    }
                } else if f == 4 {
                    match string_prefix(r) {
                        Some((s, m)) => {
                            proof {
                                lemma_prefix_lengths(r, 0);
                            }
                            parse_receipt(r.skip(m as int), slack, TransactionReceiptView { transaction_id: s, ..acc })
                        },
                        None => None,
                    }
                } else {
                    match protobuf_unknown_field_len(r, f, w) {
                        Some(m) => if m <= r.len() {
                            parse_receipt(r.skip(m as int), slack, acc)
                        } else {
                            None
                        },
                        None => None,
                    }
                }
            },
        }
    }
}

/// The `TransactionReceipt` message that `b` encodes, if it encodes one,
/// read with the message's limit `slack` bytes past the end of `b`.
#[verifier::opaque]
pub open spec fn decode_receipt(b: Seq<u8>, slack: nat) -> Option<TransactionReceiptView> {
    parse_receipt(b, slack, empty_receipt())
}

/// Reading the state changes written as repeated field 1 appends them.
proof fn lemma_parse_state_changes(
    v: Seq<StateChangeView>,
    rest: Seq<u8>,
    slack: nat,
    acc: TransactionReceiptView,
)
    requires
        state_changes_encodable(v),
    ensures
        parse_receipt(encode_state_changes(v) + rest, slack, acc) == parse_receipt(
            rest,
            slack,
            TransactionReceiptView { state_changes: acc.state_changes + v, ..acc },
        ),
    decreases v.len(),
{
    if v.len() == 0 {
        assert(encode_state_changes(v) + rest =~= rest);
        assert(acc.state_changes + v =~= acc.state_changes);
    } else {
        let init = v.drop_last();
        let last = v.last();
        let field = delimited_field(1, encode_state_change(last));
        assert(state_changes_encodable(init)) by {
            assert forall|i: int| 0 <= i < init.len() implies state_change_encodable(#[trigger] init[i])
                && encode_state_change(init[i]).len() <= u32::MAX by {
                assert(init[i] == v[i]);
            }
        }
        assert(state_change_encodable(v[v.len() - 1]));
        assert(encode_state_changes(v) + rest =~= encode_state_changes(init) + (field + rest));
        lemma_parse_state_changes(init, field + rest, slack, acc);
        let acc1 = TransactionReceiptView { state_changes: acc.state_changes + init, ..acc };
        lemma_nested_field_roundtrip(1, encode_state_change(last), rest, slack);
        lemma_state_change_roundtrip(last);
        assert(acc1.state_changes.push(last) =~= acc.state_changes + v);
    }
}

/// Reading the events written as repeated field 2 appends them.
proof fn lemma_parse_events(v: Seq<EventView>, rest: Seq<u8>, slack: nat, acc: TransactionReceiptView)
    requires
        events_encodable(v),
    ensures
        parse_receipt(encode_events(v) + rest, slack, acc) == parse_receipt(
            rest,
            slack,
            TransactionReceiptView { events: acc.events + v, ..acc },
        ),
    decreases v.len(),
{
    if v.len() == 0 {
        assert(encode_events(v) + rest =~= rest);
        assert(acc.events + v =~= acc.events);
    } else {
        let init = v.drop_last();
        let last = v.last();
        let field = delimited_field(2, encode_event(last));
        assert(events_encodable(init)) by {
            assert forall|i: int| 0 <= i < init.len() implies event_encodable(#[trigger] init[i])
                && encode_event(init[i]).len() <= u32::MAX by {
                assert(init[i] == v[i]);
            }
        }
        assert(event_encodable(v[v.len() - 1]));
        assert(encode_events(v) + rest =~= encode_events(init) + (field + rest));
        lemma_parse_events(init, field + rest, slack, acc);
        let acc1 = TransactionReceiptView { events: acc.events + init, ..acc };
        lemma_nested_field_roundtrip(2, encode_event(last), rest, slack);
        lemma_event_roundtrip(last, 0);
        assert(acc1.events.push(last) =~= acc.events + v);
    }
}

/// Reading the byte strings written as repeated field 3 appends them.
proof fn lemma_parse_data(v: Seq<Seq<u8>>, rest: Seq<u8>, slack: nat, acc: TransactionReceiptView)
    requires
        data_encodable(v),
    ensures
        parse_receipt(encode_data(v) + rest, slack, acc) == parse_receipt(
            rest,
            slack,
            TransactionReceiptView { data: acc.data + v, ..acc },
        ),
    decreases v.len(),
{
    if v.len() == 0 {
        assert(encode_data(v) + rest =~= rest);
        assert(acc.data + v =~= acc.data);
    } else {
        let init = v.drop_last();
        let last = v.last();
        let field = delimited_field(3, last);
        assert(data_encodable(init)) by {
            assert forall|i: int| 0 <= i < init.len() implies (#[trigger] init[i]).len() <= u32::MAX by {
                assert(init[i] == v[i]);
            }
        }
        assert(v[v.len() - 1].len() <= u32::MAX);
        assert(encode_data(v) + rest =~= encode_data(init) + (field + rest));
        lemma_parse_data(init, field + rest, slack, acc);
        let acc1 = TransactionReceiptView { data: acc.data + init, ..acc };
        lemma_delimited_field_roundtrip(3, last, rest);
        assert(acc1.data.push(last) =~= acc.data + v);
    }
}

/// Reading a transaction id field sets the transaction id.
proof fn lemma_parse_transaction_id_field(s: Seq<char>, rest: Seq<u8>, slack: nat, acc: TransactionReceiptView)
    requires
        encode_utf8(s).len() <= u32::MAX,
    ensures
        parse_receipt(delimited_field(4, encode_utf8(s)) + rest, slack, acc) == parse_receipt(
            rest,
            slack,
            TransactionReceiptView { transaction_id: s, ..acc },
        ),
{
    lemma_string_field_roundtrip(4, s, rest);
}

/// Reading the encoding of a `TransactionReceipt` message gives back the
/// message.
pub proof fn lemma_receipt_roundtrip(m: TransactionReceiptView, slack: nat)
    requires
        receipt_encodable(m),
    ensures
        decode_receipt(encode_receipt(m), slack) == Some(m),
{
    reveal(decode_receipt);
    let sc = encode_state_changes(m.state_changes);
    let ev = encode_events(m.events);
    let da = encode_data(m.data);
    let tid: Seq<u8> = if m.transaction_id.len() == 0 {
        Seq::empty()
    } else {
        delimited_field(4, encode_utf8(m.transaction_id))
    };
    let acc0 = empty_receipt();
    let acc1 = TransactionReceiptView { state_changes: acc0.state_changes + m.state_changes, ..acc0 };
    let acc2 = TransactionReceiptView { events: acc1.events + m.events, ..acc1 };
    let acc3 = TransactionReceiptView { data: acc2.data + m.data, ..acc2 };
    assert(encode_receipt(m) =~= sc + (ev + (da + tid)));
    lemma_parse_state_changes(m.state_changes, ev + (da + tid), slack, acc0);
    lemma_parse_events(m.events, da + tid, slack, acc1);
    lemma_parse_data(m.data, tid, slack, acc2);
    let acc4 = TransactionReceiptView { transaction_id: m.transaction_id, ..acc3 };
    assert(acc4 == m) by {
        assert(acc4.state_changes =~= m.state_changes);
        assert(acc4.events =~= m.events);
        assert(acc4.data =~= m.data);
    }
    if m.transaction_id.len() == 0 {
        assert(m.transaction_id =~= acc3.transaction_id);
        assert(parse_receipt(tid, slack, acc3) == Some(acc3));
    } else {
        assert(tid + Seq::<u8>::empty() =~= tid);
        lemma_parse_transaction_id_field(m.transaction_id, Seq::empty(), slack, acc3);
        assert(parse_receipt(Seq::empty(), slack, acc4) == Some(acc4));
    }
}

impl TransactionReceipt {
    /// A `TransactionReceipt` message with every field at its default.
    pub fn new() -> (r: TransactionReceipt)
        ensures
            r@ == empty_receipt(),
    {
        let r = TransactionReceipt {
            state_changes: Vec::new(),
            events: Vec::new(),
            data: Vec::new(),
            transaction_id: String::new(),
        };
        assert(r@.state_changes =~= Seq::<StateChangeView>::empty());
        assert(r@.events =~= Seq::<EventView>::empty());
        assert(r@.data =~= Seq::<Seq<u8>>::empty());
        r
    }

    /// Appends the state changes, as repeated field 1, to `out`.
    fn write_state_changes(&self, out: &mut Vec<u8>) -> (r: Result<(), WireError>)
        ensures
            r is Ok <==> state_changes_encodable(self@.state_changes),
            r is Ok ==> final(out)@ == old(out)@ + encode_state_changes(self@.state_changes),
            r is Err ==> r == Err::<(), WireError>(WireError::TooLarge),
    {
        let ghost start = out@;
        let ghost v = self@.state_changes;
        let mut i: usize = 0;
        while i < self.state_changes.len()
            invariant
                i <= self.state_changes@.len(),
                v == self@.state_changes,
                out@ == start + encode_state_changes(v.take(i as int)),
                state_changes_encodable(v.take(i as int)),
            decreases self.state_changes@.len() - i,
        {
            let mut body: Vec<u8> = Vec::new();
            let ghost c = self.state_changes@[i as int]@;
            assert(v[i as int] == c);
            match self.state_changes[i].write_to(&mut body) {
                Ok(()) => {},
                Err(e) => {
                    assert(!state_changes_encodable(v));
                    return Err(e);
                },
            }
            assert(body@ =~= encode_state_change(c));
            if (body.len() as u64) > (u32::MAX as u64) {
                assert(!state_changes_encodable(v));
                return Err(WireError::TooLarge);
            }
            match write_bytes_field(out, 1, body.as_slice()) {
                Ok(()) => {},
                Err(_) => return Err(WireError::TooLarge),
            }
            assert(v.take(i + 1).drop_last() =~= v.take(i as int));
            assert(v.take(i + 1).last() == c);
            assert(state_changes_encodable(v.take(i + 1))) by {
                assert forall|j: int| 0 <= j < i + 1 implies state_change_encodable(#[trigger] v.take(i + 1)[j])
                    && encode_state_change(v.take(i + 1)[j]).len() <= u32::MAX by {
                    if j < i {
                        assert(v.take(i + 1)[j] == v.take(i as int)[j]);
                    }
                }
            }
            i = i + 1;
        }
        assert(v.take(i as int) =~= v);
        Ok(())
    }

    /// Appends the events, as repeated field 2, to `out`.
    fn write_events(&self, out: &mut Vec<u8>) -> (r: Result<(), WireError>)
        ensures
            r is Ok <==> events_encodable(self@.events),
            r is Ok ==> final(out)@ == old(out)@ + encode_events(self@.events),
            r is Err ==> r == Err::<(), WireError>(WireError::TooLarge),
    {
        let ghost start = out@;
        let ghost v = self@.events;
        let mut i: usize = 0;
        while i < self.events.len()
            invariant
                i <= self.events@.len(),
                v == self@.events,
                out@ == start + encode_events(v.take(i as int)),
                events_encodable(v.take(i as int)),
            decreases self.events@.len() - i,
        {
            let mut body: Vec<u8> = Vec::new();
            let ghost e = self.events@[i as int]@;
            assert(v[i as int] == e);
            match self.events[i].write_to(&mut body) {
                Ok(()) => {},
                Err(err) => {
                    assert(!events_encodable(v));
                    return Err(err);
                },
            }
            assert(body@ =~= encode_event(e));
            if (body.len() as u64) > (u32::MAX as u64) {
                assert(!events_encodable(v));
                return Err(WireError::TooLarge);
            }
            match write_bytes_field(out, 2, body.as_slice()) {
                Ok(()) => {},
                Err(_) => return Err(WireError::TooLarge),
            }
            assert(v.take(i + 1).drop_last() =~= v.take(i as int));
            assert(v.take(i + 1).last() == e);
            assert(events_encodable(v.take(i + 1))) by {
                assert forall|j: int| 0 <= j < i + 1 implies event_encodable(#[trigger] v.take(i + 1)[j])
                    && encode_event(v.take(i + 1)[j]).len() <= u32::MAX by {
                    if j < i {
                        assert(v.take(i + 1)[j] == v.take(i as int)[j]);
                    }
                }
            }
            i = i + 1;
        }
        assert(v.take(i as int) =~= v);
        Ok(())
    }

    /// Appends the byte strings, as repeated field 3, to `out`.
    fn write_data(&self, out: &mut Vec<u8>) -> (r: Result<(), WireError>)
        ensures
            r is Ok <==> data_encodable(self@.data),
            r is Ok ==> final(out)@ == old(out)@ + encode_data(self@.data),
            r is Err ==> r == Err::<(), WireError>(WireError::TooLarge),
    {
        let ghost start = out@;
        let ghost v = self@.data;
        let mut i: usize = 0;
        while i < self.data.len()
            invariant
                i <= self.data@.len(),
                v == self@.data,
                out@ == start + encode_data(v.take(i as int)),
                data_encodable(v.take(i as int)),
            decreases self.data@.len() - i,
        {
            let item = &self.data[i];
            assert(v[i as int] == item@);
            if (item.len() as u64) > (u32::MAX as u64) {
                assert(!data_encodable(v));
                return Err(WireError::TooLarge);
            }
            match write_bytes_field(out, 3, item.as_slice()) {
                Ok(()) => {},
                Err(_) => return Err(WireError::TooLarge),
            }
            assert(v.take(i + 1).drop_last() =~= v.take(i as int));
            assert(v.take(i + 1).last() == item@);
            assert(data_encodable(v.take(i + 1))) by {
                assert forall|j: int| 0 <= j < i + 1 implies (#[trigger] v.take(i + 1)[j]).len() <= u32::MAX by {
                    if j < i {
                        assert(v.take(i + 1)[j] == v.take(i as int)[j]);
                    }
                }
            }
            i = i + 1;
        }
        assert(v.take(i as int) =~= v);
        Ok(())
    }

    /// Appends the encoding of the message to `out`.
    pub(crate) fn write_to(&self, out: &mut Vec<u8>) -> (r: Result<(), WireError>)
        ensures
            r is Ok <==> receipt_encodable(self@),
            r is Ok ==> final(out)@ == old(out)@ + encode_receipt(self@),
            r is Err ==> r == Err::<(), WireError>(WireError::TooLarge),
    {
        let ghost start = out@;
        self.write_state_changes(out)?;
        self.write_events(out)?;
        self.write_data(out)?;
        let transaction_id = self.transaction_id.as_str();
        let transaction_id_len = transaction_id.as_bytes().len();
        if (transaction_id_len as u64) > (u32::MAX as u64) {
            return Err(WireError::TooLarge);
        }
        if transaction_id_len != 0 {
            match write_string_field(out, 4, transaction_id) {
                Ok(()) => {},
                Err(_) => return Err(WireError::TooLarge),
            }
        }
        assert(out@ =~= start + encode_receipt(self@));
        Ok(())
    }

    /// The encoding of the message.
    pub fn write_to_bytes(&self) -> (r: Result<Vec<u8>, WireError>)
        ensures
            r is Ok <==> receipt_encodable(self@),
            r matches Ok(b) ==> b@ == encode_receipt(self@),
            r is Err ==> r == Err::<Vec<u8>, WireError>(WireError::TooLarge),
    {
        let mut out: Vec<u8> = Vec::new();
        match self.write_to(&mut out) {
            Ok(()) => {
                assert(out@ =~= encode_receipt(self@));
                Ok(out)
            },
            Err(e) => Err(e),
        }
    }

    /// Reads the message that `buf[start..end]` encodes, whose limit reaches
    /// `slack` bytes past `end`.
    pub(crate) fn parse_from_window(buf: &[u8], start: usize, end: usize, slack: u64) -> (r: Result<TransactionReceipt, WireError>)
        requires
            start <= end <= buf@.len(),
        ensures
            r is Ok <==> decode_receipt(window(buf@, start, end), slack as nat) is Some,
            r matches Ok(m) ==> decode_receipt(window(buf@, start, end), slack as nat) == Some(m@),
            r is Err ==> r == Err::<TransactionReceipt, WireError>(WireError::Malformed),
    {
        reveal(decode_receipt);
        let mut acc = TransactionReceipt::new();
        let mut pos = start;
        while pos < end
            invariant
                start <= pos <= end <= buf@.len(),
                decode_receipt(window(buf@, start, end), slack as nat) == parse_receipt(
                    window(buf@, pos, end),
                    slack as nat,
                    acc@,
                ),
            decreases end - pos,
        {
            let ghost b = window(buf@, pos, end);
            let (f, w, n) = match read_tag(buf, pos, end) {
                Ok(t) => t,
                Err(_) => return Err(WireError::Malformed),
            };
            proof {
                lemma_prefix_lengths(b, 0);
            }
            let body = pos + n;
            let ghost r = window(buf@, body, end);
            assert(b.skip(n as int) =~= r);
            if 1 <= f && f <= 4 && w != WIRE_LENGTH_DELIMITED {
                return Err(WireError::Malformed);
            }
            let ghost old_acc = acc@;
            if f == 1 {
                let (c, m) = match StateChange::read_nested(buf, body, end, slack) {
                    Ok(v) => v,
                    Err(e) => return Err(e),
                };
                proof {
                    lemma_prefix_lengths(r, slack as nat);
                }
                acc.state_changes.push(c);
                assert(acc@.state_changes =~= old_acc.state_changes.push(c@));
                pos = body + m;
                assert(r.skip(m as int) =~= window(buf@, pos, end));
            } else if f == 2 {
                let (e, m) = match Event::read_nested(buf, body, end, slack) {
                    Ok(v) => v,
                    Err(e) => return Err(e),
                };
                proof {
                    lemma_prefix_lengths(r, slack as nat);
                }
                acc.events.push(e);
                assert(acc@.events =~= old_acc.events.push(e@));
                pos = body + m;
                assert(r.skip(m as int) =~= window(buf@, pos, end));
            } else if f == 3 {
                let (d, m) = match read_bytes(buf, body, end) {
                    Ok(v) => v,
                    Err(_) => return Err(WireError::Malformed),
                };
                proof {
                    lemma_prefix_lengths(r, 0);
                }
                acc.data.push(d);
                assert(acc@.data =~= old_acc.data.push(d@));
                pos = body + m;
                assert(r.skip(m as int) =~= window(buf@, pos, end));
            } else if f == 4 {
                let (s, m) = match read_string(buf, body, end) {
                    Ok(v) => v,
                    Err(_) => return Err(WireError::Malformed),
                };
                proof {
                    lemma_prefix_lengths(r, 0);
                }
                acc.transaction_id = s;
                pos = body + m;
                assert(r.skip(m as int) =~= window(buf@, pos, end));
            } else {
                match skip_unknown_field(buf, body, end, f, w) {
                    Ok(m) => {
                        pos = body + m;
                        assert(r.skip(m as int) =~= window(buf@, pos, end));
                    },
                    Err(_) => return Err(WireError::Malformed),
                }
            }
        }
        assert(window(buf@, pos, end) =~= Seq::<u8>::empty());
        Ok(acc)
    }

    /// Reads the message that `bytes` encodes.
    pub fn parse_from_bytes(bytes: &[u8]) -> (r: Result<TransactionReceipt, WireError>)
        ensures
            r is Ok <==> decode_receipt(bytes@, top_level_slack(bytes@.len())) is Some,
            r matches Ok(m) ==> decode_receipt(bytes@, top_level_slack(bytes@.len())) == Some(m@),
            r is Err ==> r == Err::<TransactionReceipt, WireError>(WireError::Malformed),
    {
        let slack = u64::MAX - (bytes.len() as u64);
        let r = TransactionReceipt::parse_from_window(bytes, 0, bytes.len(), slack);
        assert(window(bytes@, 0, bytes.len()) =~= bytes@);
        r
    }
}

} // verus!
