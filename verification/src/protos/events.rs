//! The messages of `events.proto`:
//!
//! ```text
//! message Event {
//!     string event_type = 1;
//!     message Attribute {
//!         string key = 1;
//!         string value = 2;
//!     }
//!     repeated Attribute attributes = 2;
//!     bytes data = 3;
//! }
//! ```
//!
//! Written and read as `transaction_receipt` describes for its messages.

use crate::protos::wire::{
    delimited_field, delimited_prefix, lemma_delimited_field_len, lemma_delimited_field_roundtrip, lemma_nested_field_roundtrip,
    lemma_prefix_lengths, lemma_string_field_roundtrip, nested_prefix, protobuf_unknown_field_len,
    read_bytes, read_string, read_tag, read_varint64, skip_unknown_field, string_prefix, tag_prefix,
    top_level_slack,
    window, write_bytes_field, write_string_field, WireError, WIRE_LENGTH_DELIMITED,
};
use vstd::prelude::*;
use vstd::utf8::*;

verus! {

/// The `Event.Attribute` message: a key and a value.
#[allow(non_camel_case_types)]
#[derive(Debug, Clone, PartialEq, Eq)]
pub struct Event_Attribute {
    pub key: String,
    pub value: String,
}

/// The value of an `Event.Attribute` message.
pub struct AttributeView {
    pub key: Seq<char>,
    pub value: Seq<char>,
}

impl View for Event_Attribute {
    type V = AttributeView;

    open spec fn view(&self) -> AttributeView {
        AttributeView { key: self.key@, value: self.value@ }
    }
}

/// The `Event.Attribute` message with both fields empty.
pub open spec fn empty_attribute() -> AttributeView {
    AttributeView { key: Seq::empty(), value: Seq::empty() }
}

/// Whether every length in the encoding of `a` fits a protobuf length.
pub open spec fn attribute_encodable(a: AttributeView) -> bool {
    encode_utf8(a.key).len() <= u32::MAX && encode_utf8(a.value).len() <= u32::MAX
}

/// The encoding of an `Event.Attribute` message.
pub open spec fn encode_attribute(a: AttributeView) -> Seq<u8> {
    (if a.key.len() == 0 {
        Seq::empty()
    } else {
        delimited_field(1, encode_utf8(a.key))
    }) + (if a.value.len() == 0 {
        Seq::empty()
    } else {
        delimited_field(2, encode_utf8(a.value))
    })
}

/// Reads the fields of an `Event.Attribute` message from `b` on top of `acc`.
pub open spec fn parse_attribute(b: Seq<u8>, acc: AttributeView) -> Option<AttributeView>
    decreases b.len(),
{
    if b.len() == 0 {
        Some(acc)
    } else {
        match tag_prefix(b) {
            None => None,
            Some((f, w, n)) => {
                proof {
                    lemma_prefix_lengths(b, 0);
                }
                let r = b.skip(n as int);
                if f == 1 || f == 2 {
                    if w != WIRE_LENGTH_DELIMITED {
                        None
                    } else {
                        match string_prefix(r) {
                            Some((s, m)) => {
                                proof {
                                    lemma_prefix_lengths(r, 0);
                                }
                                parse_attribute(
                                    r.skip(m as int),
                                    if f == 1 {
                                        AttributeView { key: s, ..acc }
                                    } else {
                                        AttributeView { value: s, ..acc }
                                    },
                                )
                            },
                            None => None,
                        }
                    }
                } else {
                    match protobuf_unknown_field_len(r, f, w) {
                        Some(m) => if m <= r.len() {
                            parse_attribute(r.skip(m as int), acc)
                        } else {
                            None
                        },
                        None => None,
                    }
                }
            },
        }
    }
}

/// The `Event.Attribute` message that `b` encodes, if it encodes one.
#[verifier::opaque]
pub open spec fn decode_attribute(b: Seq<u8>) -> Option<AttributeView> {
    parse_attribute(b, empty_attribute())
}

/// The `Event` message.
#[derive(Debug, Clone, PartialEq, Eq)]
pub struct Event {
    pub event_type: String,
    pub attributes: Vec<Event_Attribute>,
    pub data: Vec<u8>,
}

/// The value of an `Event` message.
pub struct EventView {
    pub event_type: Seq<char>,
    pub attributes: Seq<AttributeView>,
    pub data: Seq<u8>,
}

/// The values of a sequence of attribute messages.
pub open spec fn attribute_views(attrs: Seq<Event_Attribute>) -> Seq<AttributeView> {
    attrs.map_values(|a: Event_Attribute| a@)
}

impl View for Event {
    type V = EventView;

    open spec fn view(&self) -> EventView {
        EventView { event_type: self.event_type@, attributes: attribute_views(self.attributes@), data: self.data@ }
    }
}

/// The `Event` message with every field at its default.
pub open spec fn empty_event() -> EventView {
    EventView { event_type: Seq::empty(), attributes: Seq::empty(), data: Seq::empty() }
}

/// Whether each attribute can be written as an embedded message.
pub open spec fn attributes_encodable(attrs: Seq<AttributeView>) -> bool {
    forall|i: int|
        0 <= i < attrs.len() ==> attribute_encodable(#[trigger] attrs[i]) && encode_attribute(attrs[i]).len()
            <= u32::MAX
}

/// Whether every length in the encoding of `m` fits a protobuf length.
pub open spec fn event_encodable(m: EventView) -> bool {
    &&& encode_utf8(m.event_type).len() <= u32::MAX
    &&& attributes_encodable(m.attributes)
    &&& m.data.len() <= u32::MAX
}

/// The attributes written as repeated field 2, in order.
pub open spec fn encode_attributes(attrs: Seq<AttributeView>) -> Seq<u8>
    decreases attrs.len(),
{
    if attrs.len() == 0 {
        Seq::empty()
    } else {
        encode_attributes(attrs.drop_last()) + delimited_field(2, encode_attribute(attrs.last()))
    }
}

/// The encoding of an `Event` message.
pub open spec fn encode_event(m: EventView) -> Seq<u8> {
    (if m.event_type.len() == 0 {
        Seq::empty()
    } else {
        delimited_field(1, encode_utf8(m.event_type))
    }) + encode_attributes(m.attributes) + (if m.data.len() == 0 {
        Seq::empty()
    } else {
        delimited_field(3, m.data)
    })
}

/// Reads the fields of an `Event` message from `b` on top of `acc`; the
/// message's limit reaches `slack` bytes past the end of `b`.
pub open spec fn parse_event(b: Seq<u8>, slack: nat, acc: EventView) -> Option<EventView>
    decreases b.len(),
{
    if b.len() == 0 {
        Some(acc)
    } else {
        match tag_prefix(b) {
            None => None,
            Some((f, w, n)) => {
                proof {
                    lemma_prefix_lengths(b, 0);
                }
                let r = b.skip(n as int);
                if f == 1 {
                    if w != WIRE_LENGTH_DELIMITED {
                        None
                    } else {
                        match string_prefix(r) {
                            Some((s, m)) => {
                                proof {
                                    lemma_prefix_lengths(r, 0);
                                }
                                parse_event(r.skip(m as int), slack, EventView { event_type: s, ..acc })
                            },
                            None => None,
                        }
                    }
                } else if f == 2 {
                    if w != WIRE_LENGTH_DELIMITED {
                        None
                    } else {
                        match nested_prefix(r, slack) {
                            Some((sub, _sub_slack, m)) => {
                                proof {
                                    lemma_prefix_lengths(r, slack);
                                }
                                match decode_attribute(sub) {
                                    Some(a) => parse_event(
                                        r.skip(m as int),
                                        slack,
                                        EventView { attributes: acc.attributes.push(a), ..acc },
                                    ),
                                    None => None,
                                }
                            },
                            None => None,
                        }
                    }
                } else if f == 3 {
                    if w != WIRE_LENGTH_DELIMITED {
                        None
                    } else {
                        match delimited_prefix(r) {
                            Some((p, m)) => {
                                proof {
                                    lemma_prefix_lengths(r, 0);
                                }
                                parse_event(r.skip(m as int), slack, EventView { data: p, ..acc })
                            },
                            None => None,
                        }
                    }
                } else {
                    match protobuf_unknown_field_len(r, f, w) {
                        Some(m) => if m <= r.len() {
                            parse_event(r.skip(m as int), slack, acc)
                        } else {
                            None
                        },
                        None => None,
                    }
                }
            },
        }
    }
}

/// The `Event` message that `b` encodes, if it encodes one, read with the
/// message's limit `slack` bytes past the end of `b`.
#[verifier::opaque]
pub open spec fn decode_event(b: Seq<u8>, slack: nat) -> Option<EventView> {
    parse_event(b, slack, empty_event())
}

// ---------------------------------------------------------------------------
// Reading back what was written

/// Reading a key field sets the key.
proof fn lemma_parse_key_field(s: Seq<char>, rest: Seq<u8>, acc: AttributeView)
    requires
        encode_utf8(s).len() <= u32::MAX,
    ensures
        parse_attribute(delimited_field(1, encode_utf8(s)) + rest, acc) == parse_attribute(
            rest,
            AttributeView { key: s, ..acc },
        ),
{
    lemma_string_field_roundtrip(1, s, rest);
}

/// Reading a value field sets the value.
proof fn lemma_parse_attribute_value_field(s: Seq<char>, rest: Seq<u8>, acc: AttributeView)
    requires
        encode_utf8(s).len() <= u32::MAX,
    ensures
        parse_attribute(delimited_field(2, encode_utf8(s)) + rest, acc) == parse_attribute(
            rest,
            AttributeView { value: s, ..acc },
        ),
{
    lemma_string_field_roundtrip(2, s, rest);
}

/// Reading the encoding of an `Event.Attribute` message gives back the
/// message.
pub proof fn lemma_attribute_roundtrip(a: AttributeView)
    requires
        attribute_encodable(a),
    ensures
        decode_attribute(encode_attribute(a)) == Some(a),
{
    reveal(decode_attribute);
    let k: Seq<u8> = if a.key.len() == 0 {
        Seq::empty()
    } else {
        delimited_field(1, encode_utf8(a.key))
    };
    let v: Seq<u8> = if a.value.len() == 0 {
        Seq::empty()
    } else {
        delimited_field(2, encode_utf8(a.value))
    };
    let acc0 = empty_attribute();
    let acc1 = AttributeView { key: a.key, ..acc0 };
    assert(encode_attribute(a) =~= k + v);
    if a.key.len() == 0 {
        assert(acc1.key =~= acc0.key);
        assert(k + v =~= v);
    } else {
        lemma_parse_key_field(a.key, v, acc0);
    }
    if a.value.len() == 0 {
        assert(a.value =~= acc1.value);
        assert(v =~= Seq::<u8>::empty());
    } else {
        assert(v + Seq::<u8>::empty() =~= v);
        lemma_parse_attribute_value_field(a.value, Seq::empty(), acc1);
    }
}

/// Reading the attributes written as repeated field 2 appends them.
pub proof fn lemma_parse_attributes(attrs: Seq<AttributeView>, rest: Seq<u8>, slack: nat, acc: EventView)
    requires
        attributes_encodable(attrs),
    ensures
        parse_event(encode_attributes(attrs) + rest, slack, acc) == parse_event(
            rest,
            slack,
            EventView { attributes: acc.attributes + attrs, ..acc },
        ),
    decreases attrs.len(),
{
    if attrs.len() == 0 {
        assert(encode_attributes(attrs) + rest =~= rest);
        assert(acc.attributes + attrs =~= acc.attributes);
    } else {
        let init = attrs.drop_last();
        let last = attrs.last();
        let field = delimited_field(2, encode_attribute(last));
        assert(attributes_encodable(init)) by {
            assert forall|i: int| 0 <= i < init.len() implies attribute_encodable(#[trigger] init[i])
                && encode_attribute(init[i]).len() <= u32::MAX by {
                assert(init[i] == attrs[i]);
            }
        }
        assert(attribute_encodable(attrs[attrs.len() - 1]));
        assert(encode_attributes(attrs) + rest =~= encode_attributes(init) + (field + rest));
        lemma_parse_attributes(init, field + rest, slack, acc);
        let acc1 = EventView { attributes: acc.attributes + init, ..acc };
        lemma_nested_field_roundtrip(2, encode_attribute(last), rest, slack);
        lemma_attribute_roundtrip(last);
        assert(acc1.attributes.push(last) =~= acc.attributes + attrs);
    }
}

/// Reading the encoding of an `Event` message gives back the message.
pub proof fn lemma_event_parse_encoding(m: EventView, rest: Seq<u8>, slack: nat)
    requires
        event_encodable(m),
    ensures
        parse_event(encode_event(m) + rest, slack, empty_event()) == parse_event(rest, slack, m),
{
    let t: Seq<u8> = if m.event_type.len() == 0 {
        Seq::empty()
    } else {
        delimited_field(1, encode_utf8(m.event_type))
    };
    let at = encode_attributes(m.attributes);
    let d: Seq<u8> = if m.data.len() == 0 {
        Seq::empty()
    } else {
        delimited_field(3, m.data)
    };
    let acc0 = empty_event();
    let acc1 = EventView { event_type: m.event_type, ..acc0 };
    let acc2 = EventView { attributes: acc1.attributes + m.attributes, ..acc1 };
    assert(encode_event(m) + rest =~= t + (at + (d + rest)));
    if m.event_type.len() == 0 {
        assert(acc1.event_type =~= acc0.event_type);
        assert(t + (at + (d + rest)) =~= at + (d + rest));
    } else {
        lemma_string_field_roundtrip(1, m.event_type, at + (d + rest));
    }
    lemma_parse_attributes(m.attributes, d + rest, slack, acc1);
    assert(acc2.attributes =~= m.attributes);
    if m.data.len() == 0 {
        assert(d + rest =~= rest);
        assert(m.data =~= acc2.data);
        assert(acc2 == m);
    } else {
        lemma_delimited_field_roundtrip(3, m.data, rest);
        assert(EventView { data: m.data, ..acc2 } == m);
    }
}

/// Reading the encoding of an `Event` message gives back the message.
pub proof fn lemma_event_roundtrip(m: EventView, slack: nat)
    requires
        event_encodable(m),
    ensures
        decode_event(encode_event(m), slack) == Some(m),
{
    reveal(decode_event);
    lemma_event_parse_encoding(m, Seq::empty(), slack);
    assert(encode_event(m) + Seq::<u8>::empty() =~= encode_event(m));
}

/// Attributes are written one after another in their order: writing two
/// lists one after the other gives the writing of the joined list.
pub proof fn lemma_encode_attributes_append(a: Seq<AttributeView>, b: Seq<AttributeView>)
    ensures
        encode_attributes(a + b) == encode_attributes(a) + encode_attributes(b),
    decreases b.len(),
{
    if b.len() == 0 {
        assert(a + b =~= a);
        assert(encode_attributes(a) + Seq::<u8>::empty() =~= encode_attributes(a));
    } else {
        lemma_encode_attributes_append(a, b.drop_last());
        assert((a + b).drop_last() =~= a + b.drop_last());
        assert((a + b).last() == b.last());
        assert(encode_attributes(a + b) =~= encode_attributes(a) + encode_attributes(b));
    }
}

// ---------------------------------------------------------------------------
// Sizes

/// A bound on the bytes that attributes take when written: the UTF-8 of
/// each key and value, and 18 bytes for each attribute's tags and lengths.
pub open spec fn attributes_size(attrs: Seq<AttributeView>) -> nat
    decreases attrs.len(),
{
    if attrs.len() == 0 {
        0
    } else {
        attributes_size(attrs.drop_last()) + encode_utf8(attrs.last().key).len() + encode_utf8(
            attrs.last().value,
        ).len() + 18
    }
}

/// A bound on the bytes that an `Event` message takes when written: the
/// UTF-8 of its type, its data, the size of its attributes, and 12 bytes
/// for the tags and lengths of its type and data.
pub open spec fn event_size(m: EventView) -> nat {
    encode_utf8(m.event_type).len() + attributes_size(m.attributes) + m.data.len() + 12
}

/// An attribute whose key and value fit together with their framing in a
/// protobuf length can be written, in at most 12 bytes more than they take.
pub proof fn lemma_attribute_size(a: AttributeView)
    requires
        encode_utf8(a.key).len() + encode_utf8(a.value).len() + 12 <= u32::MAX,
    ensures
        attribute_encodable(a),
        encode_attribute(a).len() <= encode_utf8(a.key).len() + encode_utf8(a.value).len() + 12,
{
    lemma_delimited_field_len(1, encode_utf8(a.key));
    lemma_delimited_field_len(2, encode_utf8(a.value));
}

/// Attributes of a size that fits a protobuf length can each be written,
/// and all of them take no more than their size.
pub proof fn lemma_attributes_size(attrs: Seq<AttributeView>)
    requires
        attributes_size(attrs) <= u32::MAX,
    ensures
        attributes_encodable(attrs),
        encode_attributes(attrs).len() <= attributes_size(attrs),
    decreases attrs.len(),
{
    if attrs.len() > 0 {
        let init = attrs.drop_last();
        let a = attrs.last();
        lemma_attributes_size(init);
        lemma_attribute_size(a);
        lemma_delimited_field_len(2, encode_attribute(a));
        assert forall|i: int| 0 <= i < attrs.len() implies attribute_encodable(#[trigger] attrs[i])
            && encode_attribute(attrs[i]).len() <= u32::MAX by {
            if i < attrs.len() - 1 {
                assert(attrs[i] == init[i]);
            }
        }
    }
}

/// An `Event` message whose size fits a protobuf length can be written, and
/// takes no more than its size.
pub proof fn lemma_event_size(m: EventView)
    requires
        event_size(m) <= u32::MAX,
    ensures
        event_encodable(m),
        encode_event(m).len() <= event_size(m),
{
    lemma_attributes_size(m.attributes);
    lemma_delimited_field_len(1, encode_utf8(m.event_type));
    lemma_delimited_field_len(3, m.data);
}

// ---------------------------------------------------------------------------
// Executable writing and reading

impl Event_Attribute {
    /// An `Event.Attribute` message with both fields empty.
    pub fn new() -> (r: Event_Attribute)
        ensures
            r@ == empty_attribute(),
    {
        Event_Attribute { key: String::new(), value: String::new() }
    }

    /// Appends the encoding of the message to `out`.
    pub(crate) fn write_to(&self, out: &mut Vec<u8>) -> (r: Result<(), WireError>)
        ensures
            r is Ok <==> attribute_encodable(self@),
            r is Ok ==> final(out)@ == old(out)@ + encode_attribute(self@),
            r is Err ==> r == Err::<(), WireError>(WireError::TooLarge),
    {
        let key = self.key.as_str();
        let value = self.value.as_str();
        let key_len = key.as_bytes().len();
        let value_len = value.as_bytes().len();
        if (key_len as u64) > (u32::MAX as u64) || (value_len as u64) > (u32::MAX as u64) {
            return Err(WireError::TooLarge);
        }
        let ghost start = out@;
        if key_len != 0 {
            match write_string_field(out, 1, key) {
                Ok(()) => {},
                Err(_) => return Err(WireError::TooLarge),
            }
        }
        if value_len != 0 {
            match write_string_field(out, 2, value) {
                Ok(()) => {},
                Err(_) => return Err(WireError::TooLarge),
            }
        }
        assert(out@ =~= start + encode_attribute(self@));
        Ok(())
    }

    /// The encoding of the message.
    pub fn write_to_bytes(&self) -> (r: Result<Vec<u8>, WireError>)
        ensures
            r is Ok <==> attribute_encodable(self@),
            r matches Ok(b) ==> b@ == encode_attribute(self@),
            r is Err ==> r == Err::<Vec<u8>, WireError>(WireError::TooLarge),
    {
        let mut out: Vec<u8> = Vec::new();
        match self.write_to(&mut out) {
            Ok(()) => {
                assert(out@ =~= encode_attribute(self@));
                Ok(out)
            },
            Err(e) => Err(e),
        }
    }

    /// Reads the message that `buf[start..end]` encodes.
    pub(crate) fn parse_from_window(buf: &[u8], start: usize, end: usize) -> (r: Result<Event_Attribute, WireError>)
        requires
            start <= end <= buf@.len(),
        ensures
            r is Ok <==> decode_attribute(window(buf@, start, end)) is Some,
            r matches Ok(m) ==> decode_attribute(window(buf@, start, end)) == Some(m@),
            r is Err ==> r == Err::<Event_Attribute, WireError>(WireError::Malformed),
    {
        reveal(decode_attribute);
        let mut acc = Event_Attribute::new();
        let mut pos = start;
        while pos < end
            invariant
                start <= pos <= end <= buf@.len(),
                decode_attribute(window(buf@, start, end)) == parse_attribute(window(buf@, pos, end), acc@),
            decreases end - pos,
        {
            let ghost b = window(buf@, pos, end);
            let (f, w, n) = match read_tag(buf, pos, end) {
                Ok(t) => t,
                Err(_) => return Err(WireError::Malformed),
            };
            proof {
                lemma_prefix_lengths(b, 0);
            }
            let body = pos + n;
            assert(b.skip(n as int) =~= window(buf@, body, end));
            if f == 1 || f == 2 {
                if w != WIRE_LENGTH_DELIMITED {
                    return Err(WireError::Malformed);
                }
                match read_string(buf, body, end) {
                    Ok((s, m)) => {
                        proof {
                            lemma_prefix_lengths(window(buf@, body, end), 0);
                        }
                        if f == 1 {
                            acc.key = s;
                        } else {
                            acc.value = s;
                        }
                        pos = body + m;
                        assert(window(buf@, body, end).skip(m as int) =~= window(buf@, pos, end));
                    },
                    Err(_) => return Err(WireError::Malformed),
                }
            } else {
                match skip_unknown_field(buf, body, end, f, w) {
                    Ok(m) => {
                        pos = body + m;
                        assert(window(buf@, body, end).skip(m as int) =~= window(buf@, pos, end));
                    },
                    Err(_) => return Err(WireError::Malformed),
                }
            }
        }
        assert(window(buf@, pos, end) =~= Seq::<u8>::empty());
        Ok(acc)
    }

    /// Reads an embedded `Event.Attribute` message (its length, then its
    /// bytes) from the front of `buf[start..end]`, under a limit that reaches
    /// `slack` bytes past `end`. Gives the message and the number of bytes
    /// taken.
    pub(crate) fn read_nested(buf: &[u8], start: usize, end: usize, slack: u64) -> (r: Result<(Event_Attribute, usize), WireError>)
        requires
            start <= end <= buf@.len(),
        ensures
            r is Ok <==> (nested_prefix(window(buf@, start, end), slack as nat) matches Some((sub, _s, _m))
                && decode_attribute(sub) is Some),
            r matches Ok((a, k)) ==> (nested_prefix(window(buf@, start, end), slack as nat) matches Some((sub, _s, m))
                && k == m && decode_attribute(sub) == Some(a@)),
            r is Err ==> r == Err::<(Event_Attribute, usize), WireError>(WireError::Malformed),
    {
        let ghost b = window(buf@, start, end);
        let (len, n) = match read_varint64(buf, start, end) {
            Ok(v) => v,
            Err(_) => return Err(WireError::Malformed),
        };
        proof {
            lemma_prefix_lengths(b, 0);
        }
        let sub_start = start + n;
        let avail = end - sub_start;
        let sub_len: usize;
        if len <= avail as u64 {
            sub_len = len as usize;
        } else {
            if len - (avail as u64) > slack {
                return Err(WireError::Malformed);
            }
            sub_len = avail;
        }
        let sub_end = sub_start + sub_len;
        assert(b.subrange(n as int, n + sub_len) =~= window(buf@, sub_start, sub_end));
        match Event_Attribute::parse_from_window(buf, sub_start, sub_end) {
            Ok(a) => Ok((a, n + sub_len)),
            Err(e) => Err(e),
        }
    }

    /// Reads the message that `bytes` encodes.
    pub fn parse_from_bytes(bytes: &[u8]) -> (r: Result<Event_Attribute, WireError>)
        ensures
            r is Ok <==> decode_attribute(bytes@) is Some,
            r matches Ok(m) ==> decode_attribute(bytes@) == Some(m@),
            r is Err ==> r == Err::<Event_Attribute, WireError>(WireError::Malformed),
    {
        let r = Event_Attribute::parse_from_window(bytes, 0, bytes.len());
        assert(window(bytes@, 0, bytes.len()) =~= bytes@);
        r
    }
}

impl Event {
    /// An `Event` message with every field at its default.
    pub fn new() -> (r: Event)
        ensures
            r@ == empty_event(),
    {
        let r = Event { event_type: String::new(), attributes: Vec::new(), data: Vec::new() };
        assert(r@.attributes =~= Seq::<AttributeView>::empty());
        r
    }

    /// Appends the encoding of the message to `out`.
    pub(crate) fn write_to(&self, out: &mut Vec<u8>) -> (r: Result<(), WireError>)
        ensures
            r is Ok <==> event_encodable(self@),
            r is Ok ==> final(out)@ == old(out)@ + encode_event(self@),
            r is Err ==> r == Err::<(), WireError>(WireError::TooLarge),
    {
        let event_type = self.event_type.as_str();
        let event_type_len = event_type.as_bytes().len();
        if (event_type_len as u64) > (u32::MAX as u64) || (self.data.len() as u64) > (u32::MAX as u64) {
            return Err(WireError::TooLarge);
        }
        let ghost start = out@;
        if event_type_len != 0 {
            match write_string_field(out, 1, event_type) {
                Ok(()) => {},
                Err(_) => return Err(WireError::TooLarge),
            }
        }
        let ghost after_type = out@;
        let ghost attrs = self@.attributes;
        let mut i: usize = 0;
        while i < self.attributes.len()
            invariant
                i <= self.attributes@.len(),
                attrs == self@.attributes,
                out@ == after_type + encode_attributes(attrs.take(i as int)),
                attributes_encodable(attrs.take(i as int)),
            decreases self.attributes@.len() - i,
        {
            let mut body: Vec<u8> = Vec::new();
            let ghost a = self.attributes@[i as int]@;
            assert(attrs[i as int] == a);
            match self.attributes[i].write_to(&mut body) {
                Ok(()) => {},
                Err(e) => {
                    assert(!attributes_encodable(attrs));
                    return Err(e);
                },
            }
            assert(body@ =~= encode_attribute(a));
            if (body.len() as u64) > (u32::MAX as u64) {
                assert(!attributes_encodable(attrs));
                return Err(WireError::TooLarge);
            }
            match write_bytes_field(out, 2, body.as_slice()) {
                Ok(()) => {},
                Err(_) => return Err(WireError::TooLarge),
            }
            assert(attrs.take(i + 1).drop_last() =~= attrs.take(i as int));
            assert(attrs.take(i + 1).last() == a);
            assert(attributes_encodable(attrs.take(i + 1))) by {
                assert forall|j: int| 0 <= j < i + 1 implies attribute_encodable(#[trigger] attrs.take(i + 1)[j])
                    && encode_attribute(attrs.take(i + 1)[j]).len() <= u32::MAX by {
                    if j < i {
                        assert(attrs.take(i + 1)[j] == attrs.take(i as int)[j]);
                    }
                }
            }
            i = i + 1;
        }
        assert(attrs.take(i as int) =~= attrs);
        if self.data.len() != 0 {
            match write_bytes_field(out, 3, self.data.as_slice()) {
                Ok(()) => {},
                Err(_) => return Err(WireError::TooLarge),
            }
        }
        assert(out@ =~= start + encode_event(self@));
        Ok(())
    }

    /// The encoding of the message.
    pub fn write_to_bytes(&self) -> (r: Result<Vec<u8>, WireError>)
        ensures
            r is Ok <==> event_encodable(self@),
            r matches Ok(b) ==> b@ == encode_event(self@),
            r is Err ==> r == Err::<Vec<u8>, WireError>(WireError::TooLarge),
    {
        let mut out: Vec<u8> = Vec::new();
        match self.write_to(&mut out) {
            Ok(()) => {
                assert(out@ =~= encode_event(self@));
                Ok(out)
            },
            Err(e) => Err(e),
        }
    }

    /// Reads the message that `buf[start..end]` encodes, whose limit reaches
    /// `slack` bytes past `end`.
    pub(crate) fn parse_from_window(buf: &[u8], start: usize, end: usize, slack: u64) -> (r: Result<Event, WireError>)
        requires
            start <= end <= buf@.len(),
        ensures
            r is Ok <==> decode_event(window(buf@, start, end), slack as nat) is Some,
            r matches Ok(m) ==> decode_event(window(buf@, start, end), slack as nat) == Some(m@),
            r is Err ==> r == Err::<Event, WireError>(WireError::Malformed),
    {
        reveal(decode_event);
        let mut acc = Event::new();
        let mut pos = start;
        while pos < end
            invariant
                start <= pos <= end <= buf@.len(),
                decode_event(window(buf@, start, end), slack as nat) == parse_event(
                    window(buf@, pos, end),
                    slack as nat,
                    acc@,
                ),
            decreases end - pos,
        {
            let ghost b = window(buf@, pos, end);
            let (f, w, n) = match read_tag(buf, pos, end) {
                Ok(t) => t,
                Err(_) => return Err(WireError::Malformed),
            };
            proof {
                lemma_prefix_lengths(b, 0);
            }
            let body = pos + n;
            let ghost r = window(buf@, body, end);
            assert(b.skip(n as int) =~= r);
            if f == 1 {
                if w != WIRE_LENGTH_DELIMITED {
                    return Err(WireError::Malformed);
                }
                match read_string(buf, body, end) {
                    Ok((s, m)) => {
                        proof {
                            lemma_prefix_lengths(r, 0);
                        }
                        acc.event_type = s;
                        pos = body + m;
                        assert(r.skip(m as int) =~= window(buf@, pos, end));
                    },
                    Err(_) => return Err(WireError::Malformed),
                }
            } else if f == 2 {
                if w != WIRE_LENGTH_DELIMITED {
                    return Err(WireError::Malformed);
                }
                let (a, m) = match Event_Attribute::read_nested(buf, body, end, slack) {
                    Ok(v) => v,
                    Err(e) => return Err(e),
                };
                proof {
                    lemma_prefix_lengths(r, slack as nat);
                }
                let ghost old_acc = acc@;
                acc.attributes.push(a);
                assert(acc@.attributes =~= old_acc.attributes.push(a@));
                pos = body + m;
                assert(r.skip(m as int) =~= window(buf@, pos, end));
            } else if f == 3 {
                if w != WIRE_LENGTH_DELIMITED {
                    return Err(WireError::Malformed);
                }
                match read_bytes(buf, body, end) {
                    Ok((v, m)) => {
                        proof {
                            lemma_prefix_lengths(r, 0);
                        }
                        acc.data = v;
                        pos = body + m;
                        assert(r.skip(m as int) =~= window(buf@, pos, end));
                    },
                    Err(_) => return Err(WireError::Malformed),
                }
            } else {
                match skip_unknown_field(buf, body, end, f, w) {
                    Ok(m) => {
                        pos = body + m;
                        assert(r.skip(m as int) =~= window(buf@, pos, end));
                    },
                    Err(_) => return Err(WireError::Malformed),
                }
            }
        }
        assert(window(buf@, pos, end) =~= Seq::<u8>::empty());
        Ok(acc)
    }

    /// Reads an embedded `Event` message (its length, then its bytes) from
    /// the front of `buf[start..end]`, under a limit that reaches `slack`
    /// bytes past `end`. Gives the message and the number of bytes taken.
    pub(crate) fn read_nested(buf: &[u8], start: usize, end: usize, slack: u64) -> (r: Result<(Event, usize), WireError>)
        requires
            start <= end <= buf@.len(),
        ensures
            r is Ok <==> (nested_prefix(window(buf@, start, end), slack as nat) matches Some((sub, s, _m))
                && decode_event(sub, s) is Some),
            r matches Ok((e, k)) ==> (nested_prefix(window(buf@, start, end), slack as nat) matches Some((sub, s, m))
                && k == m && decode_event(sub, s) == Some(e@)),
            r is Err ==> r == Err::<(Event, usize), WireError>(WireError::Malformed),
    {
        let ghost b = window(buf@, start, end);
        let (len, n) = match read_varint64(buf, start, end) {
            Ok(v) => v,
            Err(_) => return Err(WireError::Malformed),
        };
        proof {
            lemma_prefix_lengths(b, 0);
        }
        let sub_start = start + n;
        let avail = end - sub_start;
        let sub_len: usize;
        if len <= avail as u64 {
            sub_len = len as usize;
        } else {
            if len - (avail as u64) > slack {
                return Err(WireError::Malformed);
            }
            sub_len = avail;
        }
        let sub_end = sub_start + sub_len;
        let sub_slack = len - (sub_len as u64);
        assert(b.subrange(n as int, n + sub_len) =~= window(buf@, sub_start, sub_end));
        match Event::parse_from_window(buf, sub_start, sub_end, sub_slack) {
            Ok(e) => Ok((e, n + sub_len)),
            Err(e) => Err(e),
        }
    }

    /// Reads the message that `bytes` encodes.
    pub fn parse_from_bytes(bytes: &[u8]) -> (r: Result<Event, WireError>)
        ensures
            r is Ok <==> decode_event(bytes@, top_level_slack(bytes@.len())) is Some,
            r matches Ok(m) ==> decode_event(bytes@, top_level_slack(bytes@.len())) == Some(m@),
            r is Err ==> r == Err::<Event, WireError>(WireError::Malformed),
    {
        let slack = u64::MAX - (bytes.len() as u64);
        let r = Event::parse_from_window(bytes, 0, bytes.len(), slack);
        assert(window(bytes@, 0, bytes.len()) =~= bytes@);
        r
    }
}

} // verus!
