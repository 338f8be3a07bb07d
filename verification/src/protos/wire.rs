//! The protobuf wire format, as far as the protocol's messages use it, and the
//! primitive reads and writes of the `protobuf` crate that the message codecs
//! are built on.
//!
//! The spec functions here describe byte sequences: how a value is written
//! (`varint_bytes`, `delimited_field`, `varint_field`) and what one reading
//! step takes from the front of a byte sequence (`tag_prefix`,
//! `delimited_prefix`, `string_prefix`, `int32_prefix`, `nested_prefix`).
//! The lemmas show that each reading step gives back what the matching write
//! wrote.

use protobuf::rt::read_unknown_or_skip_group;
use protobuf::wire_format::WireType;
use protobuf::CodedInputStream;
use protobuf::CodedOutputStream;
use protobuf::ProtobufError;
use protobuf::UnknownFields;
use vstd::prelude::*;
use vstd::utf8::*;

verus! {

/// Errors that the `protobuf` crate reports.
#[verifier::external_type_specification]
#[verifier::external_body]
pub struct ExProtobufError(ProtobufError);

/// Why a message could not be written or read.
#[derive(Debug, Clone, Copy, PartialEq, Eq)]
pub enum WireError {
    /// A length-delimited value of the message is longer than a protobuf
    /// length (a 32-bit number) can say.
    TooLarge,
    /// The bytes are not an encoding of the message.
    Malformed,
}

/// Largest field number a protobuf tag can carry.
pub const FIELD_NUMBER_MAX: u32 = 0x1fff_ffff;

/// Wire type of varint-encoded values.
pub const WIRE_VARINT: u8 = 0;

/// Wire type of length-delimited values (strings, bytes, messages).
pub const WIRE_LENGTH_DELIMITED: u8 = 2;

/// 2 to the 32nd.
pub open spec fn two_pow_32() -> nat {
    0x1_0000_0000
}

/// 2 to the 64th.
pub open spec fn two_pow_64() -> nat {
    0x1_0000_0000_0000_0000
}

/// The base-128 varint encoding of `v`: seven bits per byte, least
/// significant group first, the high bit set on every byte but the last.
pub open spec fn varint_bytes(v: nat) -> Seq<u8>
    decreases v,
{
    if v < 128 {
        seq![v as u8]
    } else {
        seq![(v % 128 + 128) as u8] + varint_bytes(v / 128)
    }
}

/// A length-delimited field: the tag (field number, wire type 2), the length
/// of the payload as a varint, then the payload.
pub open spec fn delimited_field(field: nat, payload: Seq<u8>) -> Seq<u8> {
    varint_bytes(field * 8 + 2) + varint_bytes(payload.len()) + payload
}

/// A varint field: the tag (field number, wire type 0), then the value as a
/// varint.
pub open spec fn varint_field(field: nat, value: nat) -> Seq<u8> {
    varint_bytes(field * 8) + varint_bytes(value)
}

/// The varint at the front of `b`, read as a protobuf stream reads one: at
/// most `max_len` bytes, each contributing its low seven bits, ending at the
/// first byte below 0x80. Gives the exact value of the groups read and the
/// number of bytes taken, or `None` when `b` ends first or `max_len` bytes
/// all have the high bit set.
pub open spec fn varint_prefix(b: Seq<u8>, max_len: nat) -> Option<(nat, nat)>
    decreases max_len,
{
    if max_len == 0 || b.len() == 0 {
        None
    } else if b[0] < 128 {
        Some((b[0] as nat, 1nat))
    } else {
        match varint_prefix(b.drop_first(), (max_len - 1) as nat) {
            Some((v, n)) => Some(((b[0] - 128) as nat + 128 * v, n + 1)),
            None => None,
        }
    }
}

/// A 64-bit varint at the front of `b` (at most ten bytes, value taken
/// modulo 2^64), and the number of bytes it takes.
pub open spec fn varint64_prefix(b: Seq<u8>) -> Option<(u64, nat)> {
    match varint_prefix(b, 10) {
        Some((v, n)) => Some(((v % two_pow_64()) as u64, n)),
        None => None,
    }
}

/// A 32-bit varint at the front of `b`: the 64-bit varint truncated to its
/// low 32 bits.
pub open spec fn varint32_prefix(b: Seq<u8>) -> Option<(u32, nat)> {
    match varint_prefix(b, 10) {
        Some((v, n)) => Some(((v % two_pow_32()) as u32, n)),
        None => None,
    }
}

/// A tag at the front of `b`: a 32-bit varint whose low three bits are a
/// wire type from 0 to 5 and whose other bits are a nonzero field number.
/// Gives the field number, the wire type and the length of the tag.
pub open spec fn tag_prefix(b: Seq<u8>) -> Option<(u32, u8, nat)> {
    match varint32_prefix(b) {
        Some((t, n)) => if t % 8 <= 5 && t / 8 != 0 {
            Some(((t / 8) as u32, (t % 8) as u8, n))
        } else {
            None
        },
        None => None,
    }
}

/// An `int32` value at the front of `b`: a 32-bit varint read as a two's
/// complement number.
pub open spec fn int32_prefix(b: Seq<u8>) -> Option<(i32, nat)> {
    match varint32_prefix(b) {
        Some((t, n)) => Some(
            (
                (if t < 0x8000_0000 {
                    t as int
                } else {
                    t as int - two_pow_32()
                }) as i32,
                n,
            ),
        ),
        None => None,
    }
}

/// A length-delimited value at the front of `b`: a 32-bit varint length,
/// then that many bytes, all of which must be present. Gives the payload and
/// the number of bytes taken.
pub open spec fn delimited_prefix(b: Seq<u8>) -> Option<(Seq<u8>, nat)> {
    match varint32_prefix(b) {
        Some((len, n)) => if n + len <= b.len() {
            Some((b.subrange(n as int, (n + len) as int), (n + len) as nat))
        } else {
            None
        },
        None => None,
    }
}

/// A string at the front of `b`: a length-delimited value that is valid
/// UTF-8. Gives the characters and the number of bytes taken.
pub open spec fn string_prefix(b: Seq<u8>) -> Option<(Seq<char>, nat)> {
    match delimited_prefix(b) {
        Some((payload, n)) => if valid_utf8(payload) {
            Some((decode_utf8(payload), n))
        } else {
            None
        },
        None => None,
    }
}

/// An embedded message at the front of `b`, read as a protobuf stream reads
/// one under a limit: a 64-bit varint length, which may reach past the end of
/// `b` by at most `slack` bytes. The message is the part of that length that
/// `b` holds. Gives the message bytes, how far the message's own limit reaches
/// past them, and the number of bytes taken.
pub open spec fn nested_prefix(b: Seq<u8>, slack: nat) -> Option<(Seq<u8>, nat, nat)> {
    match varint64_prefix(b) {
        Some((len, n)) => {
            let avail = (b.len() - n) as nat;
            if len <= avail + slack {
                let w: nat = if len <= avail {
                    len as nat
                } else {
                    avail
                };
                Some((b.subrange(n as int, (n + w) as int), (len - w) as nat, n + w))
            } else {
                None
            }
        },
        None => None,
    }
}

/// What protobuf's handling of a field that a message does not declare
/// (`protobuf::rt::read_unknown_or_skip_group`) takes from the front of `b`,
/// after the field's tag, for the given field number and wire type: the
/// number of bytes it skips, or `None` when it reports an error.
pub uninterp spec fn protobuf_unknown_field_len(b: Seq<u8>, field_number: u32, wire_type: u8) -> Option<nat>;

/// How far past the end of a whole input of `len` bytes the limit of a
/// stream over it reaches: a stream has no limit of its own, which it keeps
/// as the largest 64-bit number.
pub open spec fn top_level_slack(len: nat) -> nat {
    (u64::MAX - len) as nat
}

/// The bytes of `buf` from `start` to `end`.
pub open spec fn window(buf: Seq<u8>, start: usize, end: usize) -> Seq<u8> {
    buf.subrange(start as int, end as int)
}

// ---------------------------------------------------------------------------
// Lemmas on the encoding

/// A varint read takes at least one byte and no more than it was allowed.
pub proof fn lemma_varint_prefix_len(b: Seq<u8>, max_len: nat)
    ensures
        varint_prefix(b, max_len) matches Some((v, n)) ==> 1 <= n <= b.len() && n <= max_len,
    decreases max_len,
{
    if max_len > 0 && b.len() > 0 && b[0] >= 128 {
        lemma_varint_prefix_len(b.drop_first(), (max_len - 1) as nat);
    }
}

/// Every reading step takes at least one byte, and no more than there are.
pub proof fn lemma_prefix_lengths(b: Seq<u8>, slack: nat)
    ensures
        tag_prefix(b) matches Some((f, w, n)) ==> 1 <= n <= b.len(),
        varint64_prefix(b) matches Some((v, n)) ==> 1 <= n <= b.len(),
        int32_prefix(b) matches Some((v, n)) ==> 1 <= n <= b.len(),
        delimited_prefix(b) matches Some((p, n)) ==> 1 <= n <= b.len() && p.len() < n,
        string_prefix(b) matches Some((s, n)) ==> 1 <= n <= b.len(),
        nested_prefix(b, slack) matches Some((m, s, n)) ==> 1 <= n <= b.len() && m.len() < n,
{
    lemma_varint_prefix_len(b, 10);
}

/// The number of bytes of the varint encoding of `v`.
pub proof fn lemma_varint_bytes_len(v: nat)
    ensures
        varint_bytes(v).len() >= 1,
        v < 128 ==> varint_bytes(v).len() == 1,
        v >= 128 ==> varint_bytes(v).len() == 1 + varint_bytes(v / 128).len(),
{
}

/// A value below 128^k takes at most k bytes.
pub proof fn lemma_varint_bytes_len_bound(v: nat, k: nat, bound: nat)
    requires
        k >= 1,
        bound == pow128(k),
        v < bound,
    ensures
        varint_bytes(v).len() <= k,
    decreases k,
{
    if v >= 128 {
        assert(k > 1) by {
            if k == 1 {
                assert(pow128(1) == 128 * pow128(0));
            }
        }
        assert(pow128(k) == 128 * pow128((k - 1) as nat));
        assert(v / 128 < pow128((k - 1) as nat));
        lemma_varint_bytes_len_bound(v / 128, (k - 1) as nat, pow128((k - 1) as nat));
    }
}

/// 128 to the `k`.
pub open spec fn pow128(k: nat) -> nat
    decreases k,
{
    if k == 0 {
        1
    } else {
        128 * pow128((k - 1) as nat)
    }
}

/// A length-delimited field of a field number below 16 takes at most six
/// bytes more than its payload, when the payload fits a protobuf length.
pub proof fn lemma_delimited_field_len(field: nat, payload: Seq<u8>)
    requires
        0 < field < 16,
        payload.len() <= u32::MAX,
    ensures
        delimited_field(field, payload).len() <= payload.len() + 6,
{
    lemma_varint_bytes_len(field * 8 + 2);
    assert(pow128(5) == 0x8_0000_0000) by {
        reveal_with_fuel(pow128, 6);
    }
    lemma_varint_bytes_len_bound(payload.len(), 5, pow128(5));
}

/// A 64-bit value takes at most ten bytes.
pub proof fn lemma_varint_bytes_len_u64(v: nat)
    requires
        v < two_pow_64(),
    ensures
        varint_bytes(v).len() <= 10,
{
    assert(pow128(10) == 0x40_0000_0000_0000_0000) by {
        reveal_with_fuel(pow128, 11);
    }
    lemma_varint_bytes_len_bound(v, 10, pow128(10));
}

/// Reading a varint from the front of its encoding, followed by anything,
/// gives back the value and the length of the encoding.
pub proof fn lemma_varint_roundtrip(v: nat, rest: Seq<u8>, max_len: nat)
    requires
        varint_bytes(v).len() <= max_len,
    ensures
        varint_prefix(varint_bytes(v) + rest, max_len) == Some((v, varint_bytes(v).len())),
    decreases v,
{
    let b = varint_bytes(v) + rest;
    if v < 128 {
        assert(b[0] == v as u8);
    } else {
        lemma_varint_bytes_len(v);
        assert(b.drop_first() =~= varint_bytes(v / 128) + rest);
        lemma_varint_roundtrip(v / 128, rest, (max_len - 1) as nat);
        assert(b[0] == (v % 128 + 128) as u8);
    }
}

/// A 64-bit varint read gives back a 64-bit value.
pub proof fn lemma_varint64_roundtrip(v: nat, rest: Seq<u8>)
    requires
        v < two_pow_64(),
    ensures
        varint64_prefix(varint_bytes(v) + rest) == Some((v as u64, varint_bytes(v).len())),
        varint_bytes(v).len() <= 10,
{
    lemma_varint_bytes_len_u64(v);
    lemma_varint_roundtrip(v, rest, 10);
}

/// A 32-bit varint read gives back a 32-bit value.
pub proof fn lemma_varint32_roundtrip(v: nat, rest: Seq<u8>)
    requires
        v < two_pow_32(),
    ensures
        varint32_prefix(varint_bytes(v) + rest) == Some((v as u32, varint_bytes(v).len())),
{
    lemma_varint_bytes_len_u64(v);
    lemma_varint_roundtrip(v, rest, 10);
}

/// Reading a tag gives back the field number and wire type it was made of.
pub proof fn lemma_tag_roundtrip(field: nat, wire: nat, rest: Seq<u8>)
    requires
        0 < field <= FIELD_NUMBER_MAX,
        wire <= 5,
    ensures
        tag_prefix(varint_bytes(field * 8 + wire) + rest) == Some(
            (field as u32, wire as u8, varint_bytes(field * 8 + wire).len()),
        ),
{
    lemma_varint32_roundtrip(field * 8 + wire, rest);
}

/// Reading the front of a length-delimited field gives its field number and
/// wire type 2, then the payload.
pub proof fn lemma_delimited_field_roundtrip(field: nat, payload: Seq<u8>, rest: Seq<u8>)
    requires
        0 < field <= FIELD_NUMBER_MAX,
        payload.len() < two_pow_32(),
    ensures
        ({
            let enc = delimited_field(field, payload);
            let t = varint_bytes(field * 8 + 2).len();
            let after_tag = (enc + rest).skip(t as int);
            &&& tag_prefix(enc + rest) == Some((field as u32, 2u8, t))
            &&& delimited_prefix(after_tag) == Some((payload, (enc.len() - t) as nat))
            &&& after_tag.skip((enc.len() - t) as int) =~= rest
        }),
{
    let enc = delimited_field(field, payload);
    let tag = varint_bytes(field * 8 + 2);
    let len = varint_bytes(payload.len());
    assert(enc + rest =~= tag + (len + payload + rest));
    lemma_tag_roundtrip(field, 2, len + payload + rest);
    let after_tag = (enc + rest).skip(tag.len() as int);
    assert(after_tag =~= len + (payload + rest));
    lemma_varint32_roundtrip(payload.len(), payload + rest);
    assert(after_tag.subrange(len.len() as int, (len.len() + payload.len()) as int) =~= payload);
}

/// Reading the front of a length-delimited field as an embedded message
/// gives the payload, with no slack left over.
pub proof fn lemma_nested_field_roundtrip(field: nat, payload: Seq<u8>, rest: Seq<u8>, slack: nat)
    requires
        0 < field <= FIELD_NUMBER_MAX,
        payload.len() < two_pow_32(),
    ensures
        ({
            let enc = delimited_field(field, payload);
            let t = varint_bytes(field * 8 + 2).len();
            let after_tag = (enc + rest).skip(t as int);
            &&& tag_prefix(enc + rest) == Some((field as u32, 2u8, t))
            &&& nested_prefix(after_tag, slack) == Some((payload, 0nat, (enc.len() - t) as nat))
            &&& after_tag.skip((enc.len() - t) as int) =~= rest
        }),
{
    let enc = delimited_field(field, payload);
    let tag = varint_bytes(field * 8 + 2);
    let len = varint_bytes(payload.len());
    assert(enc + rest =~= tag + (len + payload + rest));
    lemma_tag_roundtrip(field, 2, len + payload + rest);
    let after_tag = (enc + rest).skip(tag.len() as int);
    assert(after_tag =~= len + (payload + rest));
    lemma_varint64_roundtrip(payload.len(), payload + rest);
    assert(after_tag.subrange(len.len() as int, (len.len() + payload.len()) as int) =~= payload);
}

/// Reading the front of a string field gives back the string.
pub proof fn lemma_string_field_roundtrip(field: nat, s: Seq<char>, rest: Seq<u8>)
    requires
        0 < field <= FIELD_NUMBER_MAX,
        encode_utf8(s).len() < two_pow_32(),
    ensures
        ({
            let enc = delimited_field(field, encode_utf8(s));
            let t = varint_bytes(field * 8 + 2).len();
            let after_tag = (enc + rest).skip(t as int);
            &&& tag_prefix(enc + rest) == Some((field as u32, 2u8, t))
            &&& string_prefix(after_tag) == Some((s, (enc.len() - t) as nat))
            &&& after_tag.skip((enc.len() - t) as int) =~= rest
        }),
{
    lemma_delimited_field_roundtrip(field, encode_utf8(s), rest);
    encode_utf8_valid_utf8(s);
    encode_utf8_decode_utf8(s);
}

/// Reading the front of a varint field written with a small non-negative
/// value gives back the field number, wire type 0 and the value.
pub proof fn lemma_int32_field_roundtrip(field: nat, value: nat, rest: Seq<u8>)
    requires
        0 < field <= FIELD_NUMBER_MAX,
        value < 0x8000_0000,
    ensures
        ({
            let enc = varint_field(field, value);
            let t = varint_bytes(field * 8).len();
            let after_tag = (enc + rest).skip(t as int);
            &&& tag_prefix(enc + rest) == Some((field as u32, 0u8, t))
            &&& int32_prefix(after_tag) == Some((value as i32, (enc.len() - t) as nat))
            &&& after_tag.skip((enc.len() - t) as int) =~= rest
        }),
{
    let enc = varint_field(field, value);
    let tag = varint_bytes(field * 8);
    let val = varint_bytes(value);
    assert(enc + rest =~= tag + (val + rest));
    lemma_tag_roundtrip(field, 0, val + rest);
    let after_tag = (enc + rest).skip(tag.len() as int);
    assert(after_tag =~= val + rest);
    lemma_varint32_roundtrip(value, rest);
}

// ---------------------------------------------------------------------------
// Primitive reads and writes of the protobuf crate

/// Writes a length-delimited field with protobuf's
/// `CodedOutputStream::write_bytes`, through a stream that appends to `out`
/// and is then flushed. The contract claims that the stream appends the tag
/// (field number, wire type 2) as a varint, the payload's length as a varint
/// and the payload, and that writing to a `Vec` does not fail.
#[verifier::external_body]
pub(crate) fn write_bytes_field(out: &mut Vec<u8>, field_number: u32, payload: &[u8]) -> (r: Result<(), ProtobufError>)
    requires
        0 < field_number <= FIELD_NUMBER_MAX,
        payload@.len() <= u32::MAX,
    ensures
        r is Ok,
        final(out)@ == old(out)@ + delimited_field(field_number as nat, payload@),
{
    let mut os = CodedOutputStream::vec(out);
    os.write_bytes(field_number, payload)?;
    os.flush()
}

/// Writes a string field with protobuf's `CodedOutputStream::write_string`,
/// through a stream that appends to `out` and is then flushed. The contract
/// claims that the stream appends a length-delimited field whose payload is
/// the UTF-8 encoding of `s`, and that writing to a `Vec` does not fail.
#[verifier::external_body]
pub(crate) fn write_string_field(out: &mut Vec<u8>, field_number: u32, s: &str) -> (r: Result<(), ProtobufError>)
    requires
        0 < field_number <= FIELD_NUMBER_MAX,
        encode_utf8(s@).len() <= u32::MAX,
    ensures
        r is Ok,
        final(out)@ == old(out)@ + delimited_field(field_number as nat, encode_utf8(s@)),
{
    let mut os = CodedOutputStream::vec(out);
    os.write_string(field_number, s)?;
    os.flush()
}

/// Writes an enum field with protobuf's `CodedOutputStream::write_enum`,
/// through a stream that appends to `out` and is then flushed. The contract
/// claims that, for a non-negative value, the stream appends the tag (field
/// number, wire type 0) and the value as varints, and that writing to a
/// `Vec` does not fail.
#[verifier::external_body]
pub(crate) fn write_enum_field(out: &mut Vec<u8>, field_number: u32, value: i32) -> (r: Result<(), ProtobufError>)
    requires
        0 < field_number <= FIELD_NUMBER_MAX,
        0 <= value,
    ensures
        r is Ok,
        final(out)@ == old(out)@ + varint_field(field_number as nat, value as nat),
{
    let mut os = CodedOutputStream::vec(out);
    os.write_enum(field_number, value)?;
    os.flush()
}

/// Reads a tag with protobuf's `CodedInputStream::read_tag_unpack`, from a
/// stream over `buf[start..end]`, and reports the field number, the wire
/// type's number and how many bytes the stream consumed (`pos`). The
/// contract claims that this is the tag at the front of those bytes, and an
/// error exactly when there is none.
#[verifier::external_body]
pub(crate) fn read_tag(buf: &[u8], start: usize, end: usize) -> (r: Result<(u32, u8, usize), ProtobufError>)
    requires
        start <= end <= buf@.len(),
    ensures
        r is Ok <==> tag_prefix(window(buf@, start, end)) is Some,
        r matches Ok((f, w, n)) ==> tag_prefix(window(buf@, start, end)) == Some((f, w, n as nat)),
{
    let mut is = CodedInputStream::from_bytes(&buf[start..end]);
    let (field_number, wire_type) = is.read_tag_unpack()?;
    Ok((field_number, wire_type as u8, is.pos() as usize))
}

/// Reads a 64-bit varint with protobuf's
/// `CodedInputStream::read_raw_varint64`, from a stream over
/// `buf[start..end]`, and reports how many bytes the stream consumed. The
/// contract claims that this is the varint at the front of those bytes, and
/// an error exactly when there is none.
#[verifier::external_body]
pub(crate) fn read_varint64(buf: &[u8], start: usize, end: usize) -> (r: Result<(u64, usize), ProtobufError>)
    requires
        start <= end <= buf@.len(),
    ensures
        r is Ok <==> varint64_prefix(window(buf@, start, end)) is Some,
        r matches Ok((v, n)) ==> varint64_prefix(window(buf@, start, end)) == Some((v, n as nat)),
{
    let mut is = CodedInputStream::from_bytes(&buf[start..end]);
    let v = is.read_raw_varint64()?;
    Ok((v, is.pos() as usize))
}

/// Reads an `int32` with protobuf's `CodedInputStream::read_int32`, from a
/// stream over `buf[start..end]`, and reports how many bytes the stream
/// consumed. The contract claims that this is the value at the front of
/// those bytes, and an error exactly when there is none.
#[verifier::external_body]
pub(crate) fn read_int32(buf: &[u8], start: usize, end: usize) -> (r: Result<(i32, usize), ProtobufError>)
    requires
        start <= end <= buf@.len(),
    ensures
        r is Ok <==> int32_prefix(window(buf@, start, end)) is Some,
        r matches Ok((v, n)) ==> int32_prefix(window(buf@, start, end)) == Some((v, n as nat)),
{
    let mut is = CodedInputStream::from_bytes(&buf[start..end]);
    let v = is.read_int32()?;
    Ok((v, is.pos() as usize))
}

/// Reads a length-delimited value with protobuf's
/// `CodedInputStream::read_bytes`, from a stream over `buf[start..end]`, and
/// reports how many bytes the stream consumed. The contract claims that this
/// is the value at the front of those bytes, and an error exactly when there
/// is none.
#[verifier::external_body]
pub(crate) fn read_bytes(buf: &[u8], start: usize, end: usize) -> (r: Result<(Vec<u8>, usize), ProtobufError>)
    requires
        start <= end <= buf@.len(),
    ensures
        r is Ok <==> delimited_prefix(window(buf@, start, end)) is Some,
        r matches Ok((v, n)) ==> delimited_prefix(window(buf@, start, end)) == Some((v@, n as nat)),
{
    let mut is = CodedInputStream::from_bytes(&buf[start..end]);
    let v = is.read_bytes()?;
    Ok((v, is.pos() as usize))
}

/// Reads a string with protobuf's `CodedInputStream::read_string`, from a
/// stream over `buf[start..end]`, and reports how many bytes the stream
/// consumed. The contract claims that this is the length-delimited value at
/// the front of those bytes decoded as UTF-8, and an error exactly when there
/// is no such value or it is not valid UTF-8.
#[verifier::external_body]
pub(crate) fn read_string(buf: &[u8], start: usize, end: usize) -> (r: Result<(String, usize), ProtobufError>)
    requires
        start <= end <= buf@.len(),
    ensures
        r is Ok <==> string_prefix(window(buf@, start, end)) is Some,
        r matches Ok((s, n)) ==> string_prefix(window(buf@, start, end)) == Some((s@, n as nat)),
{
    let mut is = CodedInputStream::from_bytes(&buf[start..end]);
    let s = is.read_string()?;
    Ok((s, is.pos() as usize))
}

/// Skips a field that the message does not declare with protobuf's
/// `protobuf::rt::read_unknown_or_skip_group`, from a stream over
/// `buf[start..end]` that starts after the field's tag, and reports how many
/// bytes the stream consumed. The contract names that count and claims that
/// it is at least one byte and no more than there are; what the skipped
/// bytes hold (a varint, fixed-size value, length-delimited value or group)
/// is left to the name.
#[verifier::external_body]
pub(crate) fn skip_unknown_field(buf: &[u8], start: usize, end: usize, field_number: u32, wire_type: u8) -> (r: Result<usize, ProtobufError>)
    requires
        start <= end <= buf@.len(),
        wire_type <= 5,
    ensures
        r is Ok <==> protobuf_unknown_field_len(window(buf@, start, end), field_number, wire_type) is Some,
        r matches Ok(n) ==> protobuf_unknown_field_len(window(buf@, start, end), field_number, wire_type) == Some(n as nat),
        r matches Ok(n) ==> 0 < n <= end - start,
{
    let wire = match wire_type {
        0 => WireType::WireTypeVarint,
        1 => WireType::WireTypeFixed64,
        2 => WireType::WireTypeLengthDelimited,
        3 => WireType::WireTypeStartGroup,
        4 => WireType::WireTypeEndGroup,
        _ => WireType::WireTypeFixed32,
    };
    let mut is = CodedInputStream::from_bytes(&buf[start..end]);
    read_unknown_or_skip_group(field_number, wire, &mut is, &mut UnknownFields::new())?;
    Ok(is.pos() as usize)
}

} // verus!
