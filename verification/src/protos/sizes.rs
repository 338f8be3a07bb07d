//! How the messages are written: repeated fields one after another in their
//! order, how many bytes a message takes at most, and which messages can be
//! written (every embedded message and every string or byte field must fit
//! a protobuf length).

use crate::protos::events::{encode_event, event_encodable, event_size, lemma_event_size, EventView};
use crate::protos::transaction_receipt::{
    encode_data, encode_events, encode_state_change, encode_state_changes, receipt_encodable, state_change_encodable, type_number, StateChangeView,
    TransactionReceiptView,
};
use crate::protos::wire::{lemma_delimited_field_len, lemma_varint_bytes_len};
use vstd::prelude::*;
use vstd::utf8::*;

verus! {

/// A bound on the bytes that a `StateChange` message takes when written: the
/// UTF-8 of its address, its value, and 14 bytes for tags, lengths and type.
pub open spec fn state_change_size(m: StateChangeView) -> nat {
    encode_utf8(m.address).len() + m.value.len() + 14
}

/// A `StateChange` message whose size fits a protobuf length can be written,
/// and takes no more than its size.
pub proof fn lemma_state_change_size(m: StateChangeView)
    requires
        state_change_size(m) <= u32::MAX,
    ensures
        state_change_encodable(m),
        encode_state_change(m).len() <= state_change_size(m),
{
    lemma_delimited_field_len(1, encode_utf8(m.address));
    lemma_delimited_field_len(2, m.value);
    lemma_varint_bytes_len(24);
    lemma_varint_bytes_len(type_number(m.field_type));
}

/// A `TransactionReceipt` message can be written when each of its state
/// changes and events fits, with its framing, in a protobuf length, and each
/// byte string and its transaction id (as UTF-8) fit a protobuf length.
pub proof fn lemma_receipt_writable(m: TransactionReceiptView)
    requires
        forall|i: int| 0 <= i < m.state_changes.len() ==> state_change_size(#[trigger] m.state_changes[i]) <= u32::MAX,
        forall|i: int| 0 <= i < m.events.len() ==> event_size(#[trigger] m.events[i]) <= u32::MAX,
        forall|i: int| 0 <= i < m.data.len() ==> (#[trigger] m.data[i]).len() <= u32::MAX,
        encode_utf8(m.transaction_id).len() <= u32::MAX,
    ensures
        receipt_encodable(m),
{
    assert forall|i: int| 0 <= i < m.state_changes.len() implies state_change_encodable(
        #[trigger] m.state_changes[i],
    ) && encode_state_change(m.state_changes[i]).len() <= u32::MAX by {
        lemma_state_change_size(m.state_changes[i]);
    }
    assert forall|i: int| 0 <= i < m.events.len() implies event_encodable(#[trigger] m.events[i]) && encode_event(
        m.events[i],
    ).len() <= u32::MAX by {
        lemma_event_size(m.events[i]);
    }
}


/// State changes are written one after another in their order: writing two
/// lists one after the other gives the writing of the joined list.
pub proof fn lemma_encode_state_changes_append(a: Seq<StateChangeView>, b: Seq<StateChangeView>)
    ensures
        encode_state_changes(a + b) == encode_state_changes(a) + encode_state_changes(b),
    decreases b.len(),
{
    if b.len() == 0 {
        assert(a + b =~= a);
        assert(encode_state_changes(a) + Seq::<u8>::empty() =~= encode_state_changes(a));
    } else {
        lemma_encode_state_changes_append(a, b.drop_last());
        assert((a + b).drop_last() =~= a + b.drop_last());
        assert((a + b).last() == b.last());
        assert(encode_state_changes(a + b) =~= encode_state_changes(a) + encode_state_changes(b));
    }
}

/// Events are written one after another in their order: writing two lists
/// one after the other gives the writing of the joined list.
pub proof fn lemma_encode_events_append(a: Seq<EventView>, b: Seq<EventView>)
    ensures
        encode_events(a + b) == encode_events(a) + encode_events(b),
    decreases b.len(),
{
    if b.len() == 0 {
        assert(a + b =~= a);
        assert(encode_events(a) + Seq::<u8>::empty() =~= encode_events(a));
    } else {
        lemma_encode_events_append(a, b.drop_last());
        assert((a + b).drop_last() =~= a + b.drop_last());
        assert((a + b).last() == b.last());
        assert(encode_events(a + b) =~= encode_events(a) + encode_events(b));
    }
}

/// Byte strings are written one after another in their order: writing two
/// lists one after the other gives the writing of the joined list.
pub proof fn lemma_encode_data_append(a: Seq<Seq<u8>>, b: Seq<Seq<u8>>)
    ensures
        encode_data(a + b) == encode_data(a) + encode_data(b),
    decreases b.len(),
{
    if b.len() == 0 {
        assert(a + b =~= a);
        assert(encode_data(a) + Seq::<u8>::empty() =~= encode_data(a));
    } else {
        lemma_encode_data_append(a, b.drop_last());
        assert((a + b).drop_last() =~= a + b.drop_last());
        assert((a + b).last() == b.last());
        assert(encode_data(a + b) =~= encode_data(a) + encode_data(b));
    }
}

} // verus!
