//! What holds of every lawful type, of sizes and of sequences.

use crate::bytes::{be_bytes, lemma_limits};
use crate::codec::{lemma_items_round_trip, lemma_raw_round_trip, Codec};
use crate::decode::{
    lemma_parse_items_stops, parse_items, parse_sequence, parse_text, Decode, Parsed,
};
use crate::encode::{failing_index, items_wire, sequence_failure, sequence_wire, Encode};
use crate::error::{
    CollectionDecodeError, CollectionEncodeError, Error, IsizeEncodeError, ItemDecodeError,
    UsizeEncodeError,
};
use vstd::prelude::*;

verus! {

/// Two values that write the same bytes are the same value: nothing is lost in
/// writing.
pub proof fn lemma_wire_tells_apart<T: Codec>(one: T, other: T)
    requires
        one.failure() is None,
        other.failure() is None,
        one.wire() == other.wire(),
    ensures
        one.model() == other.model(),
{
    one.lemma_round_trip(Seq::empty());
    other.lemma_round_trip(Seq::empty());
}

/// The bytes of one value never begin with the bytes of another and go on:
/// where a value ends can be told from its bytes alone.
pub proof fn lemma_wire_ends<T: Codec>(one: T, other: T, more: Seq<u8>)
    requires
        one.failure() is None,
        other.failure() is None,
        other.wire() == one.wire() + more,
    ensures
        more.len() == 0,
        one.model() == other.model(),
{
    one.lemma_round_trip(more);
    other.lemma_round_trip(Seq::empty());
    assert(other.wire() + Seq::<u8>::empty() =~= one.wire() + more);
}

/// A size is written if and only if it fits sixteen bits. One that does not
/// fit fails with the size itself and commits nothing: it is never cut short.
pub proof fn lemma_size_narrowing(size: usize)
    ensures
        size <= u16::MAX ==> size.failure() is None && size.wire() == be_bytes(size as nat, 2),
        size > u16::MAX ==> size.failure() == Some(UsizeEncodeError(size)) && size.wire().len()
            == 0,
{
}

/// A signed size is written if and only if it fits sixteen bits. One that
/// does not fit fails with the size itself and commits nothing.
pub proof fn lemma_signed_size_narrowing(size: isize)
    ensures
        i16::MIN <= size <= i16::MAX ==> size.failure() is None && size.wire().len() == 2,
        !(i16::MIN <= size <= i16::MAX) ==> size.failure() == Some(IsizeEncodeError(size))
            && size.wire().len() == 0,
{
    crate::bytes::lemma_be_bytes_len(crate::bytes::signed_to_raw(size as int, 2), 2);
}

/// The length that a sequence writes in front of its items is the count of
/// its items: read back as a size, it gives that count.
pub proof fn lemma_length_prefix<T: Encode>(items: Seq<T>, rest: Seq<u8>)
    requires
        items.len() <= u16::MAX,
    ensures
        usize::parse(sequence_wire(items) + rest) == (Parsed {
            outcome: Ok::<usize, Error>(items.len() as usize),
            used: 2,
        }),
{
    lemma_limits();
    lemma_raw_round_trip(items.len(), 2, items_wire(items) + rest);
    assert(sequence_wire(items) + rest =~= be_bytes(items.len(), 2) + (items_wire(items) + rest));
}

/// A sequence that is too long for sixteen bits is not written at all.
pub proof fn lemma_long_sequence<T: Encode>(items: Seq<T>)
    requires
        items.len() > u16::MAX,
    ensures
        sequence_wire(items).len() == 0,
        sequence_failure(items) == Some(
            CollectionEncodeError::<
                UsizeEncodeError,
                crate::error::ItemEncodeError<usize, T::Error>,
            >::Length(UsizeEncodeError(items.len() as usize)),
        ),
{
}

/// Reading a sequence from input that holds fewer items than its length
/// announces fails at the first missing item: the failure carries the place
/// of that item and what its reader made of the input that was left.
pub proof fn lemma_truncated_sequence<T: Codec>(
    count: nat,
    items: Seq<T>,
    left: Seq<u8>,
    error: <T as Decode>::Error,
)
    requires
        items.len() < count <= u16::MAX,
        failing_index(items) is None,
        T::parse(left).outcome == Err::<T::Model, <T as Decode>::Error>(error),
    ensures
        parse_sequence::<T>(be_bytes(count, 2) + items_wire(items) + left) == (Parsed {
            outcome: Err::<
                Seq<T::Model>,
                CollectionDecodeError<Error, ItemDecodeError<usize, <T as Decode>::Error>>,
            >(CollectionDecodeError::Item(ItemDecodeError { index: items.len() as usize, error })),
            used: 2 + items_wire(items).len() + T::parse(left).used,
        }),
{
    let body = items_wire(items) + left;
    let bytes = be_bytes(count, 2) + items_wire(items) + left;
    lemma_limits();
    lemma_raw_round_trip(count, 2, body);
    assert(bytes =~= be_bytes(count, 2) + body);
    assert(bytes.skip(2) =~= body);
    lemma_items_round_trip(items, left);
    assert(body.skip(items_wire(items).len() as int) =~= left);
    let present = items.len();
    assert(parse_items::<T>(body, (present + 1) as nat).outcome is Err);
    lemma_parse_items_stops::<T>(body, (present + 1) as nat, count);
}

/// Reading a sequence of bytes from input that ends after fewer bytes than
/// its length announces fails with the end of the input at the place of the
/// first missing byte: one byte was asked for and none was left.
pub proof fn lemma_truncated_bytes(count: nat, bytes: Seq<u8>)
    requires
        bytes.len() < count <= u16::MAX,
    ensures
        parse_sequence::<u8>(be_bytes(count, 2) + bytes) == (Parsed {
            outcome: Err::<Seq<u8>, CollectionDecodeError<Error, ItemDecodeError<usize, Error>>>(
                CollectionDecodeError::Item(
                    ItemDecodeError {
                        index: bytes.len() as usize,
                        error: Error::EndOfDStream { len: 0, ok_len: 1 },
                    },
                ),
            ),
            used: 2 + bytes.len(),
        }),
{
    crate::codec::lemma_bytes_wire(bytes);
    let left = Seq::<u8>::empty();
    lemma_truncated_sequence::<u8>(count, bytes, left, Error::EndOfDStream { len: 0, ok_len: 1 });
    assert(be_bytes(count, 2) + bytes + left =~= be_bytes(count, 2) + bytes);
}

/// Reading a text from input that ends after fewer bytes than its length
/// announces fails with the end of the input, and says how many bytes were
/// asked for and how many were left. Only the length is consumed.
pub proof fn lemma_truncated_text(count: nat, bytes: Seq<u8>)
    requires
        bytes.len() < count <= u16::MAX,
    ensures
        parse_text(be_bytes(count, 2) + bytes) == (Parsed {
            outcome: Err::<Seq<char>, CollectionDecodeError<Error, Error>>(
                CollectionDecodeError::Item(
                    Error::EndOfDStream { len: bytes.len() as usize, ok_len: count as usize },
                ),
            ),
            used: 2,
        }),
{
    lemma_limits();
    lemma_raw_round_trip(count, 2, bytes);
    assert((be_bytes(count, 2) + bytes).skip(2) =~= bytes);
}

} // verus!
