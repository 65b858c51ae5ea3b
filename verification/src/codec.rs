//! Reading undoes writing.

use crate::bytes::{
    be_bytes, lemma_be_bytes_len, lemma_be_value_of_bytes, lemma_limits, limit,
    lemma_signed_round_trip, fits_signed, signed_to_raw,
};
use crate::decode::{models, parse_items, parse_raw, Decode, Parsed};
use crate::encode::{failing_index, items_wire, lemma_failing_index, Encode};
use crate::error::{Error, ItemDecodeError};
use core::marker::PhantomData;
use core::ops::Range;
use std::collections::VecDeque;
use std::rc::Rc;
use std::sync::Arc;
use vstd::prelude::*;
use vstd::utf8::{
    char_is_scalar, char_u32_cast, encode_utf8, encode_utf8_decode_utf8, encode_utf8_valid_utf8,
};

verus! {

/// A type whose reader undoes its writer.
pub trait Codec: Encode + Decode {
    /// Whatever follows, reading the bytes that a value wrote gives the value
    /// back and consumes exactly those bytes.
    proof fn lemma_round_trip(&self, rest: Seq<u8>)
        requires
            self.failure() is None,
        ensures
            Self::parse(self.wire() + rest) == (Parsed {
                outcome: Ok::<Self::Model, <Self as Decode>::Error>(self.model()),
                used: self.wire().len(),
            }),
    ;
}

/// Reading the bytes of a number that fits its width gives the number back,
/// whatever follows.
pub proof fn lemma_raw_round_trip(value: nat, width: nat, rest: Seq<u8>)
    requires
        value < limit(width),
    ensures
        be_bytes(value, width).len() == width,
        parse_raw(be_bytes(value, width) + rest, width) == (Parsed {
            outcome: Ok::<nat, Error>(value),
            used: width,
        }),
{
    lemma_be_bytes_len(value, width);
    lemma_be_value_of_bytes(value, width);
    assert((be_bytes(value, width) + rest).take(width as int) =~= be_bytes(value, width));
}

/// Reading the bytes of a signed number that fits its width gives its raw
/// form back, whatever follows.
pub proof fn lemma_signed_bytes_round_trip(value: int, width: nat, rest: Seq<u8>)
    requires
        fits_signed(value, width),
    ensures
        be_bytes(signed_to_raw(value, width), width).len() == width,
        parse_raw(be_bytes(signed_to_raw(value, width), width) + rest, width) == (Parsed {
            outcome: Ok::<nat, Error>(signed_to_raw(value, width)),
            used: width,
        }),
        crate::bytes::raw_to_signed(signed_to_raw(value, width), width) == value,
{
    lemma_signed_round_trip(value, width);
    lemma_raw_round_trip(signed_to_raw(value, width), width, rest);
}

impl Codec for u8 {
    proof fn lemma_round_trip(&self, rest: Seq<u8>) {
        lemma_limits();
        lemma_raw_round_trip(*self as nat, 1, rest);
    }
}

impl Codec for u16 {
    proof fn lemma_round_trip(&self, rest: Seq<u8>) {
        lemma_limits();
        lemma_raw_round_trip(*self as nat, 2, rest);
    }
}

impl Codec for u32 {
    proof fn lemma_round_trip(&self, rest: Seq<u8>) {
        lemma_limits();
        lemma_raw_round_trip(*self as nat, 4, rest);
    }
}

impl Codec for u64 {
    proof fn lemma_round_trip(&self, rest: Seq<u8>) {
        lemma_limits();
        lemma_raw_round_trip(*self as nat, 8, rest);
    }
}

impl Codec for u128 {
    proof fn lemma_round_trip(&self, rest: Seq<u8>) {
        lemma_limits();
        lemma_raw_round_trip(*self as nat, 16, rest);
    }
}

impl Codec for i8 {
    proof fn lemma_round_trip(&self, rest: Seq<u8>) {
        lemma_limits();
        lemma_signed_bytes_round_trip(*self as int, 1, rest);
    }
}

impl Codec for i16 {
    proof fn lemma_round_trip(&self, rest: Seq<u8>) {
        lemma_limits();
        lemma_signed_bytes_round_trip(*self as int, 2, rest);
    }
}

impl Codec for i32 {
    proof fn lemma_round_trip(&self, rest: Seq<u8>) {
        lemma_limits();
        lemma_signed_bytes_round_trip(*self as int, 4, rest);
    }
}

impl Codec for i64 {
    proof fn lemma_round_trip(&self, rest: Seq<u8>) {
        lemma_limits();
        lemma_signed_bytes_round_trip(*self as int, 8, rest);
    }
}

impl Codec for i128 {
    proof fn lemma_round_trip(&self, rest: Seq<u8>) {
        lemma_limits();
        lemma_signed_bytes_round_trip(*self as int, 16, rest);
    }
}

impl Codec for usize {
    /// A size round-trips when it can be written at all, that is when it fits
    /// sixteen bits.
    proof fn lemma_round_trip(&self, rest: Seq<u8>) {
        (*self as u16).lemma_round_trip(rest);
    }
}

impl Codec for isize {
    /// A signed size round-trips when it can be written at all, that is when
    /// it fits sixteen bits.
    proof fn lemma_round_trip(&self, rest: Seq<u8>) {
        (*self as i16).lemma_round_trip(rest);
    }
}

impl Codec for bool {
    proof fn lemma_round_trip(&self, rest: Seq<u8>) {
        if *self {
            1u8.lemma_round_trip(rest);
        } else {
            0u8.lemma_round_trip(rest);
        }
    }
}

impl Codec for char {
    proof fn lemma_round_trip(&self, rest: Seq<u8>) {
        let scalar = *self as u32;
        scalar.lemma_round_trip(rest);
        char_is_scalar(*self);
        char_u32_cast(*self, scalar);
    }
}

impl Codec for () {
    proof fn lemma_round_trip(&self, rest: Seq<u8>) {
        assert(Seq::<u8>::empty() + rest =~= rest);
    }
}

/// Reading as many items as were written gives their values back, whatever
/// follows.
pub proof fn lemma_items_round_trip<T: Codec>(items: Seq<T>, rest: Seq<u8>)
    requires
        failing_index(items) is None,
    ensures
        parse_items::<T>(items_wire(items) + rest, items.len()) == (Parsed {
            outcome: Ok::<Seq<T::Model>, ItemDecodeError<usize, <T as Decode>::Error>>(
                models(items),
            ),
            used: items_wire(items).len(),
        }),
    decreases items.len(),
{
    if items.len() == 0 {
        assert(models(items) =~= Seq::<T::Model>::empty());
    } else {
        let front = items.drop_last();
        let last = items.last();
        let bytes = items_wire(items) + rest;
        lemma_failing_index(items);
        assert(bytes =~= items_wire(front) + (last.wire() + rest));
        lemma_items_round_trip(front, last.wire() + rest);
        assert(bytes.skip(items_wire(front).len() as int) =~= last.wire() + rest);
        last.lemma_round_trip(rest);
        assert(models(items) =~= models(front).push(last.model()));
    }
}

/// Bytes are written as they are.
pub proof fn lemma_bytes_wire(bytes: Seq<u8>)
    ensures
        failing_index(bytes) is None,
        items_wire(bytes) == bytes,
    decreases bytes.len(),
{
    if bytes.len() > 0 {
        lemma_bytes_wire(bytes.drop_last());
        reveal_with_fuel(be_bytes, 2);
        assert(bytes.last().wire() =~= seq![bytes.last()]);
        assert(bytes.drop_last() + seq![bytes.last()] =~= bytes);
    }
}

impl<T: Codec> Codec for Vec<T> {
    proof fn lemma_round_trip(&self, rest: Seq<u8>) {
        let count = self@.len();
        let body = items_wire(self@) + rest;
        lemma_limits();
        lemma_raw_round_trip(count, 2, body);
        assert(self.wire() + rest =~= be_bytes(count, 2) + body);
        assert((self.wire() + rest).skip(2) =~= body);
        lemma_items_round_trip(self@, rest);
    }
}

impl<T: Codec> Codec for VecDeque<T> {
    proof fn lemma_round_trip(&self, rest: Seq<u8>) {
        let count = self@.len();
        let body = items_wire(self@) + rest;
        lemma_limits();
        lemma_raw_round_trip(count, 2, body);
        assert(self.wire() + rest =~= be_bytes(count, 2) + body);
        assert((self.wire() + rest).skip(2) =~= body);
        lemma_items_round_trip(self@, rest);
    }
}

impl<T: Codec, const N: usize> Codec for [T; N] {
    proof fn lemma_round_trip(&self, rest: Seq<u8>) {
        lemma_items_round_trip(self@, rest);
    }
}

impl Codec for String {
    proof fn lemma_round_trip(&self, rest: Seq<u8>) {
        let bytes = encode_utf8(self@);
        let count = bytes.len();
        lemma_bytes_wire(bytes);
        lemma_limits();
        lemma_raw_round_trip(count, 2, bytes + rest);
        assert(self.wire() + rest =~= be_bytes(count, 2) + (bytes + rest));
        assert((self.wire() + rest).skip(2) =~= bytes + rest);
        assert((bytes + rest).take(count as int) =~= bytes);
        encode_utf8_valid_utf8(self@);
        encode_utf8_decode_utf8(self@);
    }
}

impl<T: Codec> Codec for Option<T> {
    proof fn lemma_round_trip(&self, rest: Seq<u8>) {
        match self {
            None => {
                false.lemma_round_trip(rest);
            },
            Some(value) => {
                true.lemma_round_trip(value.wire() + rest);
                assert(self.wire() + rest =~= true.wire() + (value.wire() + rest));
                assert((self.wire() + rest).skip(true.wire().len() as int) =~= value.wire()
                    + rest);
                value.lemma_round_trip(rest);
            },
        }
    }
}

impl<T: Codec, E: Codec> Codec for Result<T, E> where
    T: Encode<Error = <E as Encode>::Error>,
    E: Decode<Error = <T as Decode>::Error>,
 {
    proof fn lemma_round_trip(&self, rest: Seq<u8>) {
        match self {
            Ok(value) => {
                false.lemma_round_trip(value.wire() + rest);
                assert(self.wire() + rest =~= false.wire() + (value.wire() + rest));
                assert((self.wire() + rest).skip(false.wire().len() as int) =~= value.wire()
                    + rest);
                value.lemma_round_trip(rest);
            },
            Err(error) => {
                true.lemma_round_trip(error.wire() + rest);
                assert(self.wire() + rest =~= true.wire() + (error.wire() + rest));
                assert((self.wire() + rest).skip(true.wire().len() as int) =~= error.wire()
                    + rest);
                error.lemma_round_trip(rest);
            },
        }
    }
}

impl<T: Codec> Codec for Box<T> {
    proof fn lemma_round_trip(&self, rest: Seq<u8>) {
        (**self).lemma_round_trip(rest);
    }
}

impl<T: Codec> Codec for Rc<T> {
    proof fn lemma_round_trip(&self, rest: Seq<u8>) {
        (**self).lemma_round_trip(rest);
    }
}

impl<T: Codec> Codec for Arc<T> {
    proof fn lemma_round_trip(&self, rest: Seq<u8>) {
        (**self).lemma_round_trip(rest);
    }
}

impl<T> Codec for PhantomData<T> {
    proof fn lemma_round_trip(&self, rest: Seq<u8>) {
        assert(Seq::<u8>::empty() + rest =~= rest);
    }
}

impl<T: Codec> Codec for Range<T> {
    proof fn lemma_round_trip(&self, rest: Seq<u8>) {
        let bytes = self.wire() + rest;
        assert(bytes =~= self.start.wire() + (self.end.wire() + rest));
        self.start.lemma_round_trip(self.end.wire() + rest);
        assert(bytes.skip(self.start.wire().len() as int) =~= self.end.wire() + rest);
        self.end.lemma_round_trip(rest);
    }
}

} // verus!
