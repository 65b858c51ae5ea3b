//! Writing values.

use crate::bytes::{
    be_bytes, lemma_be_bytes_len, lemma_limits, put_be, signed_to_raw, twos_complement,
};
use crate::error::{
    CollectionEncodeError, IsizeEncodeError, ItemEncodeError, RefCellEncodeError,
    UsizeEncodeError,
};
use crate::o_stream::OStream;
use core::cell::BorrowError;
use core::convert::Infallible;
use core::marker::PhantomData;
use core::ops::Range;
use std::collections::VecDeque;
use std::rc::Rc;
use std::sync::Arc;
use vstd::prelude::*;
use vstd::utf8::encode_utf8;

verus! {

/// A type that can be written to a stream.
///
/// `wire` and `failure` say what `encode` must do. A value that fails still
/// commits the parts that came before the failing one, and nothing of the
/// failing part itself: `wire` is exactly those bytes.
///
/// An implementation that is not verified states neither: left as they stand
/// here, the two say nothing of it.
pub trait Encode {
    /// Why a value could not be written.
    type Error;

    /// The bytes that writing `self` commits.
    open spec fn wire(&self) -> Seq<u8> {
        arbitrary()
    }

    /// Why `self` cannot be written, if it cannot.
    open spec fn failure(&self) -> Option<Self::Error> {
        arbitrary()
    }

    /// Writes `self` to the stream.
    ///
    /// The stream must have room for the bytes: a buffer that is too small is
    /// the caller's defect, not a failure of the value.
    fn encode(&self, stream: &mut OStream) -> (r: Result<(), Self::Error>)
        requires
            self.wire().len() <= old(stream).free(),
        ensures
            final(stream).extends(old(stream), self.wire()),
            final(final(stream).target())@ == final(old(stream).target())@,
            r == outcome(self.failure()),
    ;
}

/// The result that a writer returns: the failure, or nothing.
pub open spec fn outcome<E>(failure: Option<E>) -> Result<(), E> {
    match failure {
        Some(e) => Err(e),
        None => Ok(()),
    }
}

impl Encode for u8 {
    type Error = Infallible;

    /// The number on one byte.
    open spec fn wire(&self) -> Seq<u8> {
        be_bytes(*self as nat, 1)
    }

    open spec fn failure(&self) -> Option<Infallible> {
        None
    }

    fn encode(&self, stream: &mut OStream) -> (r: Result<(), Infallible>) {
        proof {
            lemma_be_bytes_len(*self as nat, 1);
        }
        put_be(stream, *self as u128, 1);
        Ok(())
    }
}

impl Encode for u16 {
    type Error = Infallible;

    /// The number on two bytes, most significant first.
    open spec fn wire(&self) -> Seq<u8> {
        be_bytes(*self as nat, 2)
    }

    open spec fn failure(&self) -> Option<Infallible> {
        None
    }

    fn encode(&self, stream: &mut OStream) -> (r: Result<(), Infallible>) {
        proof {
            lemma_be_bytes_len(*self as nat, 2);
        }
        put_be(stream, *self as u128, 2);
        Ok(())
    }
}

impl Encode for u32 {
    type Error = Infallible;

    /// The number on four bytes, most significant first.
    open spec fn wire(&self) -> Seq<u8> {
        be_bytes(*self as nat, 4)
    }

    open spec fn failure(&self) -> Option<Infallible> {
        None
    }

    fn encode(&self, stream: &mut OStream) -> (r: Result<(), Infallible>) {
        proof {
            lemma_be_bytes_len(*self as nat, 4);
        }
        put_be(stream, *self as u128, 4);
        Ok(())
    }
}

impl Encode for u64 {
    type Error = Infallible;

    /// The number on eight bytes, most significant first.
    open spec fn wire(&self) -> Seq<u8> {
        be_bytes(*self as nat, 8)
    }

    open spec fn failure(&self) -> Option<Infallible> {
        None
    }

    fn encode(&self, stream: &mut OStream) -> (r: Result<(), Infallible>) {
        proof {
            lemma_be_bytes_len(*self as nat, 8);
        }
        put_be(stream, *self as u128, 8);
        Ok(())
    }
}

impl Encode for u128 {
    type Error = Infallible;

    /// The number on sixteen bytes, most significant first.
    open spec fn wire(&self) -> Seq<u8> {
        be_bytes(*self as nat, 16)
    }

    open spec fn failure(&self) -> Option<Infallible> {
        None
    }

    fn encode(&self, stream: &mut OStream) -> (r: Result<(), Infallible>) {
        proof {
            lemma_be_bytes_len(*self as nat, 16);
        }
        put_be(stream, *self, 16);
        Ok(())
    }
}

impl Encode for i8 {
    type Error = Infallible;

    /// The number in two's complement on one byte.
    open spec fn wire(&self) -> Seq<u8> {
        be_bytes(signed_to_raw(*self as int, 1), 1)
    }

    open spec fn failure(&self) -> Option<Infallible> {
        None
    }

    fn encode(&self, stream: &mut OStream) -> (r: Result<(), Infallible>) {
        proof {
            lemma_limits();
            lemma_be_bytes_len(signed_to_raw(*self as int, 1), 1);
        }
        put_be(stream, twos_complement(*self as i128, 1), 1);
        Ok(())
    }
}

impl Encode for i16 {
    type Error = Infallible;

    /// The number in two's complement on two bytes, most significant first.
    open spec fn wire(&self) -> Seq<u8> {
        be_bytes(signed_to_raw(*self as int, 2), 2)
    }

    open spec fn failure(&self) -> Option<Infallible> {
        None
    }

    fn encode(&self, stream: &mut OStream) -> (r: Result<(), Infallible>) {
        proof {
            lemma_limits();
            lemma_be_bytes_len(signed_to_raw(*self as int, 2), 2);
        }
        put_be(stream, twos_complement(*self as i128, 2), 2);
        Ok(())
    }
}

impl Encode for i32 {
    type Error = Infallible;

    /// The number in two's complement on four bytes, most significant first.
    open spec fn wire(&self) -> Seq<u8> {
        be_bytes(signed_to_raw(*self as int, 4), 4)
    }

    open spec fn failure(&self) -> Option<Infallible> {
        None
    }

    fn encode(&self, stream: &mut OStream) -> (r: Result<(), Infallible>) {
        proof {
            lemma_limits();
            lemma_be_bytes_len(signed_to_raw(*self as int, 4), 4);
        }
        put_be(stream, twos_complement(*self as i128, 4), 4);
        Ok(())
    }
}

impl Encode for i64 {
    type Error = Infallible;

    /// The number in two's complement on eight bytes, most significant first.
    open spec fn wire(&self) -> Seq<u8> {
        be_bytes(signed_to_raw(*self as int, 8), 8)
    }

    open spec fn failure(&self) -> Option<Infallible> {
        None
    }

    fn encode(&self, stream: &mut OStream) -> (r: Result<(), Infallible>) {
        proof {
            lemma_limits();
            lemma_be_bytes_len(signed_to_raw(*self as int, 8), 8);
        }
        put_be(stream, twos_complement(*self as i128, 8), 8);
        Ok(())
    }
}

impl Encode for i128 {
    type Error = Infallible;

    /// The number in two's complement on sixteen bytes, most significant first.
    open spec fn wire(&self) -> Seq<u8> {
        be_bytes(signed_to_raw(*self as int, 16), 16)
    }

    open spec fn failure(&self) -> Option<Infallible> {
        None
    }

    fn encode(&self, stream: &mut OStream) -> (r: Result<(), Infallible>) {
        proof {
            lemma_limits();
            lemma_be_bytes_len(signed_to_raw(*self as int, 16), 16);
        }
        put_be(stream, twos_complement(*self, 16), 16);
        Ok(())
    }
}

impl Encode for usize {
    type Error = UsizeEncodeError;

    /// A size is written on sixteen bits, and not at all when it needs more.
    open spec fn wire(&self) -> Seq<u8> {
        if *self <= u16::MAX {
            be_bytes(*self as nat, 2)
        } else {
            Seq::empty()
        }
    }

    open spec fn failure(&self) -> Option<UsizeEncodeError> {
        if *self <= u16::MAX {
            None
        } else {
            Some(UsizeEncodeError(*self))
        }
    }

    fn encode(&self, stream: &mut OStream) -> (r: Result<(), UsizeEncodeError>) {
        match u16::try_from(*self) {
            Err(_) => Err(UsizeEncodeError(*self)),
            Ok(value) => {
                let _ = value.encode(stream);
                Ok(())
            },
        }
    }
}

impl Encode for isize {
    type Error = IsizeEncodeError;

    /// A signed size is written on sixteen bits, and not at all when it needs
    /// more.
    open spec fn wire(&self) -> Seq<u8> {
        if i16::MIN <= *self <= i16::MAX {
            be_bytes(signed_to_raw(*self as int, 2), 2)
        } else {
            Seq::empty()
        }
    }

    open spec fn failure(&self) -> Option<IsizeEncodeError> {
        if i16::MIN <= *self <= i16::MAX {
            None
        } else {
            Some(IsizeEncodeError(*self))
        }
    }

    fn encode(&self, stream: &mut OStream) -> (r: Result<(), IsizeEncodeError>) {
        match i16::try_from(*self) {
            Err(_) => Err(IsizeEncodeError(*self)),
            Ok(value) => {
                let _ = value.encode(stream);
                Ok(())
            },
        }
    }
}

impl Encode for bool {
    type Error = Infallible;

    /// One byte: zero for false, one for true.
    open spec fn wire(&self) -> Seq<u8> {
        if *self {
            1u8.wire()
        } else {
            0u8.wire()
        }
    }

    open spec fn failure(&self) -> Option<Infallible> {
        None
    }

    fn encode(&self, stream: &mut OStream) -> (r: Result<(), Infallible>) {
        let flag: u8 = if *self {
            1
        } else {
            0
        };
        flag.encode(stream)
    }
}

impl Encode for char {
    type Error = Infallible;

    /// The scalar value, on four bytes.
    open spec fn wire(&self) -> Seq<u8> {
        (*self as u32).wire()
    }

    open spec fn failure(&self) -> Option<Infallible> {
        None
    }

    fn encode(&self, stream: &mut OStream) -> (r: Result<(), Infallible>) {
        (*self as u32).encode(stream)
    }
}

impl Encode for () {
    type Error = Infallible;

    /// Nothing at all.
    open spec fn wire(&self) -> Seq<u8> {
        Seq::empty()
    }

    open spec fn failure(&self) -> Option<Infallible> {
        None
    }

    fn encode(&self, stream: &mut OStream) -> (r: Result<(), Infallible>) {
        Ok(())
    }
}

/// The place of the first item that cannot be written, if there is one.
pub open spec fn failing_index<T: Encode>(items: Seq<T>) -> Option<nat>
    decreases items.len(),
{
    if items.len() == 0 {
        None
    } else {
        match failing_index(items.drop_last()) {
            Some(index) => Some(index),
            None => if items.last().failure() is Some {
                Some((items.len() - 1) as nat)
            } else {
                None
            },
        }
    }
}

/// The bytes that writing `items` in order commits: those of every item up to
/// the first that fails, and of that one what it commits itself.
pub open spec fn items_wire<T: Encode>(items: Seq<T>) -> Seq<u8>
    decreases items.len(),
{
    if items.len() == 0 {
        Seq::empty()
    } else if failing_index(items.drop_last()) is Some {
        items_wire(items.drop_last())
    } else {
        items_wire(items.drop_last()) + items.last().wire()
    }
}

/// Why `items` cannot be written in order, if they cannot: the first failure,
/// with its place.
pub open spec fn items_failure<T: Encode>(items: Seq<T>) -> Option<
    ItemEncodeError<usize, T::Error>,
> {
    match failing_index(items) {
        Some(index) => Some(
            ItemEncodeError {
                index: index as usize,
                error: items[index as int].failure()->Some_0,
            },
        ),
        None => None,
    }
}

/// The first failure is that of an item, and no item before it fails.
pub proof fn lemma_failing_index<T: Encode>(items: Seq<T>)
    ensures
        match failing_index(items) {
            Some(index) => index < items.len() && items[index as int].failure() is Some
                && forall|i: int| 0 <= i < index ==> items[i].failure() is None,
            None => forall|i: int| 0 <= i < items.len() ==> items[i].failure() is None,
        },
    decreases items.len(),
{
    if items.len() > 0 {
        let front = items.drop_last();
        lemma_failing_index(front);
        assert forall|i: int| 0 <= i < front.len() implies #[trigger] items[i] == front[i] by {}
        match failing_index(front) {
            Some(index) => {
                assert(items[index as int] == front[index as int]);
            },
            None => {},
        }
    }
}

/// Items that follow do not change what the first `count` items commit, and
/// once one of them has failed they commit nothing.
pub proof fn lemma_items_extend<T: Encode>(items: Seq<T>, count: nat)
    requires
        count <= items.len(),
    ensures
        items_wire(items.take(count as int)).len() <= items_wire(items).len(),
        failing_index(items.take(count as int)) is Some ==> failing_index(items) == failing_index(
            items.take(count as int),
        ) && items_wire(items) == items_wire(items.take(count as int)),
    decreases items.len() - count,
{
    if count == items.len() {
        assert(items.take(count as int) =~= items);
    } else {
        assert(items.drop_last().take(count as int) =~= items.take(count as int));
        lemma_items_extend(items.drop_last(), count);
    }
}

/// Writes `items` in order, stopping at the first that fails.
pub fn encode_items<T: Encode>(items: &[T], stream: &mut OStream) -> (r: Result<
    (),
    ItemEncodeError<usize, T::Error>,
>)
    requires
        items_wire(items@).len() <= old(stream).free(),
    ensures
        final(stream).extends(old(stream), items_wire(items@)),
        final(final(stream).target())@ == final(old(stream).target())@,
        r == outcome(items_failure(items@)),
{
    let mut done: usize = 0;
    while done < items.len()
        invariant
            done <= items@.len(),
            failing_index(items@.take(done as int)) is None,
            stream.extends(old(stream), items_wire(items@.take(done as int))),
            final(stream.target())@ == final(old(stream).target())@,
            items_wire(items@).len() <= old(stream).free(),
        decreases items@.len() - done,
    {
        proof {
            assert(items@.take(done + 1).drop_last() =~= items@.take(done as int));
            lemma_items_extend(items@, (done + 1) as nat);
        }
        match items[done].encode(stream) {
            Err(error) => {
                return Err(ItemEncodeError { index: done, error });
            },
            Ok(()) => {},
        }
        done = done + 1;
    }
    assert(items@.take(items@.len() as int) =~= items@);
    Ok(())
}

/// The bytes that writing a sequence of unknown length commits: the count on
/// sixteen bits, then the items.
pub open spec fn sequence_wire<T: Encode>(items: Seq<T>) -> Seq<u8> {
    if items.len() <= u16::MAX {
        be_bytes(items.len(), 2) + items_wire(items)
    } else {
        Seq::empty()
    }
}

/// Why a sequence of unknown length cannot be written, if it cannot: it is too
/// long for its count to be written, or an item fails.
pub open spec fn sequence_failure<T: Encode>(items: Seq<T>) -> Option<
    CollectionEncodeError<UsizeEncodeError, ItemEncodeError<usize, T::Error>>,
> {
    if items.len() > u16::MAX {
        Some(CollectionEncodeError::Length(UsizeEncodeError(items.len() as usize)))
    } else {
        match items_failure(items) {
            Some(e) => Some(CollectionEncodeError::Item(e)),
            None => None,
        }
    }
}

impl<T: Encode, const N: usize> Encode for [T; N] {
    type Error = CollectionEncodeError<Infallible, ItemEncodeError<usize, T::Error>>;

    /// The items in order. The length is part of the type and is not written.
    open spec fn wire(&self) -> Seq<u8> {
        items_wire(self@)
    }

    open spec fn failure(&self) -> Option<Self::Error> {
        match items_failure(self@) {
            Some(e) => Some(CollectionEncodeError::Item(e)),
            None => None,
        }
    }

    fn encode(&self, stream: &mut OStream) -> (r: Result<(), Self::Error>) {
        match encode_items(self.as_slice(), stream) {
            Err(e) => Err(CollectionEncodeError::Item(e)),
            Ok(()) => Ok(()),
        }
    }
}

impl<T: Encode> Encode for [T] {
    type Error = CollectionEncodeError<UsizeEncodeError, ItemEncodeError<usize, T::Error>>;

    /// The count on sixteen bits, then the items in order.
    open spec fn wire(&self) -> Seq<u8> {
        sequence_wire(self@)
    }

    open spec fn failure(&self) -> Option<Self::Error> {
        sequence_failure(self@)
    }

    fn encode(&self, stream: &mut OStream) -> (r: Result<(), Self::Error>) {
        match self.len().encode(stream) {
            Err(e) => {
                return Err(CollectionEncodeError::Length(e));
            },
            Ok(()) => {},
        }
        match encode_items(self, stream) {
            Err(e) => Err(CollectionEncodeError::Item(e)),
            Ok(()) => Ok(()),
        }
    }
}

impl<T: Encode> Encode for Vec<T> {
    type Error = <[T] as Encode>::Error;

    /// As the slice of its items.
    open spec fn wire(&self) -> Seq<u8> {
        sequence_wire(self@)
    }

    open spec fn failure(&self) -> Option<Self::Error> {
        sequence_failure(self@)
    }

    fn encode(&self, stream: &mut OStream) -> (r: Result<(), Self::Error>) {
        self.as_slice().encode(stream)
    }
}

impl Encode for str {
    type Error = <[u8] as Encode>::Error;

    /// As the slice of its UTF-8 bytes.
    open spec fn wire(&self) -> Seq<u8> {
        sequence_wire(encode_utf8(self@))
    }

    open spec fn failure(&self) -> Option<Self::Error> {
        sequence_failure(encode_utf8(self@))
    }

    fn encode(&self, stream: &mut OStream) -> (r: Result<(), Self::Error>) {
        self.as_bytes().encode(stream)
    }
}

impl Encode for String {
    type Error = <str as Encode>::Error;

    /// As the text it holds.
    open spec fn wire(&self) -> Seq<u8> {
        sequence_wire(encode_utf8(self@))
    }

    open spec fn failure(&self) -> Option<Self::Error> {
        sequence_failure(encode_utf8(self@))
    }

    fn encode(&self, stream: &mut OStream) -> (r: Result<(), Self::Error>) {
        self.as_str().encode(stream)
    }
}

impl<T: Encode> Encode for Option<T> {
    type Error = T::Error;

    /// A flag, false for `None` and true for `Some`, then the value if there
    /// is one.
    open spec fn wire(&self) -> Seq<u8> {
        match self {
            None => false.wire(),
            Some(value) => true.wire() + value.wire(),
        }
    }

    open spec fn failure(&self) -> Option<T::Error> {
        match self {
            None => None,
            Some(value) => value.failure(),
        }
    }

    fn encode(&self, stream: &mut OStream) -> (r: Result<(), T::Error>) {
        proof {
            lemma_be_bytes_len(0, 1);
            lemma_be_bytes_len(1, 1);
        }
        match self {
            None => {
                let _ = false.encode(stream);
            },
            Some(value) => {
                let _ = true.encode(stream);
                value.encode(stream)?;
            },
        };
        Ok(())
    }
}

impl<T, E, F> Encode for Result<T, E> where T: Encode<Error = F>, E: Encode<Error = F> {
    type Error = F;

    /// A flag, false for `Ok` and true for `Err`, then the value held.
    open spec fn wire(&self) -> Seq<u8> {
        match self {
            Ok(value) => false.wire() + value.wire(),
            Err(error) => true.wire() + error.wire(),
        }
    }

    open spec fn failure(&self) -> Option<F> {
        match self {
            Ok(value) => value.failure(),
            Err(error) => error.failure(),
        }
    }

    fn encode(&self, stream: &mut OStream) -> (r: Result<(), F>) {
        proof {
            lemma_be_bytes_len(0, 1);
            lemma_be_bytes_len(1, 1);
        }
        match self {
            Ok(value) => {
                let _ = false.encode(stream);
                value.encode(stream)?;
            },
            Err(error) => {
                let _ = true.encode(stream);
                error.encode(stream)?;
            },
        };
        Ok(())
    }
}

impl<T: Encode + ?Sized> Encode for &T {
    type Error = T::Error;

    open spec fn wire(&self) -> Seq<u8> {
        (**self).wire()
    }

    open spec fn failure(&self) -> Option<T::Error> {
        (**self).failure()
    }

    fn encode(&self, stream: &mut OStream) -> (r: Result<(), T::Error>) {
        T::encode(self, stream)
    }
}

impl<T: Encode + ?Sized> Encode for Box<T> {
    type Error = T::Error;

    open spec fn wire(&self) -> Seq<u8> {
        (**self).wire()
    }

    open spec fn failure(&self) -> Option<T::Error> {
        (**self).failure()
    }

    fn encode(&self, stream: &mut OStream) -> (r: Result<(), T::Error>) {
        T::encode(self, stream)
    }
}

impl<T: Encode> Encode for Rc<T> {
    type Error = T::Error;

    open spec fn wire(&self) -> Seq<u8> {
        (**self).wire()
    }

    open spec fn failure(&self) -> Option<T::Error> {
        (**self).failure()
    }

    fn encode(&self, stream: &mut OStream) -> (r: Result<(), T::Error>) {
        T::encode(self, stream)
    }
}

impl<T: Encode> Encode for Arc<T> {
    type Error = T::Error;

    open spec fn wire(&self) -> Seq<u8> {
        (**self).wire()
    }

    open spec fn failure(&self) -> Option<T::Error> {
        (**self).failure()
    }

    fn encode(&self, stream: &mut OStream) -> (r: Result<(), T::Error>) {
        T::encode(self, stream)
    }
}

impl<T: Encode + ?Sized> Encode for &mut T {
    type Error = T::Error;

    open spec fn wire(&self) -> Seq<u8> {
        (**self).wire()
    }

    open spec fn failure(&self) -> Option<T::Error> {
        (**self).failure()
    }

    fn encode(&self, stream: &mut OStream) -> (r: Result<(), T::Error>) {
        T::encode(self, stream)
    }
}

impl<T> Encode for PhantomData<T> {
    type Error = Infallible;

    /// Nothing at all.
    open spec fn wire(&self) -> Seq<u8> {
        Seq::empty()
    }

    open spec fn failure(&self) -> Option<Infallible> {
        None
    }

    fn encode(&self, stream: &mut OStream) -> (r: Result<(), Infallible>) {
        Ok(())
    }
}

impl Encode for Infallible {
    type Error = Infallible;

    /// Nothing at all: there is no value to write.
    open spec fn wire(&self) -> Seq<u8> {
        Seq::empty()
    }

    open spec fn failure(&self) -> Option<Infallible> {
        None
    }

    fn encode(&self, stream: &mut OStream) -> (r: Result<(), Infallible>) {
        Ok(())
    }
}

impl<T: Encode> Encode for Range<T> {
    type Error = T::Error;

    /// The start, then the end.
    open spec fn wire(&self) -> Seq<u8> {
        if self.start.failure() is Some {
            self.start.wire()
        } else {
            self.start.wire() + self.end.wire()
        }
    }

    open spec fn failure(&self) -> Option<T::Error> {
        if self.start.failure() is Some {
            self.start.failure()
        } else {
            self.end.failure()
        }
    }

    fn encode(&self, stream: &mut OStream) -> (r: Result<(), T::Error>) {
        self.start.encode(stream)?;
        self.end.encode(stream)?;
        Ok(())
    }
}

/// Why a list cannot be written, if it cannot: it is too long for its count to
/// be written, or an item fails, which is reported with its place.
pub open spec fn list_failure<T: Encode>(items: Seq<T>) -> Option<
    CollectionEncodeError<UsizeEncodeError, (usize, T::Error)>,
> {
    if items.len() > u16::MAX {
        Some(CollectionEncodeError::Length(UsizeEncodeError(items.len() as usize)))
    } else {
        match failing_index(items) {
            Some(index) => Some(
                CollectionEncodeError::Item(
                    (index as usize, items[index as int].failure()->Some_0),
                ),
            ),
            None => None,
        }
    }
}

impl<T: Encode> Encode for VecDeque<T> {
    type Error = CollectionEncodeError<UsizeEncodeError, (usize, T::Error)>;

    /// The count on sixteen bits, then the items from front to back.
    open spec fn wire(&self) -> Seq<u8> {
        sequence_wire(self@)
    }

    open spec fn failure(&self) -> Option<Self::Error> {
        list_failure(self@)
    }

    fn encode(&self, stream: &mut OStream) -> (r: Result<(), Self::Error>) {
        match self.len().encode(stream) {
            Err(e) => {
                return Err(CollectionEncodeError::Length(e));
            },
            Ok(()) => {},
        }
        let mut done: usize = 0;
        while done < self.len()
            invariant
                done <= self@.len() <= u16::MAX,
                failing_index(self@.take(done as int)) is None,
                stream.extends(
                    old(stream),
                    be_bytes(self@.len(), 2) + items_wire(self@.take(done as int)),
                ),
                final(stream.target())@ == final(old(stream).target())@,
                sequence_wire(self@).len() <= old(stream).free(),
            decreases self@.len() - done,
        {
            proof {
                assert(self@.take(done + 1).drop_last() =~= self@.take(done as int));
                lemma_items_extend(self@, (done + 1) as nat);
            }
            match self[done].encode(stream) {
                Err(error) => {
                    return Err(CollectionEncodeError::Item((done, error)));
                },
                Ok(()) => {},
            }
            done = done + 1;
        }
        assert(self@.take(self@.len() as int) =~= self@);
        Ok(())
    }
}

/// Writes the contents of a shared cell, given what asking for them came to:
/// the contents, or the report that the cell is being written into. Nothing
/// is written in the second case, which is a failure of its own kind.
pub fn encode_borrowed<T: Encode + ?Sized>(
    borrowed: Result<&T, BorrowError>,
    stream: &mut OStream,
) -> (r: Result<(), RefCellEncodeError<T::Error>>)
    requires
        borrowed matches Ok(value) ==> value.wire().len() <= old(stream).free(),
    ensures
        final(final(stream).target())@ == final(old(stream).target())@,
        match borrowed {
            Ok(value) => final(stream).extends(old(stream), value.wire()) && r == (
            match value.failure() {
                Some(e) => Err::<(), RefCellEncodeError<T::Error>>(RefCellEncodeError::Value(e)),
                None => Ok(()),
            }),
            Err(busy) => final(stream).extends(old(stream), Seq::empty()) && r == Err::<
                (),
                RefCellEncodeError<T::Error>,
            >(RefCellEncodeError::Borrow(busy)),
        },
{
    match borrowed {
        Err(busy) => Err(RefCellEncodeError::Borrow(busy)),
        Ok(value) => match value.encode(stream) {
            Err(e) => Err(RefCellEncodeError::Value(e)),
            Ok(()) => Ok(()),
        },
    }
}

} // verus!
