//! Reading values.

use crate::bytes::{
    from_twos_complement, lemma_be_value_bound, lemma_limits, limit, parse_be, raw_to_signed,
    take_be,
};
use crate::d_stream::DStream;
use crate::error::{CollectionDecodeError, EnumDecodeError, Error, ItemDecodeError};
use core::convert::Infallible;
use core::marker::PhantomData;
use core::ops::Range;
use std::collections::VecDeque;
use std::rc::Rc;
use std::sync::Arc;
use vstd::prelude::*;
use vstd::slice::slice_to_vec;
use vstd::utf8::{decode_utf8, is_scalar, valid_utf8};

verus! {

/// What a reader makes of some input: the value or the failure, and how many
/// bytes it consumed on the way.
pub struct Parsed<T, E> {
    /// The value read, or why there is none.
    pub outcome: Result<T, E>,
    /// How many bytes were taken from the input.
    pub used: nat,
}

impl<T, E> Parsed<T, E> {
    /// The same reading with `f` applied to the value, if there is one.
    pub open spec fn map<U>(self, f: spec_fn(T) -> U) -> Parsed<U, E> {
        match self.outcome {
            Ok(value) => Parsed { outcome: Ok(f(value)), used: self.used },
            Err(e) => Parsed { outcome: Err(e), used: self.used },
        }
    }

    /// The same reading with `f` applied to the failure, if there is one.
    pub open spec fn map_err<F>(self, f: spec_fn(E) -> F) -> Parsed<T, F> {
        match self.outcome {
            Ok(value) => Parsed { outcome: Ok(value), used: self.used },
            Err(e) => Parsed { outcome: Err(f(e)), used: self.used },
        }
    }
}

/// A type that can be read from a stream.
///
/// `parse` says, for any input, what `decode` must do with it: the outcome and
/// the number of bytes taken. The outcome is stated over the type's `Model`,
/// its mathematical value.
///
/// An implementation that is not verified states neither `model` nor `parse`:
/// left as they stand here, the two say nothing of it. Its `Model` can be the
/// type itself.
pub trait Decode: Sized {
    /// Why a value could not be read.
    type Error;

    /// The mathematical value of the type.
    type Model;

    /// The mathematical value of `self`.
    open spec fn model(&self) -> Self::Model {
        arbitrary()
    }

    /// What reading makes of `bytes`.
    open spec fn parse(bytes: Seq<u8>) -> Parsed<Self::Model, Self::Error> {
        arbitrary()
    }

    /// Reads a value from the front of the stream.
    fn decode(stream: &mut DStream) -> (r: Result<Self, Self::Error>)
        ensures
            Self::parse(old(stream)@).used <= old(stream)@.len(),
            final(stream)@ == old(stream)@.skip(Self::parse(old(stream)@).used as int),
            match r {
                Ok(value) => Self::parse(old(stream)@).outcome == Ok::<Self::Model, Self::Error>(
                    value.model(),
                ),
                Err(e) => Self::parse(old(stream)@).outcome == Err::<Self::Model, Self::Error>(e),
            },
    ;
}

/// What reading an unsigned number of `width` bytes makes of `bytes`. Nothing
/// is consumed when fewer than `width` bytes are left.
pub open spec fn parse_raw(bytes: Seq<u8>, width: nat) -> Parsed<nat, Error> {
    match parse_be(bytes, width) {
        Ok(value) => Parsed { outcome: Ok(value), used: width },
        Err(e) => Parsed { outcome: Err(e), used: 0 },
    }
}

/// Reads an unsigned number of `width` bytes.
fn decode_raw(stream: &mut DStream, width: usize) -> (r: Result<u128, Error>)
    requires
        width <= 16,
    ensures
        parse_raw(old(stream)@, width as nat).used <= old(stream)@.len(),
        final(stream)@ == old(stream)@.skip(parse_raw(old(stream)@, width as nat).used as int),
        match r {
            Ok(value) => parse_raw(old(stream)@, width as nat).outcome == Ok::<nat, Error>(
                value as nat,
            ) && value < limit(width as nat),
            Err(e) => parse_raw(old(stream)@, width as nat).outcome == Err::<nat, Error>(e),
        },
{
    proof {
        if width <= old(stream)@.len() {
            lemma_be_value_bound(old(stream)@.take(width as int));
        }
    }
    let r = take_be(stream, width);
    assert(old(stream)@.skip(0) =~= old(stream)@);
    r
}

impl Decode for u8 {
    type Error = Error;

    type Model = u8;

    open spec fn model(&self) -> u8 {
        *self
    }

    /// The number on the next one byte.
    open spec fn parse(bytes: Seq<u8>) -> Parsed<u8, Error> {
        parse_raw(bytes, 1).map(|raw: nat| raw as u8)
    }

    fn decode(stream: &mut DStream) -> (r: Result<Self, Error>) {
        proof {
            lemma_limits();
        }
        let raw = decode_raw(stream, 1)?;
        Ok(raw as u8)
    }
}

impl Decode for u16 {
    type Error = Error;

    type Model = u16;

    open spec fn model(&self) -> u16 {
        *self
    }

    /// The number on the next two bytes, most significant first.
    open spec fn parse(bytes: Seq<u8>) -> Parsed<u16, Error> {
        parse_raw(bytes, 2).map(|raw: nat| raw as u16)
    }

    fn decode(stream: &mut DStream) -> (r: Result<Self, Error>) {
        proof {
            lemma_limits();
        }
        let raw = decode_raw(stream, 2)?;
        Ok(raw as u16)
    }
}

impl Decode for u32 {
    type Error = Error;

    type Model = u32;

    open spec fn model(&self) -> u32 {
        *self
    }

    /// The number on the next four bytes, most significant first.
    open spec fn parse(bytes: Seq<u8>) -> Parsed<u32, Error> {
        parse_raw(bytes, 4).map(|raw: nat| raw as u32)
    }

    fn decode(stream: &mut DStream) -> (r: Result<Self, Error>) {
        proof {
            lemma_limits();
        }
        let raw = decode_raw(stream, 4)?;
        Ok(raw as u32)
    }
}

impl Decode for u64 {
    type Error = Error;

    type Model = u64;

    open spec fn model(&self) -> u64 {
        *self
    }

    /// The number on the next eight bytes, most significant first.
    open spec fn parse(bytes: Seq<u8>) -> Parsed<u64, Error> {
        parse_raw(bytes, 8).map(|raw: nat| raw as u64)
    }

    fn decode(stream: &mut DStream) -> (r: Result<Self, Error>) {
        proof {
            lemma_limits();
        }
        let raw = decode_raw(stream, 8)?;
        Ok(raw as u64)
    }
}

impl Decode for u128 {
    type Error = Error;

    type Model = u128;

    open spec fn model(&self) -> u128 {
        *self
    }

    /// The number on the next sixteen bytes, most significant first.
    open spec fn parse(bytes: Seq<u8>) -> Parsed<u128, Error> {
        parse_raw(bytes, 16).map(|raw: nat| raw as u128)
    }

    fn decode(stream: &mut DStream) -> (r: Result<Self, Error>) {
        let raw = decode_raw(stream, 16)?;
        Ok(raw)
    }
}

impl Decode for i8 {
    type Error = Error;

    type Model = i8;

    open spec fn model(&self) -> i8 {
        *self
    }

    /// The number in two's complement on the next one byte.
    open spec fn parse(bytes: Seq<u8>) -> Parsed<i8, Error> {
        parse_raw(bytes, 1).map(|raw: nat| raw_to_signed(raw, 1) as i8)
    }

    fn decode(stream: &mut DStream) -> (r: Result<Self, Error>) {
        proof {
            lemma_limits();
        }
        let raw = decode_raw(stream, 1)?;
        Ok(from_twos_complement(raw, 1) as i8)
    }
}

impl Decode for i16 {
    type Error = Error;

    type Model = i16;

    open spec fn model(&self) -> i16 {
        *self
    }

    /// The number in two's complement on the next two bytes, most significant first.
    open spec fn parse(bytes: Seq<u8>) -> Parsed<i16, Error> {
        parse_raw(bytes, 2).map(|raw: nat| raw_to_signed(raw, 2) as i16)
    }

    fn decode(stream: &mut DStream) -> (r: Result<Self, Error>) {
        proof {
            lemma_limits();
        }
        let raw = decode_raw(stream, 2)?;
        Ok(from_twos_complement(raw, 2) as i16)
    }
}

impl Decode for i32 {
    type Error = Error;

    type Model = i32;

    open spec fn model(&self) -> i32 {
        *self
    }

    /// The number in two's complement on the next four bytes, most significant first.
    open spec fn parse(bytes: Seq<u8>) -> Parsed<i32, Error> {
        parse_raw(bytes, 4).map(|raw: nat| raw_to_signed(raw, 4) as i32)
    }

    fn decode(stream: &mut DStream) -> (r: Result<Self, Error>) {
        proof {
            lemma_limits();
        }
        let raw = decode_raw(stream, 4)?;
        Ok(from_twos_complement(raw, 4) as i32)
    }
}

impl Decode for i64 {
    type Error = Error;

    type Model = i64;

    open spec fn model(&self) -> i64 {
        *self
    }

    /// The number in two's complement on the next eight bytes, most significant first.
    open spec fn parse(bytes: Seq<u8>) -> Parsed<i64, Error> {
        parse_raw(bytes, 8).map(|raw: nat| raw_to_signed(raw, 8) as i64)
    }

    fn decode(stream: &mut DStream) -> (r: Result<Self, Error>) {
        proof {
            lemma_limits();
        }
        let raw = decode_raw(stream, 8)?;
        Ok(from_twos_complement(raw, 8) as i64)
    }
}

impl Decode for i128 {
    type Error = Error;

    type Model = i128;

    open spec fn model(&self) -> i128 {
        *self
    }

    /// The number in two's complement on the next sixteen bytes, most significant first.
    open spec fn parse(bytes: Seq<u8>) -> Parsed<i128, Error> {
        parse_raw(bytes, 16).map(|raw: nat| raw_to_signed(raw, 16) as i128)
    }

    fn decode(stream: &mut DStream) -> (r: Result<Self, Error>) {
        proof {
            lemma_limits();
        }
        let raw = decode_raw(stream, 16)?;
        Ok(from_twos_complement(raw, 16))
    }
}

impl Decode for usize {
    type Error = Error;

    type Model = usize;

    open spec fn model(&self) -> usize {
        *self
    }

    /// A size is read from sixteen bits.
    open spec fn parse(bytes: Seq<u8>) -> Parsed<usize, Error> {
        u16::parse(bytes).map(|narrow: u16| narrow as usize)
    }

    fn decode(stream: &mut DStream) -> (r: Result<Self, Error>) {
        let narrow = u16::decode(stream)?;
        Ok(narrow as usize)
    }
}

impl Decode for isize {
    type Error = Error;

    type Model = isize;

    open spec fn model(&self) -> isize {
        *self
    }

    /// A signed size is read from sixteen bits.
    open spec fn parse(bytes: Seq<u8>) -> Parsed<isize, Error> {
        i16::parse(bytes).map(|narrow: i16| narrow as isize)
    }

    fn decode(stream: &mut DStream) -> (r: Result<Self, Error>) {
        let narrow = i16::decode(stream)?;
        Ok(narrow as isize)
    }
}

/// A byte read as a boolean.
pub open spec fn flag_of(value: u8) -> Result<bool, Error> {
    if value == 0 {
        Ok(false)
    } else if value == 1 {
        Ok(true)
    } else {
        Err(Error::InvalidBoolean { value })
    }
}

impl Decode for bool {
    type Error = Error;

    type Model = bool;

    open spec fn model(&self) -> bool {
        *self
    }

    /// One byte, which must be zero or one. The byte is consumed either way.
    open spec fn parse(bytes: Seq<u8>) -> Parsed<bool, Error> {
        let byte = u8::parse(bytes);
        match byte.outcome {
            Ok(value) => Parsed { outcome: flag_of(value), used: byte.used },
            Err(e) => Parsed { outcome: Err(e), used: byte.used },
        }
    }

    fn decode(stream: &mut DStream) -> (r: Result<Self, Error>) {
        let value = u8::decode(stream)?;
        if value == 0 {
            Ok(false)
        } else if value == 1 {
            Ok(true)
        } else {
            Err(Error::InvalidBoolean { value })
        }
    }
}

/// A number read as a character.
pub open spec fn char_of(value: u32) -> Result<char, Error> {
    if is_scalar(value) {
        Ok(value as char)
    } else {
        Err(Error::InvalidCodePoint { value })
    }
}

/// `char::from_u32` of the standard library: the character whose scalar value
/// is `value`, and `None` when `value` is a surrogate or lies above `0x10FFFF`.
/// Taken on trust from its documentation.
#[verifier::external_body]
fn char_from_u32(value: u32) -> (c: Option<char>)
    ensures
        c == (if is_scalar(value) {
            Some(value as char)
        } else {
            None
        }),
{
    char::from_u32(value)
}

impl Decode for char {
    type Error = Error;

    type Model = char;

    open spec fn model(&self) -> char {
        *self
    }

    /// Four bytes, which must spell a Unicode scalar value. The bytes are
    /// consumed either way.
    open spec fn parse(bytes: Seq<u8>) -> Parsed<char, Error> {
        let number = u32::parse(bytes);
        match number.outcome {
            Ok(value) => Parsed { outcome: char_of(value), used: number.used },
            Err(e) => Parsed { outcome: Err(e), used: number.used },
        }
    }

    fn decode(stream: &mut DStream) -> (r: Result<Self, Error>) {
        let value = u32::decode(stream)?;
        match char_from_u32(value) {
            Some(c) => Ok(c),
            None => Err(Error::InvalidCodePoint { value }),
        }
    }
}

impl Decode for () {
    type Error = Infallible;

    type Model = ();

    open spec fn model(&self) -> () {
        ()
    }

    /// Nothing is read.
    open spec fn parse(bytes: Seq<u8>) -> Parsed<(), Infallible> {
        Parsed { outcome: Ok(()), used: 0 }
    }

    fn decode(stream: &mut DStream) -> (r: Result<Self, Infallible>) {
        assert(stream@.skip(0) =~= stream@);
        Ok(())
    }
}

/// The mathematical values of some items.
pub open spec fn models<T: Decode>(items: Seq<T>) -> Seq<T::Model> {
    Seq::new(items.len(), |i: int| items[i].model())
}

/// What reading `count` items in a row makes of `bytes`. Reading stops at the
/// first item that fails, whose place the failure carries.
pub open spec fn parse_items<T: Decode>(bytes: Seq<u8>, count: nat) -> Parsed<
    Seq<T::Model>,
    ItemDecodeError<usize, T::Error>,
>
    decreases count,
{
    if count == 0 {
        Parsed { outcome: Ok(Seq::empty()), used: 0 }
    } else {
        let front = parse_items::<T>(bytes, (count - 1) as nat);
        match front.outcome {
            Err(_) => front,
            Ok(items) => {
                let next = T::parse(bytes.skip(front.used as int));
                Parsed {
                    outcome: match next.outcome {
                        Ok(item) => Ok(items.push(item)),
                        Err(error) => Err(
                            ItemDecodeError { index: (count - 1) as usize, error },
                        ),
                    },
                    used: front.used + next.used,
                }
            },
        }
    }
}

/// Reads `count` items in a row.
pub fn decode_items<T: Decode>(stream: &mut DStream, count: usize) -> (r: Result<
    Vec<T>,
    ItemDecodeError<usize, T::Error>,
>)
    ensures
        parse_items::<T>(old(stream)@, count as nat).used <= old(stream)@.len(),
        final(stream)@ == old(stream)@.skip(
            parse_items::<T>(old(stream)@, count as nat).used as int,
        ),
        match r {
            Ok(items) => parse_items::<T>(old(stream)@, count as nat).outcome == Ok::<
                Seq<T::Model>,
                ItemDecodeError<usize, T::Error>,
            >(models(items@)) && items@.len() == count,
            Err(e) => parse_items::<T>(old(stream)@, count as nat).outcome == Err::<
                Seq<T::Model>,
                ItemDecodeError<usize, T::Error>,
            >(e),
        },
{
    let mut items: Vec<T> = Vec::new();
    let mut done: usize = 0;
    assert(stream@.skip(0) =~= stream@);
    assert(models(items@) =~= Seq::<T::Model>::empty());
    while done < count
        invariant
            done <= count,
            items@.len() == done,
            parse_items::<T>(old(stream)@, done as nat).used <= old(stream)@.len(),
            stream@ == old(stream)@.skip(parse_items::<T>(old(stream)@, done as nat).used as int),
            parse_items::<T>(old(stream)@, done as nat).outcome == Ok::<
                Seq<T::Model>,
                ItemDecodeError<usize, T::Error>,
            >(models(items@)),
        decreases count - done,
    {
        let ghost front = parse_items::<T>(old(stream)@, done as nat);
        let ghost before = items@;
        let ghost input = stream@;
        let next = T::decode(stream);
        proof {
            let next_used = T::parse(input).used;
            assert(stream@ =~= old(stream)@.skip((front.used + next_used) as int));
        }
        match next {
            Err(error) => {
                proof {
                    lemma_parse_items_stops::<T>(old(stream)@, (done + 1) as nat, count as nat);
                }
                return Err(ItemDecodeError { index: done, error });
            },
            Ok(item) => {
                items.push(item);
                assert(models(items@) =~= models(before).push(item.model()));
            },
        }
        done = done + 1;
    }
    Ok(items)
}

/// Once an item has failed, asking for more items changes nothing.
pub proof fn lemma_parse_items_stops<T: Decode>(bytes: Seq<u8>, count: nat, more: nat)
    requires
        count <= more,
        parse_items::<T>(bytes, count).outcome is Err,
    ensures
        parse_items::<T>(bytes, more) == parse_items::<T>(bytes, count),
    decreases more - count,
{
    if count < more {
        lemma_parse_items_stops::<T>(bytes, count, (more - 1) as nat);
    }
}

/// What reading a sequence of unknown length makes of `bytes`: the count from
/// sixteen bits, then that many items.
pub open spec fn parse_sequence<T: Decode>(bytes: Seq<u8>) -> Parsed<
    Seq<T::Model>,
    CollectionDecodeError<Error, ItemDecodeError<usize, T::Error>>,
> {
    let length = usize::parse(bytes);
    match length.outcome {
        Err(e) => Parsed { outcome: Err(CollectionDecodeError::Length(e)), used: length.used },
        Ok(count) => {
            let items = parse_items::<T>(bytes.skip(length.used as int), count as nat);
            Parsed {
                outcome: match items.outcome {
                    Ok(values) => Ok(values),
                    Err(e) => Err(CollectionDecodeError::Item(e)),
                },
                used: length.used + items.used,
            }
        },
    }
}

impl<T: Decode> Decode for Vec<T> {
    type Error = CollectionDecodeError<Error, ItemDecodeError<usize, T::Error>>;

    type Model = Seq<T::Model>;

    open spec fn model(&self) -> Seq<T::Model> {
        models(self@)
    }

    open spec fn parse(bytes: Seq<u8>) -> Parsed<Seq<T::Model>, Self::Error> {
        parse_sequence::<T>(bytes)
    }

    fn decode(stream: &mut DStream) -> (r: Result<Self, Self::Error>) {
        let count = match usize::decode(stream) {
            Err(e) => {
                return Err(CollectionDecodeError::Length(e));
            },
            Ok(count) => count,
        };
        let ghost length = usize::parse(old(stream)@);
        let ghost body = parse_items::<T>(stream@, count as nat);
        let items = decode_items::<T>(stream, count);
        assert(stream@ =~= old(stream)@.skip((length.used + body.used) as int));
        match items {
            Err(e) => Err(CollectionDecodeError::Item(e)),
            Ok(items) => Ok(items),
        }
    }
}

/// `<[T; N]>::try_from(Vec<T>)` of the standard library: the vector's items as
/// an array when there are exactly `N` of them, and the vector handed back
/// when there are not. Taken on trust from its documentation.
#[verifier::external_body]
fn array_from_vec<T, const N: usize>(items: Vec<T>) -> (r: Result<[T; N], Vec<T>>)
    ensures
        match r {
            Ok(array) => items@.len() == N && array@ == items@,
            Err(back) => items@.len() != N && back@ == items@,
        },
{
    <[T; N]>::try_from(items)
}

impl<T: Decode, const N: usize> Decode for [T; N] {
    type Error = CollectionDecodeError<Infallible, ItemDecodeError<usize, T::Error>>;

    type Model = Seq<T::Model>;

    open spec fn model(&self) -> Seq<T::Model> {
        models(self@)
    }

    /// `N` items in a row. The length is part of the type and is not read.
    open spec fn parse(bytes: Seq<u8>) -> Parsed<Seq<T::Model>, Self::Error> {
        parse_items::<T>(bytes, N as nat).map_err(
            |e: ItemDecodeError<usize, T::Error>|
                CollectionDecodeError::<Infallible, ItemDecodeError<usize, T::Error>>::Item(e),
        )
    }

    fn decode(stream: &mut DStream) -> (r: Result<Self, Self::Error>) {
        match decode_items::<T>(stream, N) {
            Err(e) => Err(CollectionDecodeError::Item(e)),
            Ok(items) => Ok(array_from_vec::<T, N>(items).ok().unwrap()),
        }
    }
}

/// `String::from_utf8` of the standard library: the text that `bytes` spell in
/// UTF-8, and `None` when they are not UTF-8. Taken on trust from its
/// documentation.
#[verifier::external_body]
fn string_from_utf8(bytes: Vec<u8>) -> (text: Option<String>)
    ensures
        match text {
            Some(s) => valid_utf8(bytes@) && s@ == decode_utf8(bytes@),
            None => !valid_utf8(bytes@),
        },
{
    String::from_utf8(bytes).ok()
}

/// What reading a text makes of `bytes`: the count of its UTF-8 bytes from
/// sixteen bits, then the bytes, taken all at once.
pub open spec fn parse_text(bytes: Seq<u8>) -> Parsed<
    Seq<char>,
    CollectionDecodeError<Error, Error>,
> {
    let length = usize::parse(bytes);
    match length.outcome {
        Err(e) => Parsed { outcome: Err(CollectionDecodeError::Length(e)), used: length.used },
        Ok(count) => {
            let rest = bytes.skip(length.used as int);
            if rest.len() < count {
                Parsed {
                    outcome: Err(
                        CollectionDecodeError::Item(
                            Error::EndOfDStream { len: rest.len() as usize, ok_len: count },
                        ),
                    ),
                    used: length.used,
                }
            } else if !valid_utf8(rest.take(count as int)) {
                Parsed {
                    outcome: Err(CollectionDecodeError::Item(Error::BadString)),
                    used: length.used + count as nat,
                }
            } else {
                Parsed {
                    outcome: Ok(decode_utf8(rest.take(count as int))),
                    used: length.used + count as nat,
                }
            }
        },
    }
}

impl Decode for String {
    type Error = CollectionDecodeError<Error, Error>;

    type Model = Seq<char>;

    open spec fn model(&self) -> Seq<char> {
        self@
    }

    open spec fn parse(bytes: Seq<u8>) -> Parsed<Seq<char>, Self::Error> {
        parse_text(bytes)
    }

    fn decode(stream: &mut DStream) -> (r: Result<Self, Self::Error>) {
        let count = match usize::decode(stream) {
            Err(e) => {
                return Err(CollectionDecodeError::Length(e));
            },
            Ok(count) => count,
        };
        let ghost length = usize::parse(old(stream)@);
        let ghost rest = stream@;
        let bytes = match stream.take(count) {
            Err(e) => {
                return Err(CollectionDecodeError::Item(e));
            },
            Ok(bytes) => slice_to_vec(bytes),
        };
        assert(stream@ =~= old(stream)@.skip((length.used + count) as int));
        match string_from_utf8(bytes) {
            Some(text) => Ok(text),
            None => Err(CollectionDecodeError::Item(Error::BadString)),
        }
    }
}

impl<T: Decode> Decode for Option<T> {
    type Error = EnumDecodeError<bool, T::Error>;

    type Model = Option<T::Model>;

    open spec fn model(&self) -> Option<T::Model> {
        match self {
            None => None,
            Some(value) => Some(value.model()),
        }
    }

    /// A flag, then the value if the flag is true.
    open spec fn parse(bytes: Seq<u8>) -> Parsed<Option<T::Model>, Self::Error> {
        let flag = bool::parse(bytes);
        match flag.outcome {
            Err(e) => Parsed {
                outcome: Err(EnumDecodeError::InvalidDiscriminant(e)),
                used: flag.used,
            },
            Ok(present) => if present {
                let value = T::parse(bytes.skip(flag.used as int));
                Parsed {
                    outcome: match value.outcome {
                        Ok(v) => Ok(Some(v)),
                        Err(e) => Err(EnumDecodeError::Field(e)),
                    },
                    used: flag.used + value.used,
                }
            } else {
                Parsed { outcome: Ok(None), used: flag.used }
            },
        }
    }

    fn decode(stream: &mut DStream) -> (r: Result<Self, Self::Error>) {
        match bool::decode(stream) {
            Err(e) => Err(EnumDecodeError::InvalidDiscriminant(e)),
            Ok(present) => {
                if present {
                    let ghost flag = bool::parse(old(stream)@);
                    let ghost body = T::parse(stream@);
                    let value = T::decode(stream);
                    assert(stream@ =~= old(stream)@.skip((flag.used + body.used) as int));
                    match value {
                        Err(e) => Err(EnumDecodeError::Field(e)),
                        Ok(value) => Ok(Some(value)),
                    }
                } else {
                    Ok(None)
                }
            },
        }
    }
}

impl<T: Decode, E: Decode<Error = T::Error>> Decode for Result<T, E> {
    type Error = EnumDecodeError<bool, T::Error>;

    type Model = Result<T::Model, E::Model>;

    open spec fn model(&self) -> Result<T::Model, E::Model> {
        match self {
            Ok(value) => Ok(value.model()),
            Err(error) => Err(error.model()),
        }
    }

    /// A flag, then a value of the first type if the flag is false and of the
    /// second if it is true.
    open spec fn parse(bytes: Seq<u8>) -> Parsed<Result<T::Model, E::Model>, Self::Error> {
        let flag = bool::parse(bytes);
        match flag.outcome {
            Err(e) => Parsed {
                outcome: Err(EnumDecodeError::InvalidDiscriminant(e)),
                used: flag.used,
            },
            Ok(second) => if second {
                let value = E::parse(bytes.skip(flag.used as int));
                Parsed {
                    outcome: match value.outcome {
                        Ok(v) => Ok(Err(v)),
                        Err(e) => Err(EnumDecodeError::Field(e)),
                    },
                    used: flag.used + value.used,
                }
            } else {
                let value = T::parse(bytes.skip(flag.used as int));
                Parsed {
                    outcome: match value.outcome {
                        Ok(v) => Ok(Ok(v)),
                        Err(e) => Err(EnumDecodeError::Field(e)),
                    },
                    used: flag.used + value.used,
                }
            },
        }
    }

    fn decode(stream: &mut DStream) -> (r: Result<Self, Self::Error>) {
        match bool::decode(stream) {
            Err(e) => Err(EnumDecodeError::InvalidDiscriminant(e)),
            Ok(second) => {
                let ghost flag = bool::parse(old(stream)@);
                if second {
                    let ghost body = E::parse(stream@);
                    let value = E::decode(stream);
                    assert(stream@ =~= old(stream)@.skip((flag.used + body.used) as int));
                    match value {
                        Err(e) => Err(EnumDecodeError::Field(e)),
                        Ok(value) => Ok(Err(value)),
                    }
                } else {
                    let ghost body = T::parse(stream@);
                    let value = T::decode(stream);
                    assert(stream@ =~= old(stream)@.skip((flag.used + body.used) as int));
                    match value {
                        Err(e) => Err(EnumDecodeError::Field(e)),
                        Ok(value) => Ok(Ok(value)),
                    }
                }
            },
        }
    }
}

impl<T: Decode> Decode for Box<T> {
    type Error = T::Error;

    type Model = T::Model;

    open spec fn model(&self) -> T::Model {
        (**self).model()
    }

    open spec fn parse(bytes: Seq<u8>) -> Parsed<T::Model, T::Error> {
        T::parse(bytes)
    }

    fn decode(stream: &mut DStream) -> (r: Result<Self, T::Error>) {
        let value = T::decode(stream)?;
        Ok(Box::new(value))
    }
}

impl<T: Decode> Decode for Rc<T> {
    type Error = T::Error;

    type Model = T::Model;

    open spec fn model(&self) -> T::Model {
        (**self).model()
    }

    open spec fn parse(bytes: Seq<u8>) -> Parsed<T::Model, T::Error> {
        T::parse(bytes)
    }

    fn decode(stream: &mut DStream) -> (r: Result<Self, T::Error>) {
        let value = T::decode(stream)?;
        Ok(Rc::new(value))
    }
}

impl<T: Decode> Decode for Arc<T> {
    type Error = T::Error;

    type Model = T::Model;

    open spec fn model(&self) -> T::Model {
        (**self).model()
    }

    open spec fn parse(bytes: Seq<u8>) -> Parsed<T::Model, T::Error> {
        T::parse(bytes)
    }

    fn decode(stream: &mut DStream) -> (r: Result<Self, T::Error>) {
        let value = T::decode(stream)?;
        Ok(Arc::new(value))
    }
}

impl<T> Decode for PhantomData<T> {
    type Error = Infallible;

    type Model = ();

    open spec fn model(&self) -> () {
        ()
    }

    /// Nothing is read.
    open spec fn parse(bytes: Seq<u8>) -> Parsed<(), Infallible> {
        Parsed { outcome: Ok(()), used: 0 }
    }

    fn decode(stream: &mut DStream) -> (r: Result<Self, Infallible>) {
        assert(stream@.skip(0) =~= stream@);
        Ok(PhantomData)
    }
}

impl<T: Decode> Decode for Range<T> {
    type Error = T::Error;

    type Model = Range<T::Model>;

    open spec fn model(&self) -> Range<T::Model> {
        Range { start: self.start.model(), end: self.end.model() }
    }

    /// The start, then the end.
    open spec fn parse(bytes: Seq<u8>) -> Parsed<Range<T::Model>, T::Error> {
        let start = T::parse(bytes);
        let end = T::parse(bytes.skip(start.used as int));
        match start.outcome {
            Err(e) => Parsed { outcome: Err(e), used: start.used },
            Ok(first) => Parsed {
                outcome: match end.outcome {
                    Err(e) => Err(e),
                    Ok(last) => Ok(Range { start: first, end: last }),
                },
                used: start.used + end.used,
            },
        }
    }

    fn decode(stream: &mut DStream) -> (r: Result<Self, T::Error>) {
        let ghost first = T::parse(stream@);
        let start = T::decode(stream)?;
        let ghost last = T::parse(stream@);
        let end = T::decode(stream)?;
        assert(stream@ =~= old(stream)@.skip((first.used + last.used) as int));
        Ok(Range { start, end })
    }
}

impl<T: Decode> Decode for VecDeque<T> {
    type Error = CollectionDecodeError<Error, ItemDecodeError<usize, T::Error>>;

    type Model = Seq<T::Model>;

    open spec fn model(&self) -> Seq<T::Model> {
        models(self@)
    }

    open spec fn parse(bytes: Seq<u8>) -> Parsed<Seq<T::Model>, Self::Error> {
        parse_sequence::<T>(bytes)
    }

    fn decode(stream: &mut DStream) -> (r: Result<Self, Self::Error>) {
        let mut items = Vec::<T>::decode(stream)?;
        let ghost all = items@;
        let mut list: VecDeque<T> = VecDeque::new();
        while items.len() > 0
            invariant
                items@.len() <= all.len(),
                items@ == all.take(items@.len() as int),
                list@ == all.skip(items@.len() as int),
            decreases items@.len(),
        {
            let ghost before = items@;
            let item = items.pop().unwrap();
            list.push_front(item);
            proof {
                assert(items@ =~= all.take(items@.len() as int));
                assert(list@ =~= all.skip(items@.len() as int));
            }
        }
        assert(list@ =~= all);
        Ok(list)
    }
}

} // verus!
