//! The failures that reading and writing report.

use crate::decode::Decode;
use crate::encode::Encode;
use core::cell::BorrowError;
use core::convert::Infallible;
use vstd::prelude::*;
use vstd::std_specs::convert::{FromSpec, FromSpecImpl};

verus! {

/// Why a leaf value could not be read.
#[derive(Clone, Copy, Debug, PartialEq, Eq, Structural)]
#[allow(inconsistent_fields)]
pub enum Error {
    /// The input ended early: `ok_len` bytes were asked for and only `len`
    /// were left.
    EndOfDStream { len: usize, ok_len: usize },
    /// A boolean was neither zero nor one.
    InvalidBoolean { value: u8 },
    /// A character was not a Unicode scalar value.
    InvalidCodePoint { value: u32 },
    /// A text was not UTF-8.
    BadString,
}

/// A size that does not fit the sixteen bits that sizes are written on.
#[derive(Clone, Copy, Debug, PartialEq, Eq, Structural)]
pub struct UsizeEncodeError(pub usize);

/// A signed size that does not fit the sixteen bits that sizes are written on.
#[derive(Clone, Copy, Debug, PartialEq, Eq, Structural)]
pub struct IsizeEncodeError(pub isize);

/// An item of a collection could not be written.
#[derive(Clone, Debug, PartialEq, Eq)]
#[must_use]
pub struct ItemEncodeError<I, E> {
    /// Where the item stands in the collection.
    pub index: I,
    /// Why the item could not be written.
    pub error: E,
}

impl<I, E> ItemEncodeError<I, E> {
    /// The item's own failure, which this error wraps.
    pub fn source(&self) -> (cause: Option<&E>)
        ensures
            cause == Some(&self.error),
    {
        Some(&self.error)
    }
}

/// A collection could not be written: its length did not fit, or one of its
/// items failed.
#[derive(Clone, Debug, PartialEq, Eq)]
#[must_use]
pub enum CollectionEncodeError<L, I> {
    /// The length could not be written.
    Length(L),
    /// An item could not be written.
    Item(I),
}

/// A value of a sum type could not be written. `D` is the type of the
/// discriminant.
#[derive(Clone, Debug, PartialEq, Eq)]
#[must_use]
pub enum EnumEncodeError<D: Encode, F> {
    /// The discriminant could not be written.
    Discriminant(D::Error),
    /// A field of the variant could not be written.
    Field(F),
}

/// The declared type `core::cell::BorrowError` of the standard library: the
/// report that a cell is borrowed for writing into.
#[verifier::external_type_specification]
#[verifier::external_body]
pub struct ExBorrowError(core::cell::BorrowError);

/// The contents of a cell that is shared could not be written.
#[derive(Debug)]
#[must_use]
pub enum RefCellEncodeError<E> {
    /// The cell was being written into, so its contents could not be looked
    /// at.
    Borrow(BorrowError),
    /// The contents themselves could not be written.
    Value(E),
}

/// An item of a collection could not be read.
#[derive(Clone, Debug, PartialEq, Eq)]
#[must_use]
pub struct ItemDecodeError<I, E> {
    /// Where the item stands in the collection.
    pub index: I,
    /// Why the item could not be read.
    pub error: E,
}

impl<I, E> ItemDecodeError<I, E> {
    /// The item's own failure, which this error wraps.
    pub fn source(&self) -> (cause: Option<&E>)
        ensures
            cause == Some(&self.error),
    {
        Some(&self.error)
    }
}

/// A collection could not be read: its length was missing, or one of its items
/// failed.
#[derive(Clone, Debug, PartialEq, Eq)]
#[must_use]
pub enum CollectionDecodeError<L, I> {
    /// The length could not be read.
    Length(L),
    /// An item could not be read.
    Item(I),
}

/// A value of a sum type could not be read. `D` is the type of the
/// discriminant.
#[derive(Clone, Debug, PartialEq, Eq)]
#[must_use]
pub enum EnumDecodeError<D: Decode, F> {
    /// The discriminant itself could not be read.
    InvalidDiscriminant(D::Error),
    /// The discriminant was read, and no variant has it.
    UnassignedDiscriminant { value: D },
    /// A field of the variant could not be read.
    Field(F),
}

/// Why a value could not be read, with the place of the failure left out.
///
/// Readers of values with fields of several types report this: every failure
/// that a reader of this library reports can be turned into it.
#[derive(Clone, Copy, Debug, PartialEq, Eq, Structural)]
pub enum GenericDecodeError {
    /// A leaf value could not be read.
    Leaf(Error),
    /// A discriminant was read that no variant has.
    UnassignedDiscriminant,
}

impl From<Infallible> for GenericDecodeError {
    /// A failure that cannot happen turns into any failure at all.
    fn from(value: Infallible) -> (generic: Self) {
        GenericDecodeError::UnassignedDiscriminant
    }
}

impl FromSpecImpl<Infallible> for GenericDecodeError {
    open spec fn obeys_from_spec() -> bool {
        true
    }

    open spec fn from_spec(value: Infallible) -> Self {
        GenericDecodeError::UnassignedDiscriminant
    }
}

impl From<Error> for GenericDecodeError {
    fn from(value: Error) -> (generic: Self) {
        GenericDecodeError::Leaf(value)
    }
}

impl FromSpecImpl<Error> for GenericDecodeError {
    open spec fn obeys_from_spec() -> bool {
        true
    }

    open spec fn from_spec(value: Error) -> Self {
        GenericDecodeError::Leaf(value)
    }
}

impl<I, E> From<ItemDecodeError<I, E>> for GenericDecodeError where
    GenericDecodeError: From<E>,
 {
    /// The item's own failure, without the item's place.
    fn from(value: ItemDecodeError<I, E>) -> (generic: Self) {
        GenericDecodeError::from(value.error)
    }
}

impl<I, E> FromSpecImpl<ItemDecodeError<I, E>> for GenericDecodeError where
    GenericDecodeError: From<E>,
 {
    open spec fn obeys_from_spec() -> bool {
        <GenericDecodeError as FromSpec<E>>::obeys_from_spec()
    }

    open spec fn from_spec(value: ItemDecodeError<I, E>) -> Self {
        <GenericDecodeError as FromSpec<E>>::from_spec(value.error)
    }
}

impl<L, I> From<CollectionDecodeError<L, I>> for GenericDecodeError where
    GenericDecodeError: From<L>,
    GenericDecodeError: From<I>,
 {
    /// The failure of the length or of the item, whichever it was.
    fn from(value: CollectionDecodeError<L, I>) -> (generic: Self) {
        match value {
            CollectionDecodeError::Length(e) => GenericDecodeError::from(e),
            CollectionDecodeError::Item(e) => GenericDecodeError::from(e),
        }
    }
}

impl<L, I> FromSpecImpl<CollectionDecodeError<L, I>> for GenericDecodeError where
    GenericDecodeError: From<L>,
    GenericDecodeError: From<I>,
 {
    open spec fn obeys_from_spec() -> bool {
        <GenericDecodeError as FromSpec<L>>::obeys_from_spec()
            && <GenericDecodeError as FromSpec<I>>::obeys_from_spec()
    }

    open spec fn from_spec(value: CollectionDecodeError<L, I>) -> Self {
        match value {
            CollectionDecodeError::Length(e) => <GenericDecodeError as FromSpec<L>>::from_spec(e),
            CollectionDecodeError::Item(e) => <GenericDecodeError as FromSpec<I>>::from_spec(e),
        }
    }
}

impl<D: Decode, F> From<EnumDecodeError<D, F>> for GenericDecodeError where
    GenericDecodeError: From<D::Error>,
    GenericDecodeError: From<F>,
 {
    /// The failure of the discriminant or of the field, whichever it was; a
    /// discriminant that no variant has is told without its value.
    fn from(value: EnumDecodeError<D, F>) -> (generic: Self) {
        match value {
            EnumDecodeError::InvalidDiscriminant(e) => GenericDecodeError::from(e),
            EnumDecodeError::UnassignedDiscriminant { .. } => {
                GenericDecodeError::UnassignedDiscriminant
            },
            EnumDecodeError::Field(e) => GenericDecodeError::from(e),
        }
    }
}

impl<D: Decode, F> FromSpecImpl<EnumDecodeError<D, F>> for GenericDecodeError where
    GenericDecodeError: From<D::Error>,
    GenericDecodeError: From<F>,
 {
    open spec fn obeys_from_spec() -> bool {
        <GenericDecodeError as FromSpec<D::Error>>::obeys_from_spec()
            && <GenericDecodeError as FromSpec<F>>::obeys_from_spec()
    }

    open spec fn from_spec(value: EnumDecodeError<D, F>) -> Self {
        match value {
            EnumDecodeError::InvalidDiscriminant(e) => <GenericDecodeError as FromSpec<
                D::Error,
            >>::from_spec(e),
            EnumDecodeError::UnassignedDiscriminant { .. } => {
                GenericDecodeError::UnassignedDiscriminant
            },
            EnumDecodeError::Field(e) => <GenericDecodeError as FromSpec<F>>::from_spec(e),
        }
    }
}

/// Why a value could not be written, with the place of the failure left out.
///
/// Writers of values with fields of several types report this: every failure
/// that a writer of this library reports can be turned into it.
#[derive(Clone, Copy, Debug, PartialEq, Eq, Structural)]
pub enum GenericEncodeError {
    /// A size did not fit sixteen bits.
    Usize(UsizeEncodeError),
    /// A signed size did not fit sixteen bits.
    Isize(IsizeEncodeError),
}

/// A field of a structure could not be written.
#[derive(Clone, Debug, PartialEq, Eq)]
#[must_use]
pub struct FieldEncodeError<E> {
    /// The name of the field, or its place where fields have no names.
    pub field: &'static str,
    /// Why the field could not be written.
    pub error: E,
}

/// A field of a structure could not be read.
#[derive(Clone, Debug, PartialEq, Eq)]
#[must_use]
pub struct FieldDecodeError<E> {
    /// The name of the field, or its place where fields have no names.
    pub field: &'static str,
    /// Why the field could not be read.
    pub error: E,
}

impl<E> FieldEncodeError<E> {
    /// The field's own failure, which this error wraps.
    pub fn source(&self) -> (cause: Option<&E>)
        ensures
            cause == Some(&self.error),
    {
        Some(&self.error)
    }
}

impl<E> FieldDecodeError<E> {
    /// The field's own failure, which this error wraps.
    pub fn source(&self) -> (cause: Option<&E>)
        ensures
            cause == Some(&self.error),
    {
        Some(&self.error)
    }
}

impl From<Infallible> for GenericEncodeError {
    /// A failure that cannot happen turns into any failure at all.
    fn from(value: Infallible) -> (generic: Self) {
        GenericEncodeError::Usize(UsizeEncodeError(0))
    }
}

impl FromSpecImpl<Infallible> for GenericEncodeError {
    open spec fn obeys_from_spec() -> bool {
        true
    }

    open spec fn from_spec(value: Infallible) -> Self {
        GenericEncodeError::Usize(UsizeEncodeError(0))
    }
}

impl From<UsizeEncodeError> for GenericEncodeError {
    fn from(value: UsizeEncodeError) -> (generic: Self) {
        GenericEncodeError::Usize(value)
    }
}

impl FromSpecImpl<UsizeEncodeError> for GenericEncodeError {
    open spec fn obeys_from_spec() -> bool {
        true
    }

    open spec fn from_spec(value: UsizeEncodeError) -> Self {
        GenericEncodeError::Usize(value)
    }
}

impl From<IsizeEncodeError> for GenericEncodeError {
    fn from(value: IsizeEncodeError) -> (generic: Self) {
        GenericEncodeError::Isize(value)
    }
}

impl FromSpecImpl<IsizeEncodeError> for GenericEncodeError {
    open spec fn obeys_from_spec() -> bool {
        true
    }

    open spec fn from_spec(value: IsizeEncodeError) -> Self {
        GenericEncodeError::Isize(value)
    }
}

impl<I, E> From<ItemEncodeError<I, E>> for GenericEncodeError where
    GenericEncodeError: From<E>,
 {
    /// The item's own failure, without the item's place.
    fn from(value: ItemEncodeError<I, E>) -> (generic: Self) {
        GenericEncodeError::from(value.error)
    }
}

impl<I, E> FromSpecImpl<ItemEncodeError<I, E>> for GenericEncodeError where
    GenericEncodeError: From<E>,
 {
    open spec fn obeys_from_spec() -> bool {
        <GenericEncodeError as FromSpec<E>>::obeys_from_spec()
    }

    open spec fn from_spec(value: ItemEncodeError<I, E>) -> Self {
        <GenericEncodeError as FromSpec<E>>::from_spec(value.error)
    }
}

impl<E> From<(usize, E)> for GenericEncodeError where
    GenericEncodeError: From<E>,
 {
    /// The item's own failure, without the item's place.
    fn from(value: (usize, E)) -> (generic: Self) {
        GenericEncodeError::from(value.1)
    }
}

impl<E> FromSpecImpl<(usize, E)> for GenericEncodeError where
    GenericEncodeError: From<E>,
 {
    open spec fn obeys_from_spec() -> bool {
        <GenericEncodeError as FromSpec<E>>::obeys_from_spec()
    }

    open spec fn from_spec(value: (usize, E)) -> Self {
        <GenericEncodeError as FromSpec<E>>::from_spec(value.1)
    }
}

impl<L, I> From<CollectionEncodeError<L, I>> for GenericEncodeError where
    GenericEncodeError: From<L>,
    GenericEncodeError: From<I>,
 {
    /// The failure of the length or of the item, whichever it was.
    fn from(value: CollectionEncodeError<L, I>) -> (generic: Self) {
        match value {
            CollectionEncodeError::Length(e) => GenericEncodeError::from(e),
            CollectionEncodeError::Item(e) => GenericEncodeError::from(e),
        }
    }
}

impl<L, I> FromSpecImpl<CollectionEncodeError<L, I>> for GenericEncodeError where
    GenericEncodeError: From<L>,
    GenericEncodeError: From<I>,
 {
    open spec fn obeys_from_spec() -> bool {
        <GenericEncodeError as FromSpec<L>>::obeys_from_spec()
            && <GenericEncodeError as FromSpec<I>>::obeys_from_spec()
    }

    open spec fn from_spec(value: CollectionEncodeError<L, I>) -> Self {
        match value {
            CollectionEncodeError::Length(e) => <GenericEncodeError as FromSpec<L>>::from_spec(e),
            CollectionEncodeError::Item(e) => <GenericEncodeError as FromSpec<I>>::from_spec(e),
        }
    }
}

impl<D: Encode, F> From<EnumEncodeError<D, F>> for GenericEncodeError where
    GenericEncodeError: From<D::Error>,
    GenericEncodeError: From<F>,
 {
    /// The failure of the discriminant or of the field, whichever it was.
    fn from(value: EnumEncodeError<D, F>) -> (generic: Self) {
        match value {
            EnumEncodeError::Discriminant(e) => GenericEncodeError::from(e),
            EnumEncodeError::Field(e) => GenericEncodeError::from(e),
        }
    }
}

impl<D: Encode, F> FromSpecImpl<EnumEncodeError<D, F>> for GenericEncodeError where
    GenericEncodeError: From<D::Error>,
    GenericEncodeError: From<F>,
 {
    open spec fn obeys_from_spec() -> bool {
        <GenericEncodeError as FromSpec<D::Error>>::obeys_from_spec()
            && <GenericEncodeError as FromSpec<F>>::obeys_from_spec()
    }

    open spec fn from_spec(value: EnumEncodeError<D, F>) -> Self {
        match value {
            EnumEncodeError::Discriminant(e) => <GenericEncodeError as FromSpec<
                D::Error,
            >>::from_spec(e),
            EnumEncodeError::Field(e) => <GenericEncodeError as FromSpec<F>>::from_spec(e),
        }
    }
}

impl<E> From<FieldEncodeError<E>> for GenericEncodeError where
    GenericEncodeError: From<E>,
 {
    /// The field's own failure, without the field's name.
    fn from(value: FieldEncodeError<E>) -> (generic: Self) {
        GenericEncodeError::from(value.error)
    }
}

impl<E> FromSpecImpl<FieldEncodeError<E>> for GenericEncodeError where
    GenericEncodeError: From<E>,
 {
    open spec fn obeys_from_spec() -> bool {
        <GenericEncodeError as FromSpec<E>>::obeys_from_spec()
    }

    open spec fn from_spec(value: FieldEncodeError<E>) -> Self {
        <GenericEncodeError as FromSpec<E>>::from_spec(value.error)
    }
}

impl<E> From<FieldDecodeError<E>> for GenericDecodeError where
    GenericDecodeError: From<E>,
 {
    /// The field's own failure, without the field's name.
    fn from(value: FieldDecodeError<E>) -> (generic: Self) {
        GenericDecodeError::from(value.error)
    }
}

impl<E> FromSpecImpl<FieldDecodeError<E>> for GenericDecodeError where
    GenericDecodeError: From<E>,
 {
    open spec fn obeys_from_spec() -> bool {
        <GenericDecodeError as FromSpec<E>>::obeys_from_spec()
    }

    open spec fn from_spec(value: FieldDecodeError<E>) -> Self {
        <GenericDecodeError as FromSpec<E>>::from_spec(value.error)
    }
}

} // verus!
