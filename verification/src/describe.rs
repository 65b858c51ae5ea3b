//! Failures in words.
//!
//! Every failure can be told as a sentence. A failure that wraps another one
//! names the place where it happened and then lets the inner failure speak.

use crate::decode::Decode;
use crate::discriminant::Discriminant;
use crate::encode::Encode;
use crate::discriminant::AssignError;
use crate::error::{
    CollectionDecodeError, CollectionEncodeError, EnumDecodeError, EnumEncodeError, Error,
    FieldDecodeError, FieldEncodeError, GenericDecodeError, GenericEncodeError, IsizeEncodeError,
    ItemDecodeError, ItemEncodeError, RefCellEncodeError, UsizeEncodeError,
};
use crate::text::{decimal, decimal_string, signed_decimal};
use core::convert::Infallible;
use vstd::prelude::*;
use vstd::string::StringExecFns;

verus! {

/// A value that can be told in words.
pub trait Describe {
    /// The words.
    open spec fn description(&self) -> Seq<char> {
        arbitrary()
    }

    /// Tells the value in words.
    fn describe(&self) -> (text: String)
        ensures
            text@ == self.description(),
    ;
}

impl Describe for Infallible {
    /// Nothing: there is no such failure.
    open spec fn description(&self) -> Seq<char> {
        Seq::empty()
    }

    fn describe(&self) -> (text: String) {
        String::new()
    }
}

impl Describe for bool {
    open spec fn description(&self) -> Seq<char> {
        if *self {
            "true"@
        } else {
            "false"@
        }
    }

    fn describe(&self) -> (text: String) {
        if *self {
            String::from_str("true")
        } else {
            String::from_str("false")
        }
    }
}

impl Describe for u8 {
    /// The number in decimal.
    open spec fn description(&self) -> Seq<char> {
        decimal(*self as nat)
    }

    fn describe(&self) -> (text: String) {
        decimal_string(*self as u128)
    }
}

impl Describe for u16 {
    /// The number in decimal.
    open spec fn description(&self) -> Seq<char> {
        decimal(*self as nat)
    }

    fn describe(&self) -> (text: String) {
        decimal_string(*self as u128)
    }
}

impl Describe for u32 {
    /// The number in decimal.
    open spec fn description(&self) -> Seq<char> {
        decimal(*self as nat)
    }

    fn describe(&self) -> (text: String) {
        decimal_string(*self as u128)
    }
}

impl Describe for u64 {
    /// The number in decimal.
    open spec fn description(&self) -> Seq<char> {
        decimal(*self as nat)
    }

    fn describe(&self) -> (text: String) {
        decimal_string(*self as u128)
    }
}

impl Describe for u128 {
    /// The number in decimal.
    open spec fn description(&self) -> Seq<char> {
        decimal(*self as nat)
    }

    fn describe(&self) -> (text: String) {
        decimal_string(*self)
    }
}

impl Describe for usize {
    /// The number in decimal.
    open spec fn description(&self) -> Seq<char> {
        decimal(*self as nat)
    }

    fn describe(&self) -> (text: String) {
        decimal_string(*self as u128)
    }
}

impl Describe for i8 {
    /// The number in decimal, with its sign if it is negative.
    open spec fn description(&self) -> Seq<char> {
        signed_decimal(*self as int)
    }

    fn describe(&self) -> (text: String) {
        Discriminant::from_i128(*self as i128).to_text()
    }
}

impl Describe for i16 {
    /// The number in decimal, with its sign if it is negative.
    open spec fn description(&self) -> Seq<char> {
        signed_decimal(*self as int)
    }

    fn describe(&self) -> (text: String) {
        Discriminant::from_i128(*self as i128).to_text()
    }
}

impl Describe for i32 {
    /// The number in decimal, with its sign if it is negative.
    open spec fn description(&self) -> Seq<char> {
        signed_decimal(*self as int)
    }

    fn describe(&self) -> (text: String) {
        Discriminant::from_i128(*self as i128).to_text()
    }
}

impl Describe for i64 {
    /// The number in decimal, with its sign if it is negative.
    open spec fn description(&self) -> Seq<char> {
        signed_decimal(*self as int)
    }

    fn describe(&self) -> (text: String) {
        Discriminant::from_i128(*self as i128).to_text()
    }
}

impl Describe for i128 {
    /// The number in decimal, with its sign if it is negative.
    open spec fn description(&self) -> Seq<char> {
        signed_decimal(*self as int)
    }

    fn describe(&self) -> (text: String) {
        Discriminant::from_i128(*self).to_text()
    }
}

impl Describe for isize {
    /// The number in decimal, with its sign if it is negative.
    open spec fn description(&self) -> Seq<char> {
        signed_decimal(*self as int)
    }

    fn describe(&self) -> (text: String) {
        Discriminant::from_i128(*self as i128).to_text()
    }
}

impl Describe for Error {
    open spec fn description(&self) -> Seq<char> {
        match self {
            Error::EndOfDStream { len, ok_len } => "("@
                + ok_len.description()
                + ") byte(s) were requested but only ("@
                + len.description()
                + ") byte(s) were left"@,
            Error::InvalidBoolean { value } => "expected a boolean but got `"@
                + value.description()
                + "`"@,
            Error::InvalidCodePoint { value } => "code point `"@
                + value.description()
                + "` is not a character"@,
            Error::BadString => "text is not valid UTF-8"@,
        }
    }

    fn describe(&self) -> (text: String) {
        match self {
            Error::EndOfDStream { len, ok_len } => {
                let mut text = String::from_str("(");
                text.append(ok_len.describe().as_str());
                text.append(") byte(s) were requested but only (");
                text.append(len.describe().as_str());
                text.append(") byte(s) were left");
                text
            },
            Error::InvalidBoolean { value } => {
                let mut text = String::from_str("expected a boolean but got `");
                text.append(value.describe().as_str());
                text.append("`");
                text
            },
            Error::InvalidCodePoint { value } => {
                let mut text = String::from_str("code point `");
                text.append(value.describe().as_str());
                text.append("` is not a character");
                text
            },
            Error::BadString => String::from_str("text is not valid UTF-8"),
        }
    }
}

impl Describe for UsizeEncodeError {
    open spec fn description(&self) -> Seq<char> {
        "size `"@ + self.0.description() + "` cannot be written on sixteen bits"@
    }

    fn describe(&self) -> (text: String) {
        let mut text = String::from_str("size `");
        text.append(self.0.describe().as_str());
        text.append("` cannot be written on sixteen bits");
        text
    }
}

impl Describe for IsizeEncodeError {
    open spec fn description(&self) -> Seq<char> {
        "signed size `"@ + self.0.description() + "` cannot be written on sixteen bits"@
    }

    fn describe(&self) -> (text: String) {
        let mut text = String::from_str("signed size `");
        text.append(self.0.describe().as_str());
        text.append("` cannot be written on sixteen bits");
        text
    }
}

impl<I: Describe, E: Describe> Describe for ItemEncodeError<I, E> {
    open spec fn description(&self) -> Seq<char> {
        "could not encode item at `"@
            + self.index.description()
            + "`: "@
            + self.error.description()
    }

    fn describe(&self) -> (text: String) {
        let mut text = String::from_str("could not encode item at `");
        text.append(self.index.describe().as_str());
        text.append("`: ");
        text.append(self.error.describe().as_str());
        text
    }
}

impl<E: Describe> Describe for (usize, E) {
    /// A failure with the place of the item that it is about.
    open spec fn description(&self) -> Seq<char> {
        "could not encode item at `"@
            + self.0.description()
            + "`: "@
            + self.1.description()
    }

    fn describe(&self) -> (text: String) {
        let mut text = String::from_str("could not encode item at `");
        text.append(self.0.describe().as_str());
        text.append("`: ");
        text.append(self.1.describe().as_str());
        text
    }
}

impl<L: Describe, I: Describe> Describe for CollectionEncodeError<L, I> {
    open spec fn description(&self) -> Seq<char> {
        match self {
            CollectionEncodeError::Length(e) => "could not encode collection length: "@
                + e.description(),
            CollectionEncodeError::Item(e) => "could not encode collection: "@
                + e.description(),
        }
    }

    fn describe(&self) -> (text: String) {
        match self {
            CollectionEncodeError::Length(e) => {
                let mut text = String::from_str("could not encode collection length: ");
                text.append(e.describe().as_str());
                text
            },
            CollectionEncodeError::Item(e) => {
                let mut text = String::from_str("could not encode collection: ");
                text.append(e.describe().as_str());
                text
            },
        }
    }
}

impl<D: Encode, F: Describe> Describe for EnumEncodeError<D, F> where D::Error: Describe {
    open spec fn description(&self) -> Seq<char> {
        match self {
            EnumEncodeError::Discriminant(e) => "could not encode discriminant: "@
                + e.description(),
            EnumEncodeError::Field(e) => "could not encode field: "@ + e.description(),
        }
    }

    fn describe(&self) -> (text: String) {
        match self {
            EnumEncodeError::Discriminant(e) => {
                let mut text = String::from_str("could not encode discriminant: ");
                text.append(e.describe().as_str());
                text
            },
            EnumEncodeError::Field(e) => {
                let mut text = String::from_str("could not encode field: ");
                text.append(e.describe().as_str());
                text
            },
        }
    }
}

impl<I: Describe, E: Describe> Describe for ItemDecodeError<I, E> {
    open spec fn description(&self) -> Seq<char> {
        "could not decode item at `"@
            + self.index.description()
            + "`: "@
            + self.error.description()
    }

    fn describe(&self) -> (text: String) {
        let mut text = String::from_str("could not decode item at `");
        text.append(self.index.describe().as_str());
        text.append("`: ");
        text.append(self.error.describe().as_str());
        text
    }
}

impl<L: Describe, I: Describe> Describe for CollectionDecodeError<L, I> {
    open spec fn description(&self) -> Seq<char> {
        match self {
            CollectionDecodeError::Length(e) => "could not decode collection length: "@
                + e.description(),
            CollectionDecodeError::Item(e) => "could not decode collection: "@
                + e.description(),
        }
    }

    fn describe(&self) -> (text: String) {
        match self {
            CollectionDecodeError::Length(e) => {
                let mut text = String::from_str("could not decode collection length: ");
                text.append(e.describe().as_str());
                text
            },
            CollectionDecodeError::Item(e) => {
                let mut text = String::from_str("could not decode collection: ");
                text.append(e.describe().as_str());
                text
            },
        }
    }
}

impl<D: Decode + Describe, F: Describe> Describe for EnumDecodeError<D, F> where
    D::Error: Describe,
 {
    open spec fn description(&self) -> Seq<char> {
        match self {
            EnumDecodeError::InvalidDiscriminant(e) => "could not decode discriminant: "@
                + e.description(),
            EnumDecodeError::UnassignedDiscriminant { value } => "discriminant `"@
                + value.description()
                + "` is not assigned to any variant"@,
            EnumDecodeError::Field(e) => "could not decode field: "@ + e.description(),
        }
    }

    fn describe(&self) -> (text: String) {
        match self {
            EnumDecodeError::InvalidDiscriminant(e) => {
                let mut text = String::from_str("could not decode discriminant: ");
                text.append(e.describe().as_str());
                text
            },
            EnumDecodeError::UnassignedDiscriminant { value } => {
                let mut text = String::from_str("discriminant `");
                text.append(value.describe().as_str());
                text.append("` is not assigned to any variant");
                text
            },
            EnumDecodeError::Field(e) => {
                let mut text = String::from_str("could not decode field: ");
                text.append(e.describe().as_str());
                text
            },
        }
    }
}

impl Describe for GenericDecodeError {
    open spec fn description(&self) -> Seq<char> {
        match self {
            GenericDecodeError::Leaf(e) => e.description(),
            GenericDecodeError::UnassignedDiscriminant => {
                "discriminant is not assigned to any variant"@
            },
        }
    }

    fn describe(&self) -> (text: String) {
        match self {
            GenericDecodeError::Leaf(e) => e.describe(),
            GenericDecodeError::UnassignedDiscriminant => {
                String::from_str("discriminant is not assigned to any variant")
            },
        }
    }
}

impl Describe for GenericEncodeError {
    open spec fn description(&self) -> Seq<char> {
        match self {
            GenericEncodeError::Usize(e) => e.description(),
            GenericEncodeError::Isize(e) => e.description(),
        }
    }

    fn describe(&self) -> (text: String) {
        match self {
            GenericEncodeError::Usize(e) => e.describe(),
            GenericEncodeError::Isize(e) => e.describe(),
        }
    }
}

impl<E: Describe> Describe for RefCellEncodeError<E> {
    open spec fn description(&self) -> Seq<char> {
        match self {
            RefCellEncodeError::Borrow(_) => "cell is being written into"@,
            RefCellEncodeError::Value(e) => "could not encode the contents of the cell: "@
                + e.description(),
        }
    }

    fn describe(&self) -> (text: String) {
        match self {
            RefCellEncodeError::Borrow(_) => String::from_str("cell is being written into"),
            RefCellEncodeError::Value(e) => {
                let mut text = String::from_str("could not encode the contents of the cell: ");
                text.append(e.describe().as_str());
                text
            },
        }
    }
}

impl<E: Describe> Describe for FieldEncodeError<E> {
    open spec fn description(&self) -> Seq<char> {
        "could not encode field `"@ + self.field@ + "`: "@ + self.error.description()
    }

    fn describe(&self) -> (text: String) {
        let mut text = String::from_str("could not encode field `");
        text.append(String::from_str(self.field).as_str());
        text.append("`: ");
        text.append(self.error.describe().as_str());
        text
    }
}

impl<E: Describe> Describe for FieldDecodeError<E> {
    open spec fn description(&self) -> Seq<char> {
        "could not decode field `"@ + self.field@ + "`: "@ + self.error.description()
    }

    fn describe(&self) -> (text: String) {
        let mut text = String::from_str("could not decode field `");
        text.append(String::from_str(self.field).as_str());
        text.append("`: ");
        text.append(self.error.describe().as_str());
        text
    }
}

impl Describe for AssignError {
    open spec fn description(&self) -> Seq<char> {
        match self {
            AssignError::OutOfRange { variant } => "discriminant of variant `"@
                + variant.description()
                + "` is out of range"@,
            AssignError::Duplicate { variant, earlier } => "discriminant of variant `"@
                + variant.description()
                + "` is already that of variant `"@
                + earlier.description()
                + "`"@,
        }
    }

    fn describe(&self) -> (text: String) {
        match self {
            AssignError::OutOfRange { variant } => {
                let mut text = String::from_str("discriminant of variant `");
                text.append(variant.describe().as_str());
                text.append("` is out of range");
                text
            },
            AssignError::Duplicate { variant, earlier } => {
                let mut text = String::from_str("discriminant of variant `");
                text.append(variant.describe().as_str());
                text.append("` is already that of variant `");
                text.append(earlier.describe().as_str());
                text.append("`");
                text
            },
        }
    }
}

} // verus!
