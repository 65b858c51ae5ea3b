//! Deriving writers and readers for structures and enumerations.
//!
//! The derivation works on what a declaration says: the fields of a structure
//! in order; the variants of an enumeration in order, each with its name, its
//! fields and the discriminant it names, if any. What it gives is the text of
//! the items of an [`Encode`](crate::Encode) or [`Decode`](crate::Decode)
//! implementation, ready to be put between the braces of the `impl`.

use crate::discriminant::{
    all_held, distinct, lemma_resolved_prefix, resolved, AssignError, Discriminant, Discriminants,
};
use crate::repr::Repr;
use crate::text::{decimal, decimal_string, signed_decimal};
use vstd::prelude::*;
use vstd::string::StringExecFns;

verus! {

/// The fields of a variant.
#[derive(Clone, Debug, PartialEq, Eq)]
pub enum Fields {
    /// Fields with names, as in `Variant { a: A, b: B }`: the names.
    Named(Vec<String>),
    /// Fields without names, as in `Variant(A, B)`: how many there are.
    Unnamed(usize),
    /// No fields, as in `Variant`.
    Unit,
}

/// A variant of an enumeration.
#[derive(Clone, Debug, PartialEq, Eq)]
pub struct Variant {
    /// The name of the variant.
    pub ident: String,
    /// The fields of the variant.
    pub fields: Fields,
    /// The discriminant that the variant names, if it names one.
    pub discriminant: Option<Discriminant>,
}

/// A structure: its fields, in the order of their declaration.
#[derive(Clone, Debug, PartialEq, Eq)]
pub struct DataStruct {
    pub fields: Fields,
}

/// An enumeration: its variants, in the order of their declaration.
#[derive(Clone, Debug, PartialEq, Eq)]
pub struct DataEnum {
    pub variants: Vec<Variant>,
}

/// The discriminants that the variants name.
pub open spec fn explicit(variants: Seq<Variant>) -> Seq<Option<Discriminant>> {
    Seq::new(variants.len(), |i: int| variants[i].discriminant)
}

/// Whether the variants of the enumeration can be numbered in the integer kind
/// `repr`: every variant gets a value that the kind can hold, and no two get
/// the same.
pub open spec fn numbered(data: &DataEnum, repr: Repr) -> bool {
    &&& distinct(resolved(explicit(data.variants@)))
    &&& all_held(resolved(explicit(data.variants@)), repr)
}

/// The items that read a structure, up to the value that is made.
pub const DECODE_STRUCT_HEAD: &'static str =
    "type Error = \
     ::librum::error::FieldDecodeError<::librum::error::GenericDecodeError>; type Model \
     = Self; #[inline] fn decode(stream: &mut ::librum::DStream) -> \
     ::core::result::Result<Self, Self::Error> { let this = ";

/// The items that read a structure, after the value that is made.
pub const DECODE_STRUCT_TAIL: &'static str =
    "; ::core::result::Result::Ok(this) }";

/// The items that write a structure, up to the first field.
pub const ENCODE_STRUCT_HEAD: &'static str =
    "type Error = \
     ::librum::error::FieldEncodeError<::librum::error::GenericEncodeError>; #[inline] \
     fn encode(&self, stream: &mut ::librum::OStream) -> ::core::result::Result<(), \
     Self::Error> { ";

/// The items that write a structure, after the last field.
pub const ENCODE_STRUCT_TAIL: &'static str =
    "::core::result::Result::Ok(()) }";

/// The text that writes a field of a structure, up to the name of the field.
pub const WRITE_NAMED_HEAD: &'static str =
    "::librum::field::encode_field(\"";

/// The text that reads a field of a structure, up to the name of the field.
pub const READ_UNNAMED_HEAD: &'static str =
    "::librum::field::decode_field(\"";

/// The text that reads a named field of a structure, between the name that is given the value and the name that is reported.
pub const READ_NAMED_HEAD: &'static str =
    ": ::librum::field::decode_field(\"";

/// The items that read an enumeration, up to the integer kind.
pub const DECODE_ENUM_HEAD: &'static str =
    "type Error = ::librum::error::EnumDecodeError<";

/// The items that read an enumeration, between the two places that name the integer kind.
pub const DECODE_ENUM_SIGNATURE: &'static str =
    ", ::librum::error::GenericDecodeError>; type Model = Self; #[inline] fn \
     decode(stream: &mut ::librum::DStream) -> ::core::result::Result<Self, Self::Error> \
     { let discriminant = <";

/// The items that read an enumeration, between the integer kind and the arms.
pub const DECODE_ENUM_MATCH: &'static str =
    " as \
     ::librum::Decode>::decode(stream).map_err(::librum::error::EnumDecodeError::InvalidDiscriminant)?; \
     let this = match discriminant { ";

/// The items that read an enumeration, after the arms: the arm for a discriminant that no variant has, and the end.
pub const DECODE_ENUM_TAIL: &'static str =
    "value => return \
     ::core::result::Result::Err(::librum::error::EnumDecodeError::UnassignedDiscriminant \
     { value }), }; ::core::result::Result::Ok(this) }";

/// The items that write an enumeration, up to the integer kind.
pub const ENCODE_ENUM_HEAD: &'static str =
    "type Error = ::librum::error::EnumEncodeError<";

/// The items that write an enumeration, between the integer kind and the arms.
pub const ENCODE_ENUM_SIGNATURE: &'static str =
    ", ::librum::error::GenericEncodeError>; #[inline] fn encode(&self, stream: &mut \
     ::librum::OStream) -> ::core::result::Result<(), Self::Error> { match *self { ";

/// The items that write an enumeration, after the arms.
pub const ENCODE_ENUM_TAIL: &'static str =
    "} ::core::result::Result::Ok(()) }";

/// The text that writes a discriminant, between the integer kind and the value.
pub const WRITE_DISCRIMINANT_HEAD: &'static str =
    " as ::librum::Encode>::encode(&(";

/// The text that writes a discriminant, after the value.
pub const WRITE_DISCRIMINANT_TAIL: &'static str =
    "), stream).map_err(::librum::error::EnumEncodeError::Discriminant)?; ";

/// The text that writes a field of a variant, up to the name that the field is bound to.
pub const WRITE_FIELD_HEAD: &'static str =
    "::librum::Encode::encode(";

/// The text that writes a field of a variant, after the name that the field is bound to.
pub const WRITE_FIELD_TAIL: &'static str =
    ", \
     stream).map_err(::core::convert::Into::<::librum::error::GenericEncodeError>::into).map_err(::librum::error::EnumEncodeError::Field)?; ";

/// The text that reads one field of a variant.
pub const READ_FIELD: &'static str =
    "::librum::Decode::decode(stream).map_err(::core::convert::Into::<::librum::error::GenericDecodeError>::into).map_err(::librum::error::EnumDecodeError::Field)?";

/// The text that reads one field.
pub open spec fn command_text() -> Seq<char> {
    READ_FIELD@
}

/// The text that reads `count` fields without names, each followed by a
/// comma.
pub open spec fn commands_text(count: nat) -> Seq<char>
    decreases count,
{
    if count == 0 {
        Seq::empty()
    } else {
        commands_text((count - 1) as nat) + command_text() + ", "@
    }
}

/// The text that reads the fields called `names`, each followed by a comma.
pub open spec fn named_text(names: Seq<String>) -> Seq<char>
    decreases names.len(),
{
    if names.len() == 0 {
        Seq::empty()
    } else {
        named_text(names.drop_last()) + names.last()@ + ": "@ + command_text() + ", "@
    }
}

/// The text that makes a value of the variant from the fields it reads.
pub open spec fn value_text(variant: Variant) -> Seq<char> {
    match variant.fields {
        Fields::Unit => "Self::"@ + variant.ident@,
        Fields::Unnamed(count) => "Self::"@ + variant.ident@ + " ("@ + commands_text(count as nat)
            + ")"@,
        Fields::Named(names) => "Self::"@ + variant.ident@ + " { "@ + named_text(names@) + "}"@,
    }
}

/// The arms that tell the variants apart: for each variant, its discriminant,
/// an arrow, and the text that makes its value.
pub open spec fn arms_text(variants: Seq<Variant>, values: Seq<int>) -> Seq<char>
    decreases variants.len(),
{
    if variants.len() == 0 {
        Seq::empty()
    } else {
        arms_text(variants.drop_last(), values) + signed_decimal(values[variants.len() - 1])
            + " => "@ + value_text(variants.last()) + ", "@
    }
}

/// The items of the implementation that reads the enumeration: the type of
/// its failures, the type of its values, and the reader. The reader reads a
/// discriminant of kind `repr`, picks the variant that has it and reads that
/// variant's fields in order; a discriminant that no variant has is reported
/// with its value.
pub open spec fn decode_enum_text(data: &DataEnum, repr: Repr) -> Seq<char> {
    DECODE_ENUM_HEAD@ + repr.name()
        + DECODE_ENUM_SIGNATURE@
        + repr.name()
        + DECODE_ENUM_MATCH@
        + arms_text(data.variants@, resolved(explicit(data.variants@)))
        + DECODE_ENUM_TAIL@
}

/// The text that reads `count` fields without names.
fn commands(count: usize) -> (text: String)
    ensures
        text@ == commands_text(count as nat),
{
    let mut text = String::new();
    let mut done: usize = 0;
    while done < count
        invariant
            done <= count,
            text@ == commands_text(done as nat),
        decreases count - done,
    {
        text.append(READ_FIELD);
        text.append(", ");
        done = done + 1;
    }
    text
}

/// The text that reads the fields called `names`.
fn named(names: &Vec<String>) -> (text: String)
    ensures
        text@ == named_text(names@),
{
    let mut text = String::new();
    let mut done: usize = 0;
    assert(names@.take(0) =~= Seq::<String>::empty());
    while done < names.len()
        invariant
            done <= names@.len(),
            text@ == named_text(names@.take(done as int)),
        decreases names@.len() - done,
    {
        proof {
            assert(names@.take(done + 1).drop_last() =~= names@.take(done as int));
        }
        text.append(names[done].as_str());
        text.append(": ");
        text.append(READ_FIELD);
        text.append(", ");
        done = done + 1;
    }
    assert(names@.take(names@.len() as int) =~= names@);
    text
}

/// The text that makes a value of the variant from the fields it reads.
fn value(variant: &Variant) -> (text: String)
    ensures
        text@ == value_text(*variant),
{
    let mut text = String::from_str("Self::");
    text.append(variant.ident.as_str());
    match &variant.fields {
        Fields::Unit => {},
        Fields::Unnamed(count) => {
            text.append(" (");
            text.append(commands(*count).as_str());
            text.append(")");
        },
        Fields::Named(names) => {
            text.append(" { ");
            text.append(named(names).as_str());
            text.append("}");
        },
    }
    text
}

/// The items of the implementation that reads the enumeration `data`, whose
/// discriminant is of kind `repr`, as text.
///
/// The variants must be such that they can be numbered:
/// [`Discriminants::new`] tells whether they are.
#[must_use]
pub fn decode_enum(data: &DataEnum, repr: Repr) -> (code: String)
    requires
        numbered(data, repr),
    ensures
        code@ == decode_enum_text(data, repr),
{
    let table = number(data, repr);

    let mut arms = String::new();
    let mut done: usize = 0;
    assert(data.variants@.take(0) =~= Seq::<Variant>::empty());
    while done < data.variants.len()
        invariant
            done <= data.variants@.len(),
            table@ == resolved(explicit(data.variants@)),
            table@.len() == data.variants@.len(),
            arms@ == arms_text(data.variants@.take(done as int), table@),
        decreases data.variants@.len() - done,
    {
        proof {
            assert(data.variants@.take(done + 1).drop_last() =~= data.variants@.take(
                done as int,
            ));
        }
        arms.append(table.get(done).to_text().as_str());
        arms.append(" => ");
        arms.append(value(&data.variants[done]).as_str());
        arms.append(", ");
        done = done + 1;
    }
    assert(data.variants@.take(data.variants@.len() as int) =~= data.variants@);

    let mut code = String::from_str(DECODE_ENUM_HEAD);
    code.append(repr.to_str());
    code.append(DECODE_ENUM_SIGNATURE);
    code.append(repr.to_str());
    code.append(DECODE_ENUM_MATCH);
    code.append(arms.as_str());
    code.append(DECODE_ENUM_TAIL);
    code
}

/// The text that writes the field called `name`.
pub open spec fn write_named_text(name: Seq<char>) -> Seq<char> {
    WRITE_NAMED_HEAD@ + name + "\", &self."@ + name + ", stream)?; "@
}

/// The text that writes the fields called `names`, in order.
pub open spec fn writes_named_text(names: Seq<String>) -> Seq<char>
    decreases names.len(),
{
    if names.len() == 0 {
        Seq::empty()
    } else {
        writes_named_text(names.drop_last()) + write_named_text(names.last()@)
    }
}

/// The text that writes the first `count` fields of a structure whose fields
/// have no names.
pub open spec fn writes_unnamed_text(count: nat) -> Seq<char>
    decreases count,
{
    if count == 0 {
        Seq::empty()
    } else {
        writes_unnamed_text((count - 1) as nat) + write_named_text(decimal((count - 1) as nat))
    }
}

/// The text that writes the fields of a structure, in order.
pub open spec fn writes_text(fields: Fields) -> Seq<char> {
    match fields {
        Fields::Unit => Seq::empty(),
        Fields::Unnamed(count) => writes_unnamed_text(count as nat),
        Fields::Named(names) => writes_named_text(names@),
    }
}

/// The items of the implementation that writes the structure: the type of its
/// failures, and the writer, which writes the fields in order and reports the
/// first that fails by its name.
pub open spec fn encode_struct_text(data: &DataStruct) -> Seq<char> {
    ENCODE_STRUCT_HEAD@
        + writes_text(data.fields) + ENCODE_STRUCT_TAIL@
}

/// The text that reads the field called `name` of a structure with named
/// fields.
pub open spec fn read_named_text(name: Seq<char>) -> Seq<char> {
    name + READ_NAMED_HEAD@ + name + "\", stream)?, "@
}

/// The text that reads the field at place `name` of a structure whose fields
/// have no names.
pub open spec fn read_unnamed_text(name: Seq<char>) -> Seq<char> {
    READ_UNNAMED_HEAD@ + name + "\", stream)?, "@
}

/// The text that reads the fields called `names`, in order.
pub open spec fn reads_named_text(names: Seq<String>) -> Seq<char>
    decreases names.len(),
{
    if names.len() == 0 {
        Seq::empty()
    } else {
        reads_named_text(names.drop_last()) + read_named_text(names.last()@)
    }
}

/// The text that reads the first `count` fields of a structure whose fields
/// have no names.
pub open spec fn reads_unnamed_text(count: nat) -> Seq<char>
    decreases count,
{
    if count == 0 {
        Seq::empty()
    } else {
        reads_unnamed_text((count - 1) as nat) + read_unnamed_text(decimal((count - 1) as nat))
    }
}

/// The text that makes a structure from the fields it reads.
pub open spec fn construct_text(fields: Fields) -> Seq<char> {
    match fields {
        Fields::Unit => "Self"@,
        Fields::Unnamed(count) => "Self ("@ + reads_unnamed_text(count as nat) + ")"@,
        Fields::Named(names) => "Self { "@ + reads_named_text(names@) + "}"@,
    }
}

/// The items of the implementation that reads the structure: the type of its
/// failures, the type of its values, and the reader, which reads the fields in
/// order and reports the first that fails by its name.
pub open spec fn decode_struct_text(data: &DataStruct) -> Seq<char> {
    DECODE_STRUCT_HEAD@
        + construct_text(data.fields) + DECODE_STRUCT_TAIL@
}

/// The text that writes the fields called `names`.
fn writes_named(names: &Vec<String>) -> (text: String)
    ensures
        text@ == writes_named_text(names@),
{
    let mut text = String::new();
    let mut done: usize = 0;
    assert(names@.take(0) =~= Seq::<String>::empty());
    while done < names.len()
        invariant
            done <= names@.len(),
            text@ == writes_named_text(names@.take(done as int)),
        decreases names@.len() - done,
    {
        proof {
            assert(names@.take(done + 1).drop_last() =~= names@.take(done as int));
        }
        text.append(write_named(names[done].as_str()).as_str());
        done = done + 1;
    }
    assert(names@.take(names@.len() as int) =~= names@);
    text
}

/// The text that writes the field called `name`.
fn write_named(name: &str) -> (text: String)
    ensures
        text@ == write_named_text(name@),
{
    let mut text = String::from_str(WRITE_NAMED_HEAD);
    text.append(name);
    text.append("\", &self.");
    text.append(name);
    text.append(", stream)?; ");
    text
}

/// The text that writes `count` fields without names.
fn writes_unnamed(count: usize) -> (text: String)
    ensures
        text@ == writes_unnamed_text(count as nat),
{
    let mut text = String::new();
    let mut done: usize = 0;
    while done < count
        invariant
            done <= count,
            text@ == writes_unnamed_text(done as nat),
        decreases count - done,
    {
        text.append(write_named(decimal_string(done as u128).as_str()).as_str());
        done = done + 1;
    }
    text
}

/// The items of the implementation that writes the structure `data`, as text.
#[must_use]
pub fn encode_struct(data: &DataStruct) -> (code: String)
    ensures
        code@ == encode_struct_text(data),
{
    let writes = match &data.fields {
        Fields::Unit => String::new(),
        Fields::Unnamed(count) => writes_unnamed(*count),
        Fields::Named(names) => writes_named(names),
    };
    let mut code = String::from_str(ENCODE_STRUCT_HEAD);
    code.append(writes.as_str());
    code.append(ENCODE_STRUCT_TAIL);
    code
}

/// The text that reads the fields called `names`.
fn reads_named(names: &Vec<String>) -> (text: String)
    ensures
        text@ == reads_named_text(names@),
{
    let mut text = String::new();
    let mut done: usize = 0;
    assert(names@.take(0) =~= Seq::<String>::empty());
    while done < names.len()
        invariant
            done <= names@.len(),
            text@ == reads_named_text(names@.take(done as int)),
        decreases names@.len() - done,
    {
        proof {
            assert(names@.take(done + 1).drop_last() =~= names@.take(done as int));
        }
        let mut read = String::from_str(names[done].as_str());
        read.append(READ_NAMED_HEAD);
        read.append(names[done].as_str());
        read.append("\", stream)?, ");
        text.append(read.as_str());
        done = done + 1;
    }
    assert(names@.take(names@.len() as int) =~= names@);
    text
}

/// The text that reads `count` fields without names.
fn reads_unnamed(count: usize) -> (text: String)
    ensures
        text@ == reads_unnamed_text(count as nat),
{
    let mut text = String::new();
    let mut done: usize = 0;
    while done < count
        invariant
            done <= count,
            text@ == reads_unnamed_text(done as nat),
        decreases count - done,
    {
        let mut read = String::from_str(READ_UNNAMED_HEAD);
        read.append(decimal_string(done as u128).as_str());
        read.append("\", stream)?, ");
        text.append(read.as_str());
        done = done + 1;
    }
    text
}

/// The items of the implementation that reads the structure `data`, as text.
#[must_use]
pub fn decode_struct(data: &DataStruct) -> (code: String)
    ensures
        code@ == decode_struct_text(data),
{
    let construct = match &data.fields {
        Fields::Unit => String::from_str("Self"),
        Fields::Unnamed(count) => {
            let mut text = String::from_str("Self (");
            text.append(reads_unnamed(*count).as_str());
            text.append(")");
            text
        },
        Fields::Named(names) => {
            let mut text = String::from_str("Self { ");
            text.append(reads_named(names).as_str());
            text.append("}");
            text
        },
    };
    let mut code = String::from_str(DECODE_STRUCT_HEAD);
    code.append(construct.as_str());
    code.append(DECODE_STRUCT_TAIL);
    code
}

/// The text that writes the field bound to `capture` in an arm of an
/// enumeration's writer.
pub open spec fn write_capture_text(capture: Seq<char>) -> Seq<char> {
    WRITE_FIELD_HEAD@ + capture
        + WRITE_FIELD_TAIL@
}

/// The names that the first `count` fields of a variant are bound to where
/// they have none of their own, each after `ref` and followed by a comma.
pub open spec fn binds_unnamed_text(count: nat) -> Seq<char>
    decreases count,
{
    if count == 0 {
        Seq::empty()
    } else {
        binds_unnamed_text((count - 1) as nat) + "ref value"@ + decimal((count - 1) as nat) + ", "@
    }
}

/// The names of the fields of a variant, each after `ref` and followed by a
/// comma.
pub open spec fn binds_named_text(names: Seq<String>) -> Seq<char>
    decreases names.len(),
{
    if names.len() == 0 {
        Seq::empty()
    } else {
        binds_named_text(names.drop_last()) + "ref "@ + names.last()@ + ", "@
    }
}

/// The pattern that a value of the variant matches, which binds its fields.
pub open spec fn pattern_text(variant: Variant) -> Seq<char> {
    match variant.fields {
        Fields::Unit => "Self::"@ + variant.ident@,
        Fields::Unnamed(count) => "Self::"@ + variant.ident@ + " ("@ + binds_unnamed_text(
            count as nat,
        ) + ")"@,
        Fields::Named(names) => "Self::"@ + variant.ident@ + " { "@ + binds_named_text(names@)
            + "}"@,
    }
}

/// The text that writes the first `count` fields of a variant whose fields
/// have no names.
pub open spec fn captures_unnamed_text(count: nat) -> Seq<char>
    decreases count,
{
    if count == 0 {
        Seq::empty()
    } else {
        captures_unnamed_text((count - 1) as nat) + write_capture_text(
            "value"@ + decimal((count - 1) as nat),
        )
    }
}

/// The text that writes the fields of a variant called `names`.
pub open spec fn captures_named_text(names: Seq<String>) -> Seq<char>
    decreases names.len(),
{
    if names.len() == 0 {
        Seq::empty()
    } else {
        captures_named_text(names.drop_last()) + write_capture_text(names.last()@)
    }
}

/// The text that writes the fields of a variant, in order.
pub open spec fn captures_text(fields: Fields) -> Seq<char> {
    match fields {
        Fields::Unit => Seq::empty(),
        Fields::Unnamed(count) => captures_unnamed_text(count as nat),
        Fields::Named(names) => captures_named_text(names@),
    }
}

/// The arm that writes a value of the variant: its discriminant, written in
/// the kind called `kind`, then its fields.
pub open spec fn write_arm_text(variant: Variant, value: int, kind: Seq<char>) -> Seq<char> {
    pattern_text(variant) + " => { <"@ + kind + WRITE_DISCRIMINANT_HEAD@
        + signed_decimal(value)
        + WRITE_DISCRIMINANT_TAIL@ + captures_text(
        variant.fields,
    ) + "} "@
}

/// The arms that write the values of the variants.
pub open spec fn write_arms_text(variants: Seq<Variant>, values: Seq<int>, kind: Seq<char>) -> Seq<
    char,
>
    decreases variants.len(),
{
    if variants.len() == 0 {
        Seq::empty()
    } else {
        write_arms_text(variants.drop_last(), values, kind) + write_arm_text(
            variants.last(),
            values[variants.len() - 1],
            kind,
        )
    }
}

/// The items of the implementation that writes the enumeration: the type of
/// its failures, and the writer, which writes the discriminant of the value's
/// variant in the kind `repr` and then the fields of the value in order.
pub open spec fn encode_enum_text(data: &DataEnum, repr: Repr) -> Seq<char> {
    ENCODE_ENUM_HEAD@ + repr.name()
        + ENCODE_ENUM_SIGNATURE@
        + write_arms_text(
        data.variants@,
        resolved(explicit(data.variants@)),
        repr.name(),
    ) + ENCODE_ENUM_TAIL@
}

/// The text that writes the field bound to `capture`.
fn write_capture(capture: &str) -> (text: String)
    ensures
        text@ == write_capture_text(capture@),
{
    let mut text = String::from_str(WRITE_FIELD_HEAD);
    text.append(capture);
    text.append(WRITE_FIELD_TAIL);
    text
}

/// The pattern that a value of the variant matches.
fn pattern(variant: &Variant) -> (text: String)
    ensures
        text@ == pattern_text(*variant),
{
    let mut text = String::from_str("Self::");
    text.append(variant.ident.as_str());
    match &variant.fields {
        Fields::Unit => {},
        Fields::Unnamed(count) => {
            let mut binds = String::new();
            let mut done: usize = 0;
            while done < *count
                invariant
                    done <= *count,
                    binds@ == binds_unnamed_text(done as nat),
                decreases *count - done,
            {
                binds.append("ref value");
                binds.append(decimal_string(done as u128).as_str());
                binds.append(", ");
                done = done + 1;
            }
            text.append(" (");
            text.append(binds.as_str());
            text.append(")");
        },
        Fields::Named(names) => {
            let mut binds = String::new();
            let mut done: usize = 0;
            assert(names@.take(0) =~= Seq::<String>::empty());
            while done < names.len()
                invariant
                    done <= names@.len(),
                    binds@ == binds_named_text(names@.take(done as int)),
                decreases names@.len() - done,
            {
                proof {
                    assert(names@.take(done + 1).drop_last() =~= names@.take(done as int));
                }
                binds.append("ref ");
                binds.append(names[done].as_str());
                binds.append(", ");
                done = done + 1;
            }
            assert(names@.take(names@.len() as int) =~= names@);
            text.append(" { ");
            text.append(binds.as_str());
            text.append("}");
        },
    }
    text
}

/// The text that writes the fields of a variant.
fn captures(fields: &Fields) -> (text: String)
    ensures
        text@ == captures_text(*fields),
{
    let mut text = String::new();
    match fields {
        Fields::Unit => {},
        Fields::Unnamed(count) => {
            let mut done: usize = 0;
            while done < *count
                invariant
                    done <= *count,
                    text@ == captures_unnamed_text(done as nat),
                decreases *count - done,
            {
                let mut capture = String::from_str("value");
                capture.append(decimal_string(done as u128).as_str());
                text.append(write_capture(capture.as_str()).as_str());
                done = done + 1;
            }
        },
        Fields::Named(names) => {
            let mut done: usize = 0;
            assert(names@.take(0) =~= Seq::<String>::empty());
            while done < names.len()
                invariant
                    done <= names@.len(),
                    text@ == captures_named_text(names@.take(done as int)),
                decreases names@.len() - done,
            {
                proof {
                    assert(names@.take(done + 1).drop_last() =~= names@.take(done as int));
                }
                text.append(write_capture(names[done].as_str()).as_str());
                done = done + 1;
            }
            assert(names@.take(names@.len() as int) =~= names@);
        },
    }
    text
}

/// The values of the variants of `data`, numbered in the kind `repr`.
fn number(data: &DataEnum, repr: Repr) -> (table: Discriminants)
    requires
        numbered(data, repr),
    ensures
        table@ == resolved(explicit(data.variants@)),
        table@.len() == data.variants@.len(),
{
    let mut named_values: Vec<Option<Discriminant>> = Vec::new();
    let mut read: usize = 0;
    while read < data.variants.len()
        invariant
            read <= data.variants@.len(),
            named_values@ == explicit(data.variants@).take(read as int),
        decreases data.variants@.len() - read,
    {
        named_values.push(data.variants[read].discriminant);
        assert(named_values@ =~= explicit(data.variants@).take(read + 1));
        read = read + 1;
    }
    assert(named_values@ =~= explicit(data.variants@));
    let numbering = Discriminants::new(named_values.as_slice(), repr);
    proof {
        let values = resolved(explicit(data.variants@));
        lemma_resolved_prefix(explicit(data.variants@), 0);
        match numbering {
            Ok(_) => {},
            Err(AssignError::OutOfRange { variant }) => {
                assert(repr.holds(values[variant as int]));
            },
            Err(AssignError::Duplicate { variant, earlier }) => {
                assert(values[earlier as int] != values[variant as int]);
            },
        }
    }
    numbering.ok().unwrap()
}

/// The items of the implementation that writes the enumeration `data`, whose
/// discriminant is of kind `repr`, as text.
///
/// The variants must be such that they can be numbered:
/// [`Discriminants::new`] tells whether they are.
#[must_use]
pub fn encode_enum(data: &DataEnum, repr: Repr) -> (code: String)
    requires
        numbered(data, repr),
    ensures
        code@ == encode_enum_text(data, repr),
{
    let table = number(data, repr);
    let mut arms = String::new();
    let mut done: usize = 0;
    assert(data.variants@.take(0) =~= Seq::<Variant>::empty());
    while done < data.variants.len()
        invariant
            done <= data.variants@.len(),
            table@ == resolved(explicit(data.variants@)),
            table@.len() == data.variants@.len(),
            arms@ == write_arms_text(data.variants@.take(done as int), table@, repr.name()),
        decreases data.variants@.len() - done,
    {
        proof {
            assert(data.variants@.take(done + 1).drop_last() =~= data.variants@.take(
                done as int,
            ));
        }
        let variant = &data.variants[done];
        let mut arm = pattern(variant);
        arm.append(" => { <");
        arm.append(repr.to_str());
        arm.append(WRITE_DISCRIMINANT_HEAD);
        arm.append(table.get(done).to_text().as_str());
        arm.append(WRITE_DISCRIMINANT_TAIL);
        arm.append(captures(&variant.fields).as_str());
        arm.append("} ");
        arms.append(arm.as_str());
        done = done + 1;
    }
    assert(data.variants@.take(data.variants@.len() as int) =~= data.variants@);

    let mut code = String::from_str(ENCODE_ENUM_HEAD);
    code.append(repr.to_str());
    code.append(ENCODE_ENUM_SIGNATURE);
    code.append(arms.as_str());
    code.append(ENCODE_ENUM_TAIL);
    code
}

} // verus!
