//! The integer kinds that a discriminant can be written in.

use proc_macro2::{Ident, Span};
use syn::{Path, Type, TypePath};
use vstd::prelude::*;
use vstd::string::StringExecFns;

verus! {

/// The kind of integer that carries the discriminant of an enumeration.
///
/// Only the primitive integers are offered. Where an enumeration names none,
/// [`Repr::Isize`] is meant.
#[derive(Clone, Copy, Debug, Eq, PartialEq, Structural)]
pub enum Repr {
    U8,
    I8,
    U16,
    I16,
    U32,
    I32,
    U64,
    I64,
    U128,
    I128,
    Usize,
    Isize,
}

/// What the derivation reads of an attribute: the name it is invoked by, and
/// the names listed between its brackets, in order.
#[derive(Clone, Debug, PartialEq, Eq)]
pub struct Attribute {
    /// The attribute's name, such as `repr` in `#[repr(u8)]`.
    pub path: String,
    /// The names between the brackets, such as `u8`.
    pub arguments: Vec<String>,
}

impl Attribute {
    /// Whether this is a `repr` attribute.
    pub open spec fn is_repr(&self) -> bool {
        self.path@ == "repr"@
    }

    /// Whether the name at `index` between the brackets is an integer kind.
    pub open spec fn names_kind(&self, index: int) -> bool {
        Repr::named(self.arguments@[index]@) is Some
    }
}

/// Whether every name listed in a `repr` attribute is an integer kind.
pub open spec fn derivable(attrs: Seq<Attribute>) -> bool {
    forall|i: int, j: int|
        0 <= i < attrs.len() && attrs[i].is_repr() && 0 <= j < attrs[i].arguments@.len()
            ==> #[trigger] attrs[i].names_kind(j)
}

/// The integer kind that the attributes choose: the last name of the last
/// `repr` attribute that lists any.
pub open spec fn selected(attrs: Seq<Attribute>) -> Option<Repr>
    decreases attrs.len(),
{
    if attrs.len() == 0 {
        None
    } else if attrs.last().is_repr() && attrs.last().arguments@.len() > 0 {
        Repr::named(attrs.last().arguments@.last()@)
    } else {
        selected(attrs.drop_last())
    }
}

/// The declared type `proc_macro2::Span`.
#[verifier::external_type_specification]
#[verifier::external_body]
pub struct ExSpan(proc_macro2::Span);

/// The declared type `proc_macro2::Ident`.
#[verifier::external_type_specification]
#[verifier::external_body]
pub struct ExIdent(proc_macro2::Ident);

/// The declared type `syn::Path`.
#[verifier::external_type_specification]
#[verifier::external_body]
pub struct ExPath(syn::Path);

/// The declared type `syn::Type`.
#[verifier::external_type_specification]
#[verifier::external_body]
pub struct ExType(syn::Type);

/// Whether `c` is one of the letters `a` to `z` and `A` to `Z`.
pub open spec fn is_letter(c: char) -> bool {
    ('a' <= c && c <= 'z') || ('A' <= c && c <= 'Z')
}

/// Whether `c` is one of the digits `0` to `9`.
pub open spec fn is_digit(c: char) -> bool {
    '0' <= c && c <= '9'
}

/// Whether `name` is a plain identifier: a letter, then letters, digits and
/// underscores.
pub open spec fn is_plain_ident(name: Seq<char>) -> bool {
    &&& name.len() > 0
    &&& is_letter(name[0])
    &&& forall|i: int|
        0 <= i < name.len() ==> is_letter(#[trigger] name[i]) || is_digit(name[i]) || name[i]
            == '_'
}

/// The identifier that `proc_macro2::Ident::new` makes of a text and a span.
pub uninterp spec fn ident_of(name: Seq<char>, span: Span) -> Ident;

/// The path that `syn::Path::from` makes of an identifier: the one segment
/// that the identifier is, with no leading colon and no arguments.
pub uninterp spec fn path_from(ident: Ident) -> Path;

/// The type that `syn::Type::Path` makes of a path: the type that the path
/// names, with no qualified self.
pub uninterp spec fn type_from(path: Path) -> Type;

/// `proc_macro2::Ident::new`: an identifier spelt `name` that carries `span`.
/// The call panics on a text that is empty, that is a number, or that holds a
/// character no identifier may hold; a plain identifier is none of these.
/// What comes back is named after the call: it depends on the text and the
/// span alone.
#[verifier::external_body]
fn new_ident(name: &str, span: Span) -> (ident: Ident)
    requires
        is_plain_ident(name@),
    ensures
        ident == ident_of(name@, span),
{
    Ident::new(name, span)
}

/// `syn::Path::from`: the path made of the one segment `ident`, with no
/// leading colon and no arguments. What comes back is named after the call:
/// it depends on the identifier alone.
#[verifier::external_body]
fn path_of(ident: Ident) -> (path: Path)
    ensures
        path == path_from(ident),
{
    Path::from(ident)
}

/// `syn::Type::Path`: the type that `path` names, with no qualified self.
/// What comes back is named after the call: it depends on the path alone.
#[verifier::external_body]
fn type_of(path: Path) -> (ty: Type)
    ensures
        ty == type_from(path),
{
    Type::Path(TypePath { qself: None, path })
}

impl Repr {
    /// The name of the integer kind, as Rust spells it.
    pub open spec fn name(self) -> Seq<char> {
        match self {
            Repr::U8 => "u8"@,
            Repr::I8 => "i8"@,
            Repr::U16 => "u16"@,
            Repr::I16 => "i16"@,
            Repr::U32 => "u32"@,
            Repr::I32 => "i32"@,
            Repr::U64 => "u64"@,
            Repr::I64 => "i64"@,
            Repr::U128 => "u128"@,
            Repr::I128 => "i128"@,
            Repr::Usize => "usize"@,
            Repr::Isize => "isize"@,
        }
    }

    /// The integer kind that `name` spells, if it spells one.
    pub open spec fn named(name: Seq<char>) -> Option<Repr> {
        if name == "u8"@ {
            Some(Repr::U8)
        } else if name == "i8"@ {
            Some(Repr::I8)
        } else if name == "u16"@ {
            Some(Repr::U16)
        } else if name == "i16"@ {
            Some(Repr::I16)
        } else if name == "u32"@ {
            Some(Repr::U32)
        } else if name == "i32"@ {
            Some(Repr::I32)
        } else if name == "u64"@ {
            Some(Repr::U64)
        } else if name == "i64"@ {
            Some(Repr::I64)
        } else if name == "u128"@ {
            Some(Repr::U128)
        } else if name == "i128"@ {
            Some(Repr::I128)
        } else if name == "usize"@ {
            Some(Repr::Usize)
        } else if name == "isize"@ {
            Some(Repr::Isize)
        } else {
            None
        }
    }

    /// How many bytes the integer kind is written on. The two sizes are
    /// written on two, whatever the machine.
    pub open spec fn spec_width(self) -> nat {
        match self {
            Repr::U8 | Repr::I8 => 1,
            Repr::U16 | Repr::I16 | Repr::Usize | Repr::Isize => 2,
            Repr::U32 | Repr::I32 => 4,
            Repr::U64 | Repr::I64 => 8,
            Repr::U128 | Repr::I128 => 16,
        }
    }

    /// Whether the integer kind has negative values.
    pub open spec fn spec_is_signed(self) -> bool {
        match self {
            Repr::I8 | Repr::I16 | Repr::I32 | Repr::I64 | Repr::I128 | Repr::Isize => true,
            _ => false,
        }
    }

    /// The name of the integer kind, as Rust spells it.
    #[must_use]
    pub fn to_str(self) -> (name: &'static str)
        ensures
            name@ == self.name(),
    {
        match self {
            Repr::U8 => "u8",
            Repr::I8 => "i8",
            Repr::U16 => "u16",
            Repr::I16 => "i16",
            Repr::U32 => "u32",
            Repr::I32 => "i32",
            Repr::U64 => "u64",
            Repr::I64 => "i64",
            Repr::U128 => "u128",
            Repr::I128 => "i128",
            Repr::Usize => "usize",
            Repr::Isize => "isize",
        }
    }

    /// The integer kind that `name` spells, if it spells one.
    #[must_use]
    pub fn from_name(name: &str) -> (repr: Option<Repr>)
        ensures
            repr == Self::named(name@),
    {
        let name = String::from_str(name);
        if name == String::from_str("u8") {
            Some(Repr::U8)
        } else if name == String::from_str("i8") {
            Some(Repr::I8)
        } else if name == String::from_str("u16") {
            Some(Repr::U16)
        } else if name == String::from_str("i16") {
            Some(Repr::I16)
        } else if name == String::from_str("u32") {
            Some(Repr::U32)
        } else if name == String::from_str("i32") {
            Some(Repr::I32)
        } else if name == String::from_str("u64") {
            Some(Repr::U64)
        } else if name == String::from_str("i64") {
            Some(Repr::I64)
        } else if name == String::from_str("u128") {
            Some(Repr::U128)
        } else if name == String::from_str("i128") {
            Some(Repr::I128)
        } else if name == String::from_str("usize") {
            Some(Repr::Usize)
        } else if name == String::from_str("isize") {
            Some(Repr::Isize)
        } else {
            None
        }
    }

    /// The integer kind that the attributes of an enumeration choose, if they
    /// choose one. Attributes other than `repr` are passed over. Where several
    /// names are listed, the last one counts.
    ///
    /// Every name in a `repr` attribute must be an integer kind:
    /// [`Repr::offending`] finds one that is not.
    #[must_use]
    pub fn get(attrs: &[Attribute]) -> (repr: Option<Self>)
        requires
            derivable(attrs@),
        ensures
            repr == selected(attrs@),
    {
        let mut this: Option<Repr> = None;
        let mut i: usize = 0;
        while i < attrs.len()
            invariant
                i <= attrs@.len(),
                derivable(attrs@),
                this == selected(attrs@.take(i as int)),
            decreases attrs@.len() - i,
        {
            let attr = &attrs[i];
            proof {
                assert(attrs@.take(i + 1).drop_last() =~= attrs@.take(i as int));
                assert(attrs@.take(i + 1).last() == attrs@[i as int]);
            }
            if attr.path == String::from_str("repr") {
                let mut j: usize = 0;
                while j < attr.arguments.len()
                    invariant
                        j <= attr.arguments@.len(),
                        i < attrs@.len(),
                        attr == attrs@[i as int],
                        attr.is_repr(),
                        derivable(attrs@),
                        this == (if j == 0 {
                            selected(attrs@.take(i as int))
                        } else {
                            Repr::named(attr.arguments@[j - 1]@)
                        }),
                    decreases attr.arguments@.len() - j,
                {
                    assert(attrs@[i as int].names_kind(j as int));
                    this = Repr::from_name(attr.arguments[j].as_str());
                    j = j + 1;
                }
            }
            i = i + 1;
        }
        assert(attrs@.take(attrs@.len() as int) =~= attrs@);
        this
    }

    /// Where the first name stands that is listed in a `repr` attribute and is
    /// no integer kind: the place of the attribute, and the place of the name
    /// in it. `None` when there is no such name.
    #[must_use]
    pub fn offending(attrs: &[Attribute]) -> (place: Option<(usize, usize)>)
        ensures
            match place {
                None => derivable(attrs@),
                Some((i, j)) => {
                    &&& i < attrs@.len()
                    &&& attrs@[i as int].is_repr()
                    &&& j < attrs@[i as int].arguments@.len()
                    &&& !attrs@[i as int].names_kind(j as int)
                    &&& derivable(attrs@.take(i as int))
                    &&& forall|k: int| 0 <= k < j ==> #[trigger] attrs@[i as int].names_kind(k)
                },
            },
    {
        let mut i: usize = 0;
        while i < attrs.len()
            invariant
                i <= attrs@.len(),
                derivable(attrs@.take(i as int)),
            decreases attrs@.len() - i,
        {
            let attr = &attrs[i];
            if attr.path == String::from_str("repr") {
                let mut j: usize = 0;
                while j < attr.arguments.len()
                    invariant
                        j <= attr.arguments@.len(),
                        i < attrs@.len(),
                        attr == attrs@[i as int],
                        attr.is_repr(),
                        derivable(attrs@.take(i as int)),
                        forall|k: int| 0 <= k < j ==> #[trigger] attrs@[i as int].names_kind(k),
                    decreases attr.arguments@.len() - j,
                {
                    if Repr::from_name(attr.arguments[j].as_str()).is_none() {
                        return Some((i, j));
                    }
                    j = j + 1;
                }
            }
            proof {
                let more = attrs@.take(i + 1);
                assert forall|a: int, b: int|
                    0 <= a < more.len() && more[a].is_repr() && 0 <= b < more[a].arguments@.len()
                    implies #[trigger] more[a].names_kind(b) by {
                    if a < i {
                        assert(attrs@.take(i as int)[a] == more[a]);
                        assert(attrs@.take(i as int)[a].names_kind(b));
                    }
                }
            }
            i = i + 1;
        }
        assert(attrs@.take(attrs@.len() as int) =~= attrs@);
        None
    }

    /// How many bytes the integer kind is written on.
    #[must_use]
    pub fn width(self) -> (width: usize)
        ensures
            width == self.spec_width(),
    {
        match self {
            Repr::U8 | Repr::I8 => 1,
            Repr::U16 | Repr::I16 | Repr::Usize | Repr::Isize => 2,
            Repr::U32 | Repr::I32 => 4,
            Repr::U64 | Repr::I64 => 8,
            Repr::U128 | Repr::I128 => 16,
        }
    }

    /// Whether the integer kind has negative values.
    #[must_use]
    pub fn is_signed(self) -> (signed: bool)
        ensures
            signed == self.spec_is_signed(),
    {
        match self {
            Repr::I8 | Repr::I16 | Repr::I32 | Repr::I64 | Repr::I128 | Repr::Isize => true,
            _ => false,
        }
    }

    /// The name of every integer kind is a plain identifier, and no two kinds
    /// share a name.
    pub proof fn lemma_names(self)
        ensures
            is_plain_ident(self.name()),
            Self::named(self.name()) == Some(self),
    {
        reveal_strlit("u8");
        reveal_strlit("i8");
        reveal_strlit("u16");
        reveal_strlit("i16");
        reveal_strlit("u32");
        reveal_strlit("i32");
        reveal_strlit("u64");
        reveal_strlit("i64");
        reveal_strlit("u128");
        reveal_strlit("i128");
        reveal_strlit("usize");
        reveal_strlit("isize");
        assert("u8"@.len() == 2 && "u8"@[0] == 'u' && "u8"@[1] == '8');
        assert("i8"@.len() == 2 && "i8"@[0] == 'i' && "i8"@[1] == '8');
        assert("u16"@.len() == 3 && "u16"@[0] == 'u' && "u16"@[1] == '1');
        assert("i16"@.len() == 3 && "i16"@[0] == 'i' && "i16"@[1] == '1');
        assert("u32"@.len() == 3 && "u32"@[0] == 'u' && "u32"@[1] == '3');
        assert("i32"@.len() == 3 && "i32"@[0] == 'i' && "i32"@[1] == '3');
        assert("u64"@.len() == 3 && "u64"@[0] == 'u' && "u64"@[1] == '6');
        assert("i64"@.len() == 3 && "i64"@[0] == 'i' && "i64"@[1] == '6');
        assert("u128"@.len() == 4 && "u128"@[0] == 'u' && "u128"@[1] == '1');
        assert("i128"@.len() == 4 && "i128"@[0] == 'i' && "i128"@[1] == '1');
        assert("usize"@.len() == 5 && "usize"@[0] == 'u' && "usize"@[1] == 's');
        assert("isize"@.len() == 5 && "isize"@[0] == 'i' && "isize"@[1] == 's');
    }

    /// The integer kind as an identifier: the one that spells the name of
    /// the kind and carries `span`.
    #[must_use]
    pub fn to_ident(self, span: Span) -> (ident: Ident)
        ensures
            ident == ident_of(self.name(), span),
    {
        let name = self.to_str();
        proof {
            self.lemma_names();
        }
        new_ident(name, span)
    }

    /// The integer kind as a path: the one segment that is the kind's
    /// identifier.
    #[must_use]
    pub fn to_path(self, span: Span) -> (path: Path)
        ensures
            path == path_from(ident_of(self.name(), span)),
    {
        let ident = self.to_ident(span);
        path_of(ident)
    }

    /// The integer kind as a type: the one that the kind's path names.
    #[must_use]
    pub fn to_type(self, span: Span) -> (ty: Type)
        ensures
            ty == type_from(path_from(ident_of(self.name(), span))),
    {
        type_of(self.to_path(span))
    }
}

impl Default for Repr {
    /// The kind that an enumeration has when it names none.
    fn default() -> (repr: Self)
        ensures
            repr == Repr::Isize,
    {
        Repr::Isize
    }
}

} // verus!
