//! Sum types on the wire: a discriminant, then the fields of the variant that
//! has it.
//!
//! The variants of an enumeration are known by their places, in the order of
//! their declaration. A table gives each place its discriminant. Writing a
//! value writes the discriminant of its variant and then the fields; reading
//! reads a discriminant, looks up the variant that has it, and leaves the
//! fields to that variant's reader.

use crate::codec::Codec;
use crate::d_stream::DStream;
use crate::decode::{Decode, Parsed};
use crate::encode::{outcome, Encode};
use crate::error::{EnumDecodeError, EnumEncodeError};
use crate::o_stream::OStream;
use vstd::prelude::*;

verus! {

/// An integer type that can carry a discriminant: it is written and read as
/// itself, and two of its values can be told apart.
pub trait Tag: Codec + Decode<Model = Self> + Copy {
    /// Whether `self` and `other` are the same number.
    fn is(self, other: Self) -> (same: bool)
        ensures
            same == (self == other),
    ;

    /// An integer is its own mathematical value.
    proof fn lemma_model(self)
        ensures
            self.model() == self,
    ;
}

impl Tag for u8 {
    fn is(self, other: Self) -> (same: bool) {
        self == other
    }

    proof fn lemma_model(self) {
    }
}

impl Tag for i8 {
    fn is(self, other: Self) -> (same: bool) {
        self == other
    }

    proof fn lemma_model(self) {
    }
}

impl Tag for u16 {
    fn is(self, other: Self) -> (same: bool) {
        self == other
    }

    proof fn lemma_model(self) {
    }
}

impl Tag for i16 {
    fn is(self, other: Self) -> (same: bool) {
        self == other
    }

    proof fn lemma_model(self) {
    }
}

impl Tag for u32 {
    fn is(self, other: Self) -> (same: bool) {
        self == other
    }

    proof fn lemma_model(self) {
    }
}

impl Tag for i32 {
    fn is(self, other: Self) -> (same: bool) {
        self == other
    }

    proof fn lemma_model(self) {
    }
}

impl Tag for u64 {
    fn is(self, other: Self) -> (same: bool) {
        self == other
    }

    proof fn lemma_model(self) {
    }
}

impl Tag for i64 {
    fn is(self, other: Self) -> (same: bool) {
        self == other
    }

    proof fn lemma_model(self) {
    }
}

impl Tag for u128 {
    fn is(self, other: Self) -> (same: bool) {
        self == other
    }

    proof fn lemma_model(self) {
    }
}

impl Tag for i128 {
    fn is(self, other: Self) -> (same: bool) {
        self == other
    }

    proof fn lemma_model(self) {
    }
}

impl Tag for usize {
    fn is(self, other: Self) -> (same: bool) {
        self == other
    }

    proof fn lemma_model(self) {
    }
}

impl Tag for isize {
    fn is(self, other: Self) -> (same: bool) {
        self == other
    }

    proof fn lemma_model(self) {
    }
}

/// Whether no discriminant is assigned twice.
pub open spec fn unambiguous<D>(assigned: Seq<D>) -> bool {
    forall|i: int, j: int| 0 <= i < j < assigned.len() ==> assigned[i] != assigned[j]
}

/// The place of the first variant that has `value`, if one has it.
pub open spec fn variant_of<D>(assigned: Seq<D>, value: D) -> Option<nat>
    decreases assigned.len(),
{
    if assigned.len() == 0 {
        None
    } else {
        match variant_of(assigned.drop_last(), value) {
            Some(place) => Some(place),
            None => if assigned.last() == value {
                Some((assigned.len() - 1) as nat)
            } else {
                None
            },
        }
    }
}

/// The variant found has the value, and a value that no variant has is not
/// found.
pub proof fn lemma_variant_of<D>(assigned: Seq<D>, value: D)
    ensures
        match variant_of(assigned, value) {
            Some(place) => place < assigned.len() && assigned[place as int] == value,
            None => forall|i: int| 0 <= i < assigned.len() ==> assigned[i] != value,
        },
    decreases assigned.len(),
{
    if assigned.len() > 0 {
        let front = assigned.drop_last();
        lemma_variant_of(front, value);
        assert forall|i: int| 0 <= i < front.len() implies #[trigger] assigned[i] == front[i] by {}
        match variant_of(front, value) {
            Some(place) => {
                assert(assigned[place as int] == front[place as int]);
            },
            None => {},
        }
    }
}

/// Where no discriminant is assigned twice, each variant is found by its own.
pub proof fn lemma_variant_found<D>(assigned: Seq<D>, variant: nat)
    requires
        unambiguous(assigned),
        variant < assigned.len(),
    ensures
        variant_of(assigned, assigned[variant as int]) == Some(variant),
{
    lemma_variant_of(assigned, assigned[variant as int]);
}

/// The place of the first variant that has `value`, if one has it.
pub fn find_variant<D: Tag>(assigned: &[D], value: D) -> (variant: Option<usize>)
    ensures
        variant_of(assigned@, value) == match variant {
            Some(place) => Some(place as nat),
            None => None,
        },
{
    let mut place: usize = 0;
    while place < assigned.len()
        invariant
            place <= assigned@.len(),
            variant_of(assigned@.take(place as int), value) is None,
        decreases assigned@.len() - place,
    {
        proof {
            assert(assigned@.take(place + 1).drop_last() =~= assigned@.take(place as int));
        }
        if assigned[place].is(value) {
            proof {
                lemma_variant_stays(assigned@, (place + 1) as nat, value);
            }
            return Some(place);
        }
        place = place + 1;
    }
    assert(assigned@.take(assigned@.len() as int) =~= assigned@);
    None
}

/// A variant that was found stays found when more variants follow.
pub proof fn lemma_variant_stays<D>(assigned: Seq<D>, count: nat, value: D)
    requires
        count <= assigned.len(),
        variant_of(assigned.take(count as int), value) is Some,
    ensures
        variant_of(assigned, value) == variant_of(assigned.take(count as int), value),
    decreases assigned.len() - count,
{
    if count == assigned.len() {
        assert(assigned.take(count as int) =~= assigned);
    } else {
        assert(assigned.drop_last().take(count as int) =~= assigned.take(count as int));
        lemma_variant_stays(assigned.drop_last(), count, value);
    }
}

/// What reading a variant makes of `bytes`: the place of the variant whose
/// discriminant stands at the front. A discriminant that cannot be read and
/// one that no variant has are different failures; the second carries the
/// value that was read. The discriminant is consumed either way.
pub open spec fn parse_variant<D: Tag, F>(assigned: Seq<D>, bytes: Seq<u8>) -> Parsed<
    nat,
    EnumDecodeError<D, F>,
> {
    let discriminant = D::parse(bytes);
    Parsed {
        outcome: match discriminant.outcome {
            Err(e) => Err(EnumDecodeError::InvalidDiscriminant(e)),
            Ok(value) => match variant_of(assigned, value) {
                Some(place) => Ok(place),
                None => Err(EnumDecodeError::UnassignedDiscriminant { value }),
            },
        },
        used: discriminant.used,
    }
}

/// Reads a discriminant and finds the variant that has it.
pub fn decode_variant<D: Tag, F>(assigned: &[D], stream: &mut DStream) -> (r: Result<
    usize,
    EnumDecodeError<D, F>,
>)
    ensures
        parse_variant::<D, F>(assigned@, old(stream)@).used <= old(stream)@.len(),
        final(stream)@ == old(stream)@.skip(
            parse_variant::<D, F>(assigned@, old(stream)@).used as int,
        ),
        match r {
            Ok(place) => parse_variant::<D, F>(assigned@, old(stream)@).outcome == Ok::<
                nat,
                EnumDecodeError<D, F>,
            >(place as nat),
            Err(e) => parse_variant::<D, F>(assigned@, old(stream)@).outcome == Err::<
                nat,
                EnumDecodeError<D, F>,
            >(e),
        },
{
    match D::decode(stream) {
        Err(e) => Err(EnumDecodeError::InvalidDiscriminant(e)),
        Ok(value) => {
            proof {
                value.lemma_model();
            }
            match find_variant(assigned, value) {
                Some(place) => Ok(place),
                None => Err(EnumDecodeError::UnassignedDiscriminant { value }),
            }
        },
    }
}

/// The bytes that writing a value of a sum type commits: the discriminant,
/// then the fields, unless the discriminant itself cannot be written.
pub open spec fn variant_wire<D: Tag, P: Encode>(discriminant: D, fields: P) -> Seq<u8> {
    if discriminant.failure() is Some {
        discriminant.wire()
    } else {
        discriminant.wire() + fields.wire()
    }
}

/// Why a value of a sum type cannot be written, if it cannot.
pub open spec fn variant_failure<D: Tag, P: Encode>(discriminant: D, fields: P) -> Option<
    EnumEncodeError<D, P::Error>,
> {
    match discriminant.failure() {
        Some(e) => Some(EnumEncodeError::Discriminant(e)),
        None => match fields.failure() {
            Some(e) => Some(EnumEncodeError::Field(e)),
            None => None,
        },
    }
}

/// Writes a value of a sum type: the discriminant of its variant, then its
/// fields.
pub fn encode_variant<D: Tag, P: Encode>(
    assigned: &[D],
    variant: usize,
    fields: &P,
    stream: &mut OStream,
) -> (r: Result<(), EnumEncodeError<D, P::Error>>)
    requires
        variant < assigned@.len(),
        variant_wire(assigned@[variant as int], *fields).len() <= old(stream).free(),
    ensures
        final(stream).extends(old(stream), variant_wire(assigned@[variant as int], *fields)),
        final(final(stream).target())@ == final(old(stream).target())@,
        r == outcome(variant_failure(assigned@[variant as int], *fields)),
{
    match assigned[variant].encode(stream) {
        Err(e) => Err(EnumEncodeError::Discriminant(e)),
        Ok(()) => match fields.encode(stream) {
            Err(e) => Err(EnumEncodeError::Field(e)),
            Ok(()) => Ok(()),
        },
    }
}

/// Reading a value of a sum type gives back the variant that was written and
/// leaves the reader at its fields, which the fields' own reader gives back
/// whole.
pub proof fn lemma_variant_round_trip<D: Tag, P: Codec, F>(
    assigned: Seq<D>,
    variant: nat,
    fields: P,
    rest: Seq<u8>,
)
    requires
        unambiguous(assigned),
        variant < assigned.len(),
        variant_failure(assigned[variant as int], fields) is None,
    ensures
        ({
            let bytes = variant_wire(assigned[variant as int], fields) + rest;
            let head = parse_variant::<D, F>(assigned, bytes);
            &&& head.outcome == Ok::<nat, EnumDecodeError<D, F>>(variant)
            &&& head.used == assigned[variant as int].wire().len()
            &&& P::parse(bytes.skip(head.used as int)) == (Parsed {
                outcome: Ok::<P::Model, <P as Decode>::Error>(fields.model()),
                used: fields.wire().len(),
            })
        }),
{
    let discriminant = assigned[variant as int];
    let bytes = variant_wire(discriminant, fields) + rest;
    assert(bytes =~= discriminant.wire() + (fields.wire() + rest));
    discriminant.lemma_round_trip(fields.wire() + rest);
    discriminant.lemma_model();
    lemma_variant_found(assigned, variant);
    assert(bytes.skip(discriminant.wire().len() as int) =~= fields.wire() + rest);
    fields.lemma_round_trip(rest);
}

/// Reading a discriminant that no variant has fails, and the failure carries
/// the value that was read.
pub proof fn lemma_unassigned<D: Tag, F>(assigned: Seq<D>, value: D, rest: Seq<u8>)
    requires
        forall|i: int| 0 <= i < assigned.len() ==> assigned[i] != value,
        value.failure() is None,
    ensures
        parse_variant::<D, F>(assigned, value.wire() + rest) == (Parsed {
            outcome: Err::<nat, EnumDecodeError<D, F>>(
                EnumDecodeError::UnassignedDiscriminant { value },
            ),
            used: value.wire().len(),
        }),
{
    value.lemma_round_trip(rest);
    value.lemma_model();
    lemma_variant_of(assigned, value);
}

} // verus!
