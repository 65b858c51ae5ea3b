//! The end of a range.

use crate::bytes::lemma_be_bytes_len;
use crate::codec::Codec;
use crate::d_stream::DStream;
use crate::decode::{Decode, Parsed};
use crate::encode::Encode;
use crate::enumeration::{decode_variant, lemma_variant_of, parse_variant, variant_of};
use crate::error::{EnumDecodeError, EnumEncodeError};
use crate::o_stream::OStream;
use vstd::prelude::*;

verus! {

/// One end of a range of values: a value that belongs to the range, a value
/// that just does not, or no end at all.
#[derive(Clone, Copy, Debug, PartialEq, Eq)]
pub enum Bound<T> {
    /// The range ends at the value and holds it.
    Included(T),
    /// The range ends at the value and does not hold it.
    Excluded(T),
    /// The range does not end.
    Unbounded,
}

/// The discriminants of the three kinds of bound, in the order of their
/// declaration.
pub open spec fn bound_discriminants() -> Seq<u8> {
    seq![0u8, 1u8, 2u8]
}

impl<T: Encode> Encode for Bound<T> {
    type Error = EnumEncodeError<u8, T::Error>;

    /// One byte, zero for `Included`, one for `Excluded` and two for
    /// `Unbounded`, then the value if there is one.
    open spec fn wire(&self) -> Seq<u8> {
        match self {
            Bound::Included(bound) => 0u8.wire() + bound.wire(),
            Bound::Excluded(bound) => 1u8.wire() + bound.wire(),
            Bound::Unbounded => 2u8.wire(),
        }
    }

    open spec fn failure(&self) -> Option<Self::Error> {
        match self {
            Bound::Included(bound) | Bound::Excluded(bound) => match bound.failure() {
                Some(e) => Some(EnumEncodeError::Field(e)),
                None => None,
            },
            Bound::Unbounded => None,
        }
    }

    fn encode(&self, stream: &mut OStream) -> (r: Result<(), Self::Error>) {
        proof {
            lemma_be_bytes_len(0, 1);
            lemma_be_bytes_len(1, 1);
            lemma_be_bytes_len(2, 1);
        }
        match self {
            Bound::Included(bound) => {
                let _ = 0u8.encode(stream);
                match bound.encode(stream) {
                    Err(e) => Err(EnumEncodeError::Field(e)),
                    Ok(()) => Ok(()),
                }
            },
            Bound::Excluded(bound) => {
                let _ = 1u8.encode(stream);
                match bound.encode(stream) {
                    Err(e) => Err(EnumEncodeError::Field(e)),
                    Ok(()) => Ok(()),
                }
            },
            Bound::Unbounded => {
                let _ = 2u8.encode(stream);
                Ok(())
            },
        }
    }
}

impl<T: Decode> Decode for Bound<T> {
    type Error = EnumDecodeError<u8, T::Error>;

    type Model = Bound<T::Model>;

    open spec fn model(&self) -> Bound<T::Model> {
        match self {
            Bound::Included(bound) => Bound::Included(bound.model()),
            Bound::Excluded(bound) => Bound::Excluded(bound.model()),
            Bound::Unbounded => Bound::Unbounded,
        }
    }

    /// The kind of bound from its discriminant, then the value if the kind
    /// has one.
    open spec fn parse(bytes: Seq<u8>) -> Parsed<Bound<T::Model>, Self::Error> {
        let kind = parse_variant::<u8, T::Error>(bound_discriminants(), bytes);
        match kind.outcome {
            Err(e) => Parsed { outcome: Err(e), used: kind.used },
            Ok(place) => if place == 2 {
                Parsed { outcome: Ok(Bound::Unbounded), used: kind.used }
            } else {
                let value = T::parse(bytes.skip(kind.used as int));
                Parsed {
                    outcome: match value.outcome {
                        Err(e) => Err(EnumDecodeError::Field(e)),
                        Ok(bound) => if place == 0 {
                            Ok(Bound::Included(bound))
                        } else {
                            Ok(Bound::Excluded(bound))
                        },
                    },
                    used: kind.used + value.used,
                }
            },
        }
    }

    fn decode(stream: &mut DStream) -> (r: Result<Self, Self::Error>) {
        let table: [u8; 3] = [0, 1, 2];
        assert(table@ =~= bound_discriminants());
        let kind = decode_variant::<u8, T::Error>(table.as_slice(), stream);
        let ghost head = parse_variant::<u8, T::Error>(bound_discriminants(), old(stream)@);
        match kind {
            Err(e) => Err(e),
            Ok(place) => {
                proof {
                    if head.outcome is Ok {
                        lemma_variant_of(
                            bound_discriminants(),
                            u8::parse(old(stream)@).outcome->Ok_0,
                        );
                    }
                }
                if place == 2 {
                    Ok(Bound::Unbounded)
                } else {
                    let ghost body = T::parse(stream@);
                    let value = T::decode(stream);
                    assert(stream@ =~= old(stream)@.skip((head.used + body.used) as int));
                    match value {
                        Err(e) => Err(EnumDecodeError::Field(e)),
                        Ok(bound) => if place == 0 {
                            Ok(Bound::Included(bound))
                        } else {
                            Ok(Bound::Excluded(bound))
                        },
                    }
                }
            },
        }
    }
}

impl<T: Codec> Codec for Bound<T> {
    proof fn lemma_round_trip(&self, rest: Seq<u8>) {
        let table = bound_discriminants();
        let bytes = self.wire() + rest;
        reveal_with_fuel(variant_of, 4);
        match self {
            Bound::Included(bound) => {
                assert(bytes =~= 0u8.wire() + (bound.wire() + rest));
                0u8.lemma_round_trip(bound.wire() + rest);
                assert(table.drop_last().drop_last() =~= seq![0u8]);
                assert(variant_of(table, 0u8) == Some(0nat));
                assert(bytes.skip(0u8.wire().len() as int) =~= bound.wire() + rest);
                bound.lemma_round_trip(rest);
            },
            Bound::Excluded(bound) => {
                assert(bytes =~= 1u8.wire() + (bound.wire() + rest));
                1u8.lemma_round_trip(bound.wire() + rest);
                assert(table.drop_last() =~= seq![0u8, 1u8]);
                assert(table.drop_last().drop_last() =~= seq![0u8]);
                assert(variant_of(table, 1u8) == Some(1nat));
                assert(bytes.skip(1u8.wire().len() as int) =~= bound.wire() + rest);
                bound.lemma_round_trip(rest);
            },
            Bound::Unbounded => {
                2u8.lemma_round_trip(rest);
                assert(table.drop_last() =~= seq![0u8, 1u8]);
                assert(table.drop_last().drop_last() =~= seq![0u8]);
                assert(variant_of(table, 2u8) == Some(2nat));
            },
        }
    }
}

} // verus!
