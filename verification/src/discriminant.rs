//! Numbering the variants of an enumeration.
//!
//! The first variant has zero. Each later variant has one more than the one
//! before it, unless it names a value of its own, from which the count goes
//! on. No two variants may end up with the same value, and every value must
//! be one that the enumeration's integer kind can hold.

use crate::repr::Repr;
use crate::text::{decimal_string, signed_decimal, successor_string};
use vstd::prelude::*;
use vstd::string::StringExecFns;

verus! {

/// A value that a variant can have: any integer that one of the integer kinds
/// can hold.
#[derive(Clone, Copy, Debug, PartialEq, Eq, Structural)]
pub enum Discriminant {
    /// Zero or above: the number itself.
    Natural(u128),
    /// Below zero: how far below minus one. `Negative(0)` is minus one.
    Negative(u128),
}

/// Why the variants of an enumeration cannot be numbered.
#[derive(Clone, Copy, Debug, PartialEq, Eq, Structural)]
pub enum AssignError {
    /// The value of a variant is not one that the integer kind can hold.
    OutOfRange { variant: usize },
    /// A variant has the value of an earlier one.
    Duplicate { variant: usize, earlier: usize },
}

impl Repr {
    /// The largest number that the integer kind can hold. The smallest is
    /// zero for an unsigned kind, and minus one minus the largest for a signed
    /// one.
    pub open spec fn spec_max(self) -> int {
        match self {
            Repr::U8 => u8::MAX as int,
            Repr::I8 => i8::MAX as int,
            Repr::U16 => u16::MAX as int,
            Repr::I16 => i16::MAX as int,
            Repr::U32 => u32::MAX as int,
            Repr::I32 => i32::MAX as int,
            Repr::U64 => u64::MAX as int,
            Repr::I64 => i64::MAX as int,
            Repr::U128 => u128::MAX as int,
            Repr::I128 => i128::MAX as int,
            Repr::Usize => usize::MAX as int,
            Repr::Isize => isize::MAX as int,
        }
    }

    /// Whether the integer kind can hold `value`.
    pub open spec fn holds(self, value: int) -> bool {
        if self.spec_is_signed() {
            -self.spec_max() - 1 <= value <= self.spec_max()
        } else {
            0 <= value <= self.spec_max()
        }
    }

    /// The largest number that the integer kind can hold.
    #[must_use]
    pub fn max(self) -> (max: u128)
        ensures
            max == self.spec_max(),
    {
        match self {
            Repr::U8 => u8::MAX as u128,
            Repr::I8 => i8::MAX as u128,
            Repr::U16 => u16::MAX as u128,
            Repr::I16 => i16::MAX as u128,
            Repr::U32 => u32::MAX as u128,
            Repr::I32 => i32::MAX as u128,
            Repr::U64 => u64::MAX as u128,
            Repr::I64 => i64::MAX as u128,
            Repr::U128 => u128::MAX,
            Repr::I128 => i128::MAX as u128,
            Repr::Usize => usize::MAX as u128,
            Repr::Isize => isize::MAX as u128,
        }
    }
}

impl Discriminant {
    /// The number that the value is.
    pub open spec fn view(&self) -> int {
        match self {
            Discriminant::Natural(number) => *number as int,
            Discriminant::Negative(below) => -(*below as int) - 1,
        }
    }

    /// The value that a signed number is.
    #[must_use]
    pub fn from_i128(number: i128) -> (value: Self)
        ensures
            value@ == number,
    {
        if number >= 0 {
            Discriminant::Natural(number as u128)
        } else {
            Discriminant::Negative((-(number + 1)) as u128)
        }
    }

    /// The value that an unsigned number is.
    #[must_use]
    pub fn from_u128(number: u128) -> (value: Self)
        ensures
            value@ == number,
    {
        Discriminant::Natural(number)
    }

    /// The value one above, or `None` where that is more than any integer
    /// kind can hold.
    #[must_use]
    pub fn successor(self) -> (next: Option<Self>)
        ensures
            match next {
                Some(value) => value@ == self@ + 1,
                None => self@ == u128::MAX,
            },
    {
        match self {
            Discriminant::Natural(number) => {
                if number == u128::MAX {
                    None
                } else {
                    Some(Discriminant::Natural(number + 1))
                }
            },
            Discriminant::Negative(below) => {
                if below == 0 {
                    Some(Discriminant::Natural(0))
                } else {
                    Some(Discriminant::Negative(below - 1))
                }
            },
        }
    }

    /// The value with its sign turned, or `None` where that is more than any
    /// integer kind can hold.
    #[must_use]
    pub fn negated(self) -> (turned: Option<Self>)
        ensures
            match turned {
                Some(value) => value@ == -self@,
                None => -self@ > u128::MAX,
            },
    {
        match self {
            Discriminant::Natural(number) => {
                if number == 0 {
                    Some(Discriminant::Natural(0))
                } else {
                    Some(Discriminant::Negative(number - 1))
                }
            },
            Discriminant::Negative(below) => {
                if below == u128::MAX {
                    None
                } else {
                    Some(Discriminant::Natural(below + 1))
                }
            },
        }
    }

    /// Whether the integer kind `repr` can hold the value.
    #[must_use]
    pub fn fits(self, repr: Repr) -> (fits: bool)
        ensures
            fits == repr.holds(self@),
    {
        match self {
            Discriminant::Natural(number) => number <= repr.max(),
            Discriminant::Negative(below) => repr.is_signed() && below <= repr.max(),
        }
    }

    /// The value as Rust spells it: in decimal, with a minus sign when it is
    /// below zero.
    #[must_use]
    pub fn to_text(self) -> (text: String)
        ensures
            text@ == signed_decimal(self@),
    {
        match self {
            Discriminant::Natural(number) => decimal_string(number),
            Discriminant::Negative(below) => {
                let mut text = String::from_str("-");
                text.append(successor_string(below).as_str());
                text
            },
        }
    }

    /// Two values are the same number only if they are the same value.
    pub proof fn lemma_view_injective(self, other: Self)
        ensures
            self@ == other@ <==> self == other,
    {
    }
}

/// The numbers of some values.
pub open spec fn numbers(values: Seq<Discriminant>) -> Seq<int> {
    Seq::new(values.len(), |i: int| values[i]@)
}

/// The numbers that variants get which name `explicit` values, `None` where a
/// variant names none.
pub open spec fn resolved(explicit: Seq<Option<Discriminant>>) -> Seq<int>
    decreases explicit.len(),
{
    if explicit.len() == 0 {
        Seq::empty()
    } else {
        let front = resolved(explicit.drop_last());
        front.push(
            match explicit.last() {
                Some(value) => value@,
                None => if front.len() == 0 {
                    0
                } else {
                    front.last() + 1
                },
            },
        )
    }
}

/// Whether no number occurs twice.
pub open spec fn distinct(values: Seq<int>) -> bool {
    forall|i: int, j: int| 0 <= i < j < values.len() ==> values[i] != values[j]
}

/// Whether the integer kind can hold every one of the numbers.
pub open spec fn all_held(values: Seq<int>, repr: Repr) -> bool {
    forall|i: int| 0 <= i < values.len() ==> repr.holds(#[trigger] values[i])
}

/// Numbering more variants leaves the numbers of the earlier ones as they
/// are.
pub proof fn lemma_resolved_prefix(explicit: Seq<Option<Discriminant>>, count: int)
    requires
        0 <= count <= explicit.len(),
    ensures
        resolved(explicit).len() == explicit.len(),
        resolved(explicit.take(count)) == resolved(explicit).take(count),
    decreases explicit.len(),
{
    if explicit.len() == 0 {
        assert(explicit.take(count) =~= explicit);
        assert(resolved(explicit).take(count) =~= resolved(explicit));
    } else if count == explicit.len() {
        lemma_resolved_prefix(explicit.drop_last(), 0);
        assert(explicit.take(count) =~= explicit);
        assert(resolved(explicit).take(count) =~= resolved(explicit));
    } else {
        lemma_resolved_prefix(explicit.drop_last(), count);
        assert(explicit.drop_last().take(count) =~= explicit.take(count));
        assert(resolved(explicit).take(count) =~= resolved(explicit.drop_last()).take(count));
    }
}

/// The values of the variants of an enumeration, in the order of the
/// variants. No two are the same.
#[derive(Debug)]
pub struct Discriminants {
    values: Vec<Discriminant>,
}

impl Discriminants {
    #[verifier::type_invariant]
    spec fn inv(self) -> bool {
        distinct(numbers(self.values@))
    }

    /// The numbers of the variants, in order.
    pub closed spec fn view(&self) -> Seq<int> {
        numbers(self.values@)
    }

    /// Numbers the variants of an enumeration whose discriminant is of kind
    /// `repr`. `explicit` holds, for each variant in order, the value that it
    /// names, if it names one.
    ///
    /// The first variant that cannot be numbered is reported: its value is
    /// out of the kind's range, or an earlier variant has it already.
    pub fn new(explicit: &[Option<Discriminant>], repr: Repr) -> (r: Result<Self, AssignError>)
        ensures
            match r {
                Ok(table) => {
                    &&& table@ == resolved(explicit@)
                    &&& distinct(table@)
                    &&& all_held(table@, repr)
                },
                Err(AssignError::OutOfRange { variant }) => {
                    &&& variant < explicit@.len()
                    &&& distinct(resolved(explicit@).take(variant as int))
                    &&& all_held(resolved(explicit@).take(variant as int), repr)
                    &&& !repr.holds(resolved(explicit@)[variant as int])
                },
                Err(AssignError::Duplicate { variant, earlier }) => {
                    &&& earlier < variant < explicit@.len()
                    &&& distinct(resolved(explicit@).take(variant as int))
                    &&& all_held(resolved(explicit@).take(variant as int), repr)
                    &&& repr.holds(resolved(explicit@)[variant as int])
                    &&& resolved(explicit@)[earlier as int] == resolved(explicit@)[variant as int]
                },
            },
    {
        let mut values: Vec<Discriminant> = Vec::new();
        let mut done: usize = 0;
        proof {
            lemma_resolved_prefix(explicit@, 0);
            assert(numbers(values@) =~= resolved(explicit@).take(0));
        }
        while done < explicit.len()
            invariant
                done <= explicit@.len(),
                values@.len() == done,
                numbers(values@) == resolved(explicit@).take(done as int),
                resolved(explicit@).len() == explicit@.len(),
                distinct(numbers(values@)),
                all_held(numbers(values@), repr),
            decreases explicit@.len() - done,
        {
            let ghost target = resolved(explicit@)[done as int];
            proof {
                lemma_resolved_prefix(explicit@, done as int);
                lemma_resolved_prefix(explicit@, done + 1);
                assert(explicit@.take(done + 1).drop_last() =~= explicit@.take(done as int));
                assert(resolved(explicit@.take(done + 1)).last() == target);
                if done > 0 {
                    assert(numbers(values@)[done - 1] == values@[done - 1]@);
                    assert(repr.holds(numbers(values@)[done - 1]));
                }
            }
            let next: Option<Discriminant> = match explicit[done] {
                Some(value) => Some(value),
                None => if done == 0 {
                    Some(Discriminant::Natural(0))
                } else {
                    values[done - 1].successor()
                },
            };
            let value = match next {
                None => {
                    return Err(AssignError::OutOfRange { variant: done });
                },
                Some(value) => value,
            };
            assert(value@ == target);
            if !value.fits(repr) {
                return Err(AssignError::OutOfRange { variant: done });
            }
            let mut earlier: usize = 0;
            while earlier < done
                invariant
                    earlier <= done < explicit@.len(),
                    values@.len() == done,
                    numbers(values@) == resolved(explicit@).take(done as int),
                    resolved(explicit@).len() == explicit@.len(),
                    distinct(numbers(values@)),
                    all_held(numbers(values@), repr),
                    value@ == resolved(explicit@)[done as int],
                    repr.holds(value@),
                    forall|i: int| 0 <= i < earlier ==> numbers(values@)[i] != value@,
                decreases done - earlier,
            {
                if values[earlier] == value {
                    proof {
                        assert(numbers(values@)[earlier as int] == value@);
                        assert(resolved(explicit@).take(done as int)[earlier as int] == resolved(
                            explicit@,
                        )[earlier as int]);
                    }
                    return Err(AssignError::Duplicate { variant: done, earlier });
                }
                proof {
                    value.lemma_view_injective(values@[earlier as int]);
                }
                earlier = earlier + 1;
            }
            let ghost before = values@;
            values.push(value);
            proof {
                assert(numbers(values@) =~= numbers(before).push(value@));
                assert(numbers(values@) =~= resolved(explicit@).take(done + 1));
            }
            done = done + 1;
        }
        proof {
            assert(resolved(explicit@).take(done as int) =~= resolved(explicit@));
        }
        Ok(Discriminants { values })
    }

    /// How many variants there are.
    pub fn len(&self) -> (count: usize)
        ensures
            count == self@.len(),
    {
        self.values.len()
    }

    /// The value of the variant at place `variant`.
    pub fn get(&self, variant: usize) -> (value: Discriminant)
        requires
            variant < self@.len(),
        ensures
            value@ == self@[variant as int],
    {
        self.values[variant]
    }

    /// The place of the variant that has `value`, if one has it.
    pub fn find(&self, value: Discriminant) -> (variant: Option<usize>)
        ensures
            match variant {
                Some(place) => place < self@.len() && self@[place as int] == value@,
                None => forall|i: int| 0 <= i < self@.len() ==> self@[i] != value@,
            },
    {
        let mut place: usize = 0;
        while place < self.values.len()
            invariant
                place <= self.values@.len(),
                forall|i: int| 0 <= i < place ==> numbers(self.values@)[i] != value@,
            decreases self.values@.len() - place,
        {
            if self.values[place] == value {
                return Some(place);
            }
            proof {
                value.lemma_view_injective(self.values@[place as int]);
            }
            place = place + 1;
        }
        None
    }
}

} // verus!
