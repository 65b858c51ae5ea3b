//! Tuples: the fields in order, with nothing between them.
//!
//! A tuple is written field by field and read field by field. The first field
//! that fails ends the work, and its failure is the tuple's.

use crate::codec::Codec;
use crate::d_stream::DStream;
use crate::decode::{Decode, Parsed};
use crate::encode::Encode;
use crate::o_stream::OStream;
use vstd::prelude::*;

verus! {

/// What two writers in a row commit: the second writes only when the first
/// has not failed.
pub open spec fn then_wire<E>(first: Seq<u8>, failure: Option<E>, rest: Seq<u8>) -> Seq<u8> {
    if failure is Some {
        first
    } else {
        first + rest
    }
}

/// Why two writers in a row fail, if they do: the first failure.
pub open spec fn then_failure<E>(first: Option<E>, rest: Option<E>) -> Option<E> {
    if first is Some {
        first
    } else {
        rest
    }
}

/// Joining is associative.
pub proof fn lemma_join(a: Seq<u8>, b: Seq<u8>, c: Seq<u8>)
    ensures
        (a + b) + c == a + (b + c),
{
    assert((a + b) + c =~= a + (b + c));
}

/// Skipping the head of what is left leaves the tail.
pub proof fn lemma_skip_join(bytes: Seq<u8>, offset: nat, head: Seq<u8>, tail: Seq<u8>)
    requires
        offset <= bytes.len(),
        bytes.skip(offset as int) == head + tail,
    ensures
        bytes.skip((offset + head.len()) as int) == tail,
{
    assert(bytes.skip((offset + head.len()) as int) =~= bytes.skip(offset as int).skip(
        head.len() as int,
    ));
    assert((head + tail).skip(head.len() as int) =~= tail);
}

impl<T: Encode> Encode for (T, ) {
    type Error = T::Error;

    open spec fn wire(&self) -> Seq<u8> {
        self.0.wire()
    }

    open spec fn failure(&self) -> Option<T::Error> {
        self.0.failure()
    }

    fn encode(&self, stream: &mut OStream) -> (r: Result<(), T::Error>) {
        self.0.encode(stream)
    }
}

impl<T: Decode> Decode for (T, ) {
    type Error = T::Error;

    type Model = (T::Model, );

    open spec fn model(&self) -> (T::Model, ) {
        (self.0.model(), )
    }

    open spec fn parse(bytes: Seq<u8>) -> Parsed<(T::Model, ), T::Error> {
        T::parse(bytes).map(|value: T::Model| (value, ))
    }

    fn decode(stream: &mut DStream) -> (r: Result<Self, T::Error>) {
        let value = T::decode(stream)?;
        Ok((value, ))
    }
}

impl<T: Codec> Codec for (T, ) {
    proof fn lemma_round_trip(&self, rest: Seq<u8>) {
        self.0.lemma_round_trip(rest);
    }
}

impl<T0, T1, E> Encode for (T0, T1) where
    T0: Encode<Error = E>,
    T1: Encode<Error = E>,
 {
    type Error = E;

    /// The fields in order, up to the first that fails.
    open spec fn wire(&self) -> Seq<u8> {
        then_wire(
            self.0.wire(),
            self.0.failure(),
            self.1.wire(),
        )
    }

    /// The failure of the first field that fails.
    open spec fn failure(&self) -> Option<E> {
        then_failure(
            self.0.failure(),
            self.1.failure(),
        )
    }

    fn encode(&self, stream: &mut OStream) -> (r: Result<(), E>) {
        let ghost s1 = self.1.wire();
        let ghost s0 = then_wire(self.0.wire(), self.0.failure(), s1);
        assert(self.wire() == s0);
        let ghost at0 = stream@;
        self.0.encode(stream)?;
        proof {
            lemma_join(at0, self.0.wire(), s1);
            assert(old(stream)@ + s0 == stream@ + s1);
        }
        self.1.encode(stream)
    }
}

impl<T0, T1, E> Decode for (T0, T1) where
    T0: Decode<Error = E>,
    T1: Decode<Error = E>,
 {
    type Error = E;

    type Model = (T0::Model, T1::Model);

    open spec fn model(&self) -> (T0::Model, T1::Model) {
        (self.0.model(), self.1.model())
    }

    /// The fields in order, each read from where the one before it ended.
    open spec fn parse(bytes: Seq<u8>) -> Parsed<(T0::Model, T1::Model), E> {
        let p0 = T0::parse(bytes);
        let p1 = T1::parse(bytes.skip(p0.used as int));
        if p0.outcome is Err {
            Parsed { outcome: Err(p0.outcome->Err_0), used: p0.used }
        } else if p1.outcome is Err {
            Parsed { outcome: Err(p1.outcome->Err_0), used: p0.used + p1.used }
        } else {
            Parsed {
                outcome: Ok((p0.outcome->Ok_0, p1.outcome->Ok_0)),
                used: p0.used + p1.used,
            }
        }
    }

    fn decode(stream: &mut DStream) -> (r: Result<Self, E>) {
        let ghost p0 = T0::parse(stream@);
        let v0 = T0::decode(stream)?;
        let ghost p1 = T1::parse(stream@);
        let v1 = T1::decode(stream)?;
        assert(stream@ =~= old(stream)@.skip((p0.used + p1.used) as int));
        Ok((v0, v1))
    }
}

impl<T0, T1, E, D> Codec for (T0, T1) where
    T0: Codec + Encode<Error = E> + Decode<Error = D>,
    T1: Codec + Encode<Error = E> + Decode<Error = D>,
 {
    proof fn lemma_round_trip(&self, rest: Seq<u8>) {
        let bytes = self.wire() + rest;
        let s1 = self.1.wire();
        let s0 = then_wire(self.0.wire(), self.0.failure(), s1);
        assert(self.wire() == s0);
        assert(bytes.skip(0) =~= bytes);
        assert(self.0.failure() is None);
        lemma_join(self.0.wire(), s1, rest);
        self.0.lemma_round_trip(s1 + rest);
        lemma_skip_join(bytes, 0, self.0.wire(), s1 + rest);
        assert(self.1.failure() is None);
        self.1.lemma_round_trip(rest);
    }
}

impl<T0, T1, T2, E> Encode for (T0, T1, T2) where
    T0: Encode<Error = E>,
    T1: Encode<Error = E>,
    T2: Encode<Error = E>,
 {
    type Error = E;

    /// The fields in order, up to the first that fails.
    open spec fn wire(&self) -> Seq<u8> {
        then_wire(
            self.0.wire(),
            self.0.failure(),
            then_wire(
                self.1.wire(),
                self.1.failure(),
                self.2.wire(),
            ),
        )
    }

    /// The failure of the first field that fails.
    open spec fn failure(&self) -> Option<E> {
        then_failure(
            self.0.failure(),
            then_failure(
                self.1.failure(),
                self.2.failure(),
            ),
        )
    }

    fn encode(&self, stream: &mut OStream) -> (r: Result<(), E>) {
        let ghost s2 = self.2.wire();
        let ghost s1 = then_wire(self.1.wire(), self.1.failure(), s2);
        let ghost s0 = then_wire(self.0.wire(), self.0.failure(), s1);
        assert(self.wire() == s0);
        let ghost at0 = stream@;
        self.0.encode(stream)?;
        proof {
            lemma_join(at0, self.0.wire(), s1);
            assert(old(stream)@ + s0 == stream@ + s1);
        }
        let ghost at1 = stream@;
        self.1.encode(stream)?;
        proof {
            lemma_join(at1, self.1.wire(), s2);
            assert(old(stream)@ + s0 == stream@ + s2);
        }
        self.2.encode(stream)
    }
}

impl<T0, T1, T2, E> Decode for (T0, T1, T2) where
    T0: Decode<Error = E>,
    T1: Decode<Error = E>,
    T2: Decode<Error = E>,
 {
    type Error = E;

    type Model = (T0::Model, T1::Model, T2::Model);

    open spec fn model(&self) -> (T0::Model, T1::Model, T2::Model) {
        (self.0.model(), self.1.model(), self.2.model())
    }

    /// The fields in order, each read from where the one before it ended.
    open spec fn parse(bytes: Seq<u8>) -> Parsed<(T0::Model, T1::Model, T2::Model), E> {
        let p0 = T0::parse(bytes);
        let p1 = T1::parse(bytes.skip(p0.used as int));
        let p2 = T2::parse(bytes.skip((p0.used + p1.used) as int));
        if p0.outcome is Err {
            Parsed { outcome: Err(p0.outcome->Err_0), used: p0.used }
        } else if p1.outcome is Err {
            Parsed { outcome: Err(p1.outcome->Err_0), used: p0.used + p1.used }
        } else if p2.outcome is Err {
            Parsed { outcome: Err(p2.outcome->Err_0), used: p0.used + p1.used + p2.used }
        } else {
            Parsed {
                outcome: Ok((p0.outcome->Ok_0, p1.outcome->Ok_0, p2.outcome->Ok_0)),
                used: p0.used + p1.used + p2.used,
            }
        }
    }

    fn decode(stream: &mut DStream) -> (r: Result<Self, E>) {
        let ghost p0 = T0::parse(stream@);
        let v0 = T0::decode(stream)?;
        let ghost p1 = T1::parse(stream@);
        let v1 = T1::decode(stream)?;
        assert(stream@ =~= old(stream)@.skip((p0.used + p1.used) as int));
        let ghost p2 = T2::parse(stream@);
        let v2 = T2::decode(stream)?;
        assert(stream@ =~= old(stream)@.skip((p0.used + p1.used + p2.used) as int));
        Ok((v0, v1, v2))
    }
}

impl<T0, T1, T2, E, D> Codec for (T0, T1, T2) where
    T0: Codec + Encode<Error = E> + Decode<Error = D>,
    T1: Codec + Encode<Error = E> + Decode<Error = D>,
    T2: Codec + Encode<Error = E> + Decode<Error = D>,
 {
    proof fn lemma_round_trip(&self, rest: Seq<u8>) {
        let bytes = self.wire() + rest;
        let s2 = self.2.wire();
        let s1 = then_wire(self.1.wire(), self.1.failure(), s2);
        let s0 = then_wire(self.0.wire(), self.0.failure(), s1);
        assert(self.wire() == s0);
        assert(bytes.skip(0) =~= bytes);
        assert(self.0.failure() is None);
        lemma_join(self.0.wire(), s1, rest);
        self.0.lemma_round_trip(s1 + rest);
        lemma_skip_join(bytes, 0, self.0.wire(), s1 + rest);
        assert(self.1.failure() is None);
        lemma_join(self.1.wire(), s2, rest);
        self.1.lemma_round_trip(s2 + rest);
        lemma_skip_join(bytes, self.0.wire().len(), self.1.wire(), s2 + rest);
        assert(self.2.failure() is None);
        self.2.lemma_round_trip(rest);
    }
}

impl<T0, T1, T2, T3, E> Encode for (T0, T1, T2, T3) where
    T0: Encode<Error = E>,
    T1: Encode<Error = E>,
    T2: Encode<Error = E>,
    T3: Encode<Error = E>,
 {
    type Error = E;

    /// The fields in order, up to the first that fails.
    open spec fn wire(&self) -> Seq<u8> {
        then_wire(
            self.0.wire(),
            self.0.failure(),
            then_wire(
                self.1.wire(),
                self.1.failure(),
                then_wire(
                    self.2.wire(),
                    self.2.failure(),
                    self.3.wire(),
                ),
            ),
        )
    }

    /// The failure of the first field that fails.
    open spec fn failure(&self) -> Option<E> {
        then_failure(
            self.0.failure(),
            then_failure(
                self.1.failure(),
                then_failure(
                    self.2.failure(),
                    self.3.failure(),
                ),
            ),
        )
    }

    fn encode(&self, stream: &mut OStream) -> (r: Result<(), E>) {
        let ghost s3 = self.3.wire();
        let ghost s2 = then_wire(self.2.wire(), self.2.failure(), s3);
        let ghost s1 = then_wire(self.1.wire(), self.1.failure(), s2);
        let ghost s0 = then_wire(self.0.wire(), self.0.failure(), s1);
        assert(self.wire() == s0);
        let ghost at0 = stream@;
        self.0.encode(stream)?;
        proof {
            lemma_join(at0, self.0.wire(), s1);
            assert(old(stream)@ + s0 == stream@ + s1);
        }
        let ghost at1 = stream@;
        self.1.encode(stream)?;
        proof {
            lemma_join(at1, self.1.wire(), s2);
            assert(old(stream)@ + s0 == stream@ + s2);
        }
        let ghost at2 = stream@;
        self.2.encode(stream)?;
        proof {
            lemma_join(at2, self.2.wire(), s3);
            assert(old(stream)@ + s0 == stream@ + s3);
        }
        self.3.encode(stream)
    }
}

impl<T0, T1, T2, T3, E> Decode for (T0, T1, T2, T3) where
    T0: Decode<Error = E>,
    T1: Decode<Error = E>,
    T2: Decode<Error = E>,
    T3: Decode<Error = E>,
 {
    type Error = E;

    type Model = (T0::Model, T1::Model, T2::Model, T3::Model);

    open spec fn model(&self) -> (T0::Model, T1::Model, T2::Model, T3::Model) {
        (self.0.model(), self.1.model(), self.2.model(), self.3.model())
    }

    /// The fields in order, each read from where the one before it ended.
    open spec fn parse(bytes: Seq<u8>) -> Parsed<(T0::Model, T1::Model, T2::Model, T3::Model), E> {
        let p0 = T0::parse(bytes);
        let p1 = T1::parse(bytes.skip(p0.used as int));
        let p2 = T2::parse(bytes.skip((p0.used + p1.used) as int));
        let p3 = T3::parse(bytes.skip((p0.used + p1.used + p2.used) as int));
        if p0.outcome is Err {
            Parsed { outcome: Err(p0.outcome->Err_0), used: p0.used }
        } else if p1.outcome is Err {
            Parsed { outcome: Err(p1.outcome->Err_0), used: p0.used + p1.used }
        } else if p2.outcome is Err {
            Parsed { outcome: Err(p2.outcome->Err_0), used: p0.used + p1.used + p2.used }
        } else if p3.outcome is Err {
            Parsed { outcome: Err(p3.outcome->Err_0), used: p0.used + p1.used + p2.used + p3.used }
        } else {
            Parsed {
                outcome: Ok((p0.outcome->Ok_0, p1.outcome->Ok_0, p2.outcome->Ok_0, p3.outcome->Ok_0)),
                used: p0.used + p1.used + p2.used + p3.used,
            }
        }
    }

    fn decode(stream: &mut DStream) -> (r: Result<Self, E>) {
        let ghost p0 = T0::parse(stream@);
        let v0 = T0::decode(stream)?;
        let ghost p1 = T1::parse(stream@);
        let v1 = T1::decode(stream)?;
        assert(stream@ =~= old(stream)@.skip((p0.used + p1.used) as int));
        let ghost p2 = T2::parse(stream@);
        let v2 = T2::decode(stream)?;
        assert(stream@ =~= old(stream)@.skip((p0.used + p1.used + p2.used) as int));
        let ghost p3 = T3::parse(stream@);
        let v3 = T3::decode(stream)?;
        assert(stream@ =~= old(stream)@.skip((p0.used + p1.used + p2.used + p3.used) as int));
        Ok((v0, v1, v2, v3))
    }
}

impl<T0, T1, T2, T3, E, D> Codec for (T0, T1, T2, T3) where
    T0: Codec + Encode<Error = E> + Decode<Error = D>,
    T1: Codec + Encode<Error = E> + Decode<Error = D>,
    T2: Codec + Encode<Error = E> + Decode<Error = D>,
    T3: Codec + Encode<Error = E> + Decode<Error = D>,
 {
    proof fn lemma_round_trip(&self, rest: Seq<u8>) {
        let bytes = self.wire() + rest;
        let s3 = self.3.wire();
        let s2 = then_wire(self.2.wire(), self.2.failure(), s3);
        let s1 = then_wire(self.1.wire(), self.1.failure(), s2);
        let s0 = then_wire(self.0.wire(), self.0.failure(), s1);
        assert(self.wire() == s0);
        assert(bytes.skip(0) =~= bytes);
        assert(self.0.failure() is None);
        lemma_join(self.0.wire(), s1, rest);
        self.0.lemma_round_trip(s1 + rest);
        lemma_skip_join(bytes, 0, self.0.wire(), s1 + rest);
        assert(self.1.failure() is None);
        lemma_join(self.1.wire(), s2, rest);
        self.1.lemma_round_trip(s2 + rest);
        lemma_skip_join(bytes, self.0.wire().len(), self.1.wire(), s2 + rest);
        assert(self.2.failure() is None);
        lemma_join(self.2.wire(), s3, rest);
        self.2.lemma_round_trip(s3 + rest);
        lemma_skip_join(bytes, (self.0.wire().len() + self.1.wire().len()) as nat, self.2.wire(), s3 + rest);
        assert(self.3.failure() is None);
        self.3.lemma_round_trip(rest);
    }
}

impl<T0, T1, T2, T3, T4, E> Encode for (T0, T1, T2, T3, T4) where
    T0: Encode<Error = E>,
    T1: Encode<Error = E>,
    T2: Encode<Error = E>,
    T3: Encode<Error = E>,
    T4: Encode<Error = E>,
 {
    type Error = E;

    /// The fields in order, up to the first that fails.
    open spec fn wire(&self) -> Seq<u8> {
        then_wire(
            self.0.wire(),
            self.0.failure(),
            then_wire(
                self.1.wire(),
                self.1.failure(),
                then_wire(
                    self.2.wire(),
                    self.2.failure(),
                    then_wire(
                        self.3.wire(),
                        self.3.failure(),
                        self.4.wire(),
                    ),
                ),
            ),
        )
    }

    /// The failure of the first field that fails.
    open spec fn failure(&self) -> Option<E> {
        then_failure(
            self.0.failure(),
            then_failure(
                self.1.failure(),
                then_failure(
                    self.2.failure(),
                    then_failure(
                        self.3.failure(),
                        self.4.failure(),
                    ),
                ),
            ),
        )
    }

    fn encode(&self, stream: &mut OStream) -> (r: Result<(), E>) {
        let ghost s4 = self.4.wire();
        let ghost s3 = then_wire(self.3.wire(), self.3.failure(), s4);
        let ghost s2 = then_wire(self.2.wire(), self.2.failure(), s3);
        let ghost s1 = then_wire(self.1.wire(), self.1.failure(), s2);
        let ghost s0 = then_wire(self.0.wire(), self.0.failure(), s1);
        assert(self.wire() == s0);
        let ghost at0 = stream@;
        self.0.encode(stream)?;
        proof {
            lemma_join(at0, self.0.wire(), s1);
            assert(old(stream)@ + s0 == stream@ + s1);
        }
        let ghost at1 = stream@;
        self.1.encode(stream)?;
        proof {
            lemma_join(at1, self.1.wire(), s2);
            assert(old(stream)@ + s0 == stream@ + s2);
        }
        let ghost at2 = stream@;
        self.2.encode(stream)?;
        proof {
            lemma_join(at2, self.2.wire(), s3);
            assert(old(stream)@ + s0 == stream@ + s3);
        }
        let ghost at3 = stream@;
        self.3.encode(stream)?;
        proof {
            lemma_join(at3, self.3.wire(), s4);
            assert(old(stream)@ + s0 == stream@ + s4);
        }
        self.4.encode(stream)
    }
}

impl<T0, T1, T2, T3, T4, E> Decode for (T0, T1, T2, T3, T4) where
    T0: Decode<Error = E>,
    T1: Decode<Error = E>,
    T2: Decode<Error = E>,
    T3: Decode<Error = E>,
    T4: Decode<Error = E>,
 {
    type Error = E;

    type Model = (T0::Model, T1::Model, T2::Model, T3::Model, T4::Model);

    open spec fn model(&self) -> (T0::Model, T1::Model, T2::Model, T3::Model, T4::Model) {
        (self.0.model(), self.1.model(), self.2.model(), self.3.model(), self.4.model())
    }

    /// The fields in order, each read from where the one before it ended.
    open spec fn parse(bytes: Seq<u8>) -> Parsed<(T0::Model, T1::Model, T2::Model, T3::Model, T4::Model), E> {
        let p0 = T0::parse(bytes);
        let p1 = T1::parse(bytes.skip(p0.used as int));
        let p2 = T2::parse(bytes.skip((p0.used + p1.used) as int));
        let p3 = T3::parse(bytes.skip((p0.used + p1.used + p2.used) as int));
        let p4 = T4::parse(bytes.skip((p0.used + p1.used + p2.used + p3.used) as int));
        if p0.outcome is Err {
            Parsed { outcome: Err(p0.outcome->Err_0), used: p0.used }
        } else if p1.outcome is Err {
            Parsed { outcome: Err(p1.outcome->Err_0), used: p0.used + p1.used }
        } else if p2.outcome is Err {
            Parsed { outcome: Err(p2.outcome->Err_0), used: p0.used + p1.used + p2.used }
        } else if p3.outcome is Err {
            Parsed { outcome: Err(p3.outcome->Err_0), used: p0.used + p1.used + p2.used + p3.used }
        } else if p4.outcome is Err {
            Parsed { outcome: Err(p4.outcome->Err_0), used: p0.used + p1.used + p2.used + p3.used + p4.used }
        } else {
            Parsed {
                outcome: Ok((p0.outcome->Ok_0, p1.outcome->Ok_0, p2.outcome->Ok_0, p3.outcome->Ok_0, p4.outcome->Ok_0)),
                used: p0.used + p1.used + p2.used + p3.used + p4.used,
            }
        }
    }

    fn decode(stream: &mut DStream) -> (r: Result<Self, E>) {
        let ghost p0 = T0::parse(stream@);
        let v0 = T0::decode(stream)?;
        let ghost p1 = T1::parse(stream@);
        let v1 = T1::decode(stream)?;
        assert(stream@ =~= old(stream)@.skip((p0.used + p1.used) as int));
        let ghost p2 = T2::parse(stream@);
        let v2 = T2::decode(stream)?;
        assert(stream@ =~= old(stream)@.skip((p0.used + p1.used + p2.used) as int));
        let ghost p3 = T3::parse(stream@);
        let v3 = T3::decode(stream)?;
        assert(stream@ =~= old(stream)@.skip((p0.used + p1.used + p2.used + p3.used) as int));
        let ghost p4 = T4::parse(stream@);
        let v4 = T4::decode(stream)?;
        assert(stream@ =~= old(stream)@.skip((p0.used + p1.used + p2.used + p3.used + p4.used) as int));
        Ok((v0, v1, v2, v3, v4))
    }
}

impl<T0, T1, T2, T3, T4, E, D> Codec for (T0, T1, T2, T3, T4) where
    T0: Codec + Encode<Error = E> + Decode<Error = D>,
    T1: Codec + Encode<Error = E> + Decode<Error = D>,
    T2: Codec + Encode<Error = E> + Decode<Error = D>,
    T3: Codec + Encode<Error = E> + Decode<Error = D>,
    T4: Codec + Encode<Error = E> + Decode<Error = D>,
 {
    proof fn lemma_round_trip(&self, rest: Seq<u8>) {
        let bytes = self.wire() + rest;
        let s4 = self.4.wire();
        let s3 = then_wire(self.3.wire(), self.3.failure(), s4);
        let s2 = then_wire(self.2.wire(), self.2.failure(), s3);
        let s1 = then_wire(self.1.wire(), self.1.failure(), s2);
        let s0 = then_wire(self.0.wire(), self.0.failure(), s1);
        assert(self.wire() == s0);
        assert(bytes.skip(0) =~= bytes);
        assert(self.0.failure() is None);
        lemma_join(self.0.wire(), s1, rest);
        self.0.lemma_round_trip(s1 + rest);
        lemma_skip_join(bytes, 0, self.0.wire(), s1 + rest);
        assert(self.1.failure() is None);
        lemma_join(self.1.wire(), s2, rest);
        self.1.lemma_round_trip(s2 + rest);
        lemma_skip_join(bytes, self.0.wire().len(), self.1.wire(), s2 + rest);
        assert(self.2.failure() is None);
        lemma_join(self.2.wire(), s3, rest);
        self.2.lemma_round_trip(s3 + rest);
        lemma_skip_join(bytes, (self.0.wire().len() + self.1.wire().len()) as nat, self.2.wire(), s3 + rest);
        assert(self.3.failure() is None);
        lemma_join(self.3.wire(), s4, rest);
        self.3.lemma_round_trip(s4 + rest);
        lemma_skip_join(bytes, (self.0.wire().len() + self.1.wire().len() + self.2.wire().len()) as nat, self.3.wire(), s4 + rest);
        assert(self.4.failure() is None);
        self.4.lemma_round_trip(rest);
    }
}

impl<T0, T1, T2, T3, T4, T5, E> Encode for (T0, T1, T2, T3, T4, T5) where
    T0: Encode<Error = E>,
    T1: Encode<Error = E>,
    T2: Encode<Error = E>,
    T3: Encode<Error = E>,
    T4: Encode<Error = E>,
    T5: Encode<Error = E>,
 {
    type Error = E;

    /// The fields in order, up to the first that fails.
    open spec fn wire(&self) -> Seq<u8> {
        then_wire(
            self.0.wire(),
            self.0.failure(),
            then_wire(
                self.1.wire(),
                self.1.failure(),
                then_wire(
                    self.2.wire(),
                    self.2.failure(),
                    then_wire(
                        self.3.wire(),
                        self.3.failure(),
                        then_wire(
                            self.4.wire(),
                            self.4.failure(),
                            self.5.wire(),
                        ),
                    ),
                ),
            ),
        )
    }

    /// The failure of the first field that fails.
    open spec fn failure(&self) -> Option<E> {
        then_failure(
            self.0.failure(),
            then_failure(
                self.1.failure(),
                then_failure(
                    self.2.failure(),
                    then_failure(
                        self.3.failure(),
                        then_failure(
                            self.4.failure(),
                            self.5.failure(),
                        ),
                    ),
                ),
            ),
        )
    }

    fn encode(&self, stream: &mut OStream) -> (r: Result<(), E>) {
        let ghost s5 = self.5.wire();
        let ghost s4 = then_wire(self.4.wire(), self.4.failure(), s5);
        let ghost s3 = then_wire(self.3.wire(), self.3.failure(), s4);
        let ghost s2 = then_wire(self.2.wire(), self.2.failure(), s3);
        let ghost s1 = then_wire(self.1.wire(), self.1.failure(), s2);
        let ghost s0 = then_wire(self.0.wire(), self.0.failure(), s1);
        assert(self.wire() == s0);
        let ghost at0 = stream@;
        self.0.encode(stream)?;
        proof {
            lemma_join(at0, self.0.wire(), s1);
            assert(old(stream)@ + s0 == stream@ + s1);
        }
        let ghost at1 = stream@;
        self.1.encode(stream)?;
        proof {
            lemma_join(at1, self.1.wire(), s2);
            assert(old(stream)@ + s0 == stream@ + s2);
        }
        let ghost at2 = stream@;
        self.2.encode(stream)?;
        proof {
            lemma_join(at2, self.2.wire(), s3);
            assert(old(stream)@ + s0 == stream@ + s3);
        }
        let ghost at3 = stream@;
        self.3.encode(stream)?;
        proof {
            lemma_join(at3, self.3.wire(), s4);
            assert(old(stream)@ + s0 == stream@ + s4);
        }
        let ghost at4 = stream@;
        self.4.encode(stream)?;
        proof {
            lemma_join(at4, self.4.wire(), s5);
            assert(old(stream)@ + s0 == stream@ + s5);
        }
        self.5.encode(stream)
    }
}

impl<T0, T1, T2, T3, T4, T5, E> Decode for (T0, T1, T2, T3, T4, T5) where
    T0: Decode<Error = E>,
    T1: Decode<Error = E>,
    T2: Decode<Error = E>,
    T3: Decode<Error = E>,
    T4: Decode<Error = E>,
    T5: Decode<Error = E>,
 {
    type Error = E;

    type Model = (T0::Model, T1::Model, T2::Model, T3::Model, T4::Model, T5::Model);

    open spec fn model(&self) -> (T0::Model, T1::Model, T2::Model, T3::Model, T4::Model, T5::Model) {
        (self.0.model(), self.1.model(), self.2.model(), self.3.model(), self.4.model(), self.5.model())
    }

    /// The fields in order, each read from where the one before it ended.
    open spec fn parse(bytes: Seq<u8>) -> Parsed<(T0::Model, T1::Model, T2::Model, T3::Model, T4::Model, T5::Model), E> {
        let p0 = T0::parse(bytes);
        let p1 = T1::parse(bytes.skip(p0.used as int));
        let p2 = T2::parse(bytes.skip((p0.used + p1.used) as int));
        let p3 = T3::parse(bytes.skip((p0.used + p1.used + p2.used) as int));
        let p4 = T4::parse(bytes.skip((p0.used + p1.used + p2.used + p3.used) as int));
        let p5 = T5::parse(bytes.skip((p0.used + p1.used + p2.used + p3.used + p4.used) as int));
        if p0.outcome is Err {
            Parsed { outcome: Err(p0.outcome->Err_0), used: p0.used }
        } else if p1.outcome is Err {
            Parsed { outcome: Err(p1.outcome->Err_0), used: p0.used + p1.used }
        } else if p2.outcome is Err {
            Parsed { outcome: Err(p2.outcome->Err_0), used: p0.used + p1.used + p2.used }
        } else if p3.outcome is Err {
            Parsed { outcome: Err(p3.outcome->Err_0), used: p0.used + p1.used + p2.used + p3.used }
        } else if p4.outcome is Err {
            Parsed { outcome: Err(p4.outcome->Err_0), used: p0.used + p1.used + p2.used + p3.used + p4.used }
        } else if p5.outcome is Err {
            Parsed { outcome: Err(p5.outcome->Err_0), used: p0.used + p1.used + p2.used + p3.used + p4.used + p5.used }
        } else {
            Parsed {
                outcome: Ok((p0.outcome->Ok_0, p1.outcome->Ok_0, p2.outcome->Ok_0, p3.outcome->Ok_0, p4.outcome->Ok_0, p5.outcome->Ok_0)),
                used: p0.used + p1.used + p2.used + p3.used + p4.used + p5.used,
            }
        }
    }

    fn decode(stream: &mut DStream) -> (r: Result<Self, E>) {
        let ghost p0 = T0::parse(stream@);
        let v0 = T0::decode(stream)?;
        let ghost p1 = T1::parse(stream@);
        let v1 = T1::decode(stream)?;
        assert(stream@ =~= old(stream)@.skip((p0.used + p1.used) as int));
        let ghost p2 = T2::parse(stream@);
        let v2 = T2::decode(stream)?;
        assert(stream@ =~= old(stream)@.skip((p0.used + p1.used + p2.used) as int));
        let ghost p3 = T3::parse(stream@);
        let v3 = T3::decode(stream)?;
        assert(stream@ =~= old(stream)@.skip((p0.used + p1.used + p2.used + p3.used) as int));
        let ghost p4 = T4::parse(stream@);
        let v4 = T4::decode(stream)?;
        assert(stream@ =~= old(stream)@.skip((p0.used + p1.used + p2.used + p3.used + p4.used) as int));
        let ghost p5 = T5::parse(stream@);
        let v5 = T5::decode(stream)?;
        assert(stream@ =~= old(stream)@.skip((p0.used + p1.used + p2.used + p3.used + p4.used + p5.used) as int));
        Ok((v0, v1, v2, v3, v4, v5))
    }
}

impl<T0, T1, T2, T3, T4, T5, E, D> Codec for (T0, T1, T2, T3, T4, T5) where
    T0: Codec + Encode<Error = E> + Decode<Error = D>,
    T1: Codec + Encode<Error = E> + Decode<Error = D>,
    T2: Codec + Encode<Error = E> + Decode<Error = D>,
    T3: Codec + Encode<Error = E> + Decode<Error = D>,
    T4: Codec + Encode<Error = E> + Decode<Error = D>,
    T5: Codec + Encode<Error = E> + Decode<Error = D>,
 {
    proof fn lemma_round_trip(&self, rest: Seq<u8>) {
        let bytes = self.wire() + rest;
        let s5 = self.5.wire();
        let s4 = then_wire(self.4.wire(), self.4.failure(), s5);
        let s3 = then_wire(self.3.wire(), self.3.failure(), s4);
        let s2 = then_wire(self.2.wire(), self.2.failure(), s3);
        let s1 = then_wire(self.1.wire(), self.1.failure(), s2);
        let s0 = then_wire(self.0.wire(), self.0.failure(), s1);
        assert(self.wire() == s0);
        assert(bytes.skip(0) =~= bytes);
        assert(self.0.failure() is None);
        lemma_join(self.0.wire(), s1, rest);
        self.0.lemma_round_trip(s1 + rest);
        lemma_skip_join(bytes, 0, self.0.wire(), s1 + rest);
        assert(self.1.failure() is None);
        lemma_join(self.1.wire(), s2, rest);
        self.1.lemma_round_trip(s2 + rest);
        lemma_skip_join(bytes, self.0.wire().len(), self.1.wire(), s2 + rest);
        assert(self.2.failure() is None);
        lemma_join(self.2.wire(), s3, rest);
        self.2.lemma_round_trip(s3 + rest);
        lemma_skip_join(bytes, (self.0.wire().len() + self.1.wire().len()) as nat, self.2.wire(), s3 + rest);
        assert(self.3.failure() is None);
        lemma_join(self.3.wire(), s4, rest);
        self.3.lemma_round_trip(s4 + rest);
        lemma_skip_join(bytes, (self.0.wire().len() + self.1.wire().len() + self.2.wire().len()) as nat, self.3.wire(), s4 + rest);
        assert(self.4.failure() is None);
        lemma_join(self.4.wire(), s5, rest);
        self.4.lemma_round_trip(s5 + rest);
        lemma_skip_join(bytes, (self.0.wire().len() + self.1.wire().len() + self.2.wire().len() + self.3.wire().len()) as nat, self.4.wire(), s5 + rest);
        assert(self.5.failure() is None);
        self.5.lemma_round_trip(rest);
    }
}

impl<T0, T1, T2, T3, T4, T5, T6, E> Encode for (T0, T1, T2, T3, T4, T5, T6) where
    T0: Encode<Error = E>,
    T1: Encode<Error = E>,
    T2: Encode<Error = E>,
    T3: Encode<Error = E>,
    T4: Encode<Error = E>,
    T5: Encode<Error = E>,
    T6: Encode<Error = E>,
 {
    type Error = E;

    /// The fields in order, up to the first that fails.
    open spec fn wire(&self) -> Seq<u8> {
        then_wire(
            self.0.wire(),
            self.0.failure(),
            then_wire(
                self.1.wire(),
                self.1.failure(),
                then_wire(
                    self.2.wire(),
                    self.2.failure(),
                    then_wire(
                        self.3.wire(),
                        self.3.failure(),
                        then_wire(
                            self.4.wire(),
                            self.4.failure(),
                            then_wire(
                                self.5.wire(),
                                self.5.failure(),
                                self.6.wire(),
                            ),
                        ),
                    ),
                ),
            ),
        )
    }

    /// The failure of the first field that fails.
    open spec fn failure(&self) -> Option<E> {
        then_failure(
            self.0.failure(),
            then_failure(
                self.1.failure(),
                then_failure(
                    self.2.failure(),
                    then_failure(
                        self.3.failure(),
                        then_failure(
                            self.4.failure(),
                            then_failure(
                                self.5.failure(),
                                self.6.failure(),
                            ),
                        ),
                    ),
                ),
            ),
        )
    }

    fn encode(&self, stream: &mut OStream) -> (r: Result<(), E>) {
        let ghost s6 = self.6.wire();
        let ghost s5 = then_wire(self.5.wire(), self.5.failure(), s6);
        let ghost s4 = then_wire(self.4.wire(), self.4.failure(), s5);
        let ghost s3 = then_wire(self.3.wire(), self.3.failure(), s4);
        let ghost s2 = then_wire(self.2.wire(), self.2.failure(), s3);
        let ghost s1 = then_wire(self.1.wire(), self.1.failure(), s2);
        let ghost s0 = then_wire(self.0.wire(), self.0.failure(), s1);
        assert(self.wire() == s0);
        let ghost at0 = stream@;
        self.0.encode(stream)?;
        proof {
            lemma_join(at0, self.0.wire(), s1);
            assert(old(stream)@ + s0 == stream@ + s1);
        }
        let ghost at1 = stream@;
        self.1.encode(stream)?;
        proof {
            lemma_join(at1, self.1.wire(), s2);
            assert(old(stream)@ + s0 == stream@ + s2);
        }
        let ghost at2 = stream@;
        self.2.encode(stream)?;
        proof {
            lemma_join(at2, self.2.wire(), s3);
            assert(old(stream)@ + s0 == stream@ + s3);
        }
        let ghost at3 = stream@;
        self.3.encode(stream)?;
        proof {
            lemma_join(at3, self.3.wire(), s4);
            assert(old(stream)@ + s0 == stream@ + s4);
        }
        let ghost at4 = stream@;
        self.4.encode(stream)?;
        proof {
            lemma_join(at4, self.4.wire(), s5);
            assert(old(stream)@ + s0 == stream@ + s5);
        }
        let ghost at5 = stream@;
        self.5.encode(stream)?;
        proof {
            lemma_join(at5, self.5.wire(), s6);
            assert(old(stream)@ + s0 == stream@ + s6);
        }
        self.6.encode(stream)
    }
}

impl<T0, T1, T2, T3, T4, T5, T6, E> Decode for (T0, T1, T2, T3, T4, T5, T6) where
    T0: Decode<Error = E>,
    T1: Decode<Error = E>,
    T2: Decode<Error = E>,
    T3: Decode<Error = E>,
    T4: Decode<Error = E>,
    T5: Decode<Error = E>,
    T6: Decode<Error = E>,
 {
    type Error = E;

    type Model = (T0::Model, T1::Model, T2::Model, T3::Model, T4::Model, T5::Model, T6::Model);

    open spec fn model(&self) -> (T0::Model, T1::Model, T2::Model, T3::Model, T4::Model, T5::Model, T6::Model) {
        (self.0.model(), self.1.model(), self.2.model(), self.3.model(), self.4.model(), self.5.model(), self.6.model())
    }

    /// The fields in order, each read from where the one before it ended.
    open spec fn parse(bytes: Seq<u8>) -> Parsed<(T0::Model, T1::Model, T2::Model, T3::Model, T4::Model, T5::Model, T6::Model), E> {
        let p0 = T0::parse(bytes);
        let p1 = T1::parse(bytes.skip(p0.used as int));
        let p2 = T2::parse(bytes.skip((p0.used + p1.used) as int));
        let p3 = T3::parse(bytes.skip((p0.used + p1.used + p2.used) as int));
        let p4 = T4::parse(bytes.skip((p0.used + p1.used + p2.used + p3.used) as int));
        let p5 = T5::parse(bytes.skip((p0.used + p1.used + p2.used + p3.used + p4.used) as int));
        let p6 = T6::parse(bytes.skip((p0.used + p1.used + p2.used + p3.used + p4.used + p5.used) as int));
        if p0.outcome is Err {
            Parsed { outcome: Err(p0.outcome->Err_0), used: p0.used }
        } else if p1.outcome is Err {
            Parsed { outcome: Err(p1.outcome->Err_0), used: p0.used + p1.used }
        } else if p2.outcome is Err {
            Parsed { outcome: Err(p2.outcome->Err_0), used: p0.used + p1.used + p2.used }
        } else if p3.outcome is Err {
            Parsed { outcome: Err(p3.outcome->Err_0), used: p0.used + p1.used + p2.used + p3.used }
        } else if p4.outcome is Err {
            Parsed { outcome: Err(p4.outcome->Err_0), used: p0.used + p1.used + p2.used + p3.used + p4.used }
        } else if p5.outcome is Err {
            Parsed { outcome: Err(p5.outcome->Err_0), used: p0.used + p1.used + p2.used + p3.used + p4.used + p5.used }
        } else if p6.outcome is Err {
            Parsed { outcome: Err(p6.outcome->Err_0), used: p0.used + p1.used + p2.used + p3.used + p4.used + p5.used + p6.used }
        } else {
            Parsed {
                outcome: Ok((p0.outcome->Ok_0, p1.outcome->Ok_0, p2.outcome->Ok_0, p3.outcome->Ok_0, p4.outcome->Ok_0, p5.outcome->Ok_0, p6.outcome->Ok_0)),
                used: p0.used + p1.used + p2.used + p3.used + p4.used + p5.used + p6.used,
            }
        }
    }

    fn decode(stream: &mut DStream) -> (r: Result<Self, E>) {
        let ghost p0 = T0::parse(stream@);
        let v0 = T0::decode(stream)?;
        let ghost p1 = T1::parse(stream@);
        let v1 = T1::decode(stream)?;
        assert(stream@ =~= old(stream)@.skip((p0.used + p1.used) as int));
        let ghost p2 = T2::parse(stream@);
        let v2 = T2::decode(stream)?;
        assert(stream@ =~= old(stream)@.skip((p0.used + p1.used + p2.used) as int));
        let ghost p3 = T3::parse(stream@);
        let v3 = T3::decode(stream)?;
        assert(stream@ =~= old(stream)@.skip((p0.used + p1.used + p2.used + p3.used) as int));
        let ghost p4 = T4::parse(stream@);
        let v4 = T4::decode(stream)?;
        assert(stream@ =~= old(stream)@.skip((p0.used + p1.used + p2.used + p3.used + p4.used) as int));
        let ghost p5 = T5::parse(stream@);
        let v5 = T5::decode(stream)?;
        assert(stream@ =~= old(stream)@.skip((p0.used + p1.used + p2.used + p3.used + p4.used + p5.used) as int));
        let ghost p6 = T6::parse(stream@);
        let v6 = T6::decode(stream)?;
        assert(stream@ =~= old(stream)@.skip((p0.used + p1.used + p2.used + p3.used + p4.used + p5.used + p6.used) as int));
        Ok((v0, v1, v2, v3, v4, v5, v6))
    }
}

impl<T0, T1, T2, T3, T4, T5, T6, E, D> Codec for (T0, T1, T2, T3, T4, T5, T6) where
    T0: Codec + Encode<Error = E> + Decode<Error = D>,
    T1: Codec + Encode<Error = E> + Decode<Error = D>,
    T2: Codec + Encode<Error = E> + Decode<Error = D>,
    T3: Codec + Encode<Error = E> + Decode<Error = D>,
    T4: Codec + Encode<Error = E> + Decode<Error = D>,
    T5: Codec + Encode<Error = E> + Decode<Error = D>,
    T6: Codec + Encode<Error = E> + Decode<Error = D>,
 {
    proof fn lemma_round_trip(&self, rest: Seq<u8>) {
        let bytes = self.wire() + rest;
        let s6 = self.6.wire();
        let s5 = then_wire(self.5.wire(), self.5.failure(), s6);
        let s4 = then_wire(self.4.wire(), self.4.failure(), s5);
        let s3 = then_wire(self.3.wire(), self.3.failure(), s4);
        let s2 = then_wire(self.2.wire(), self.2.failure(), s3);
        let s1 = then_wire(self.1.wire(), self.1.failure(), s2);
        let s0 = then_wire(self.0.wire(), self.0.failure(), s1);
        assert(self.wire() == s0);
        assert(bytes.skip(0) =~= bytes);
        assert(self.0.failure() is None);
        lemma_join(self.0.wire(), s1, rest);
        self.0.lemma_round_trip(s1 + rest);
        lemma_skip_join(bytes, 0, self.0.wire(), s1 + rest);
        assert(self.1.failure() is None);
        lemma_join(self.1.wire(), s2, rest);
        self.1.lemma_round_trip(s2 + rest);
        lemma_skip_join(bytes, self.0.wire().len(), self.1.wire(), s2 + rest);
        assert(self.2.failure() is None);
        lemma_join(self.2.wire(), s3, rest);
        self.2.lemma_round_trip(s3 + rest);
        lemma_skip_join(bytes, (self.0.wire().len() + self.1.wire().len()) as nat, self.2.wire(), s3 + rest);
        assert(self.3.failure() is None);
        lemma_join(self.3.wire(), s4, rest);
        self.3.lemma_round_trip(s4 + rest);
        lemma_skip_join(bytes, (self.0.wire().len() + self.1.wire().len() + self.2.wire().len()) as nat, self.3.wire(), s4 + rest);
        assert(self.4.failure() is None);
        lemma_join(self.4.wire(), s5, rest);
        self.4.lemma_round_trip(s5 + rest);
        lemma_skip_join(bytes, (self.0.wire().len() + self.1.wire().len() + self.2.wire().len() + self.3.wire().len()) as nat, self.4.wire(), s5 + rest);
        assert(self.5.failure() is None);
        lemma_join(self.5.wire(), s6, rest);
        self.5.lemma_round_trip(s6 + rest);
        lemma_skip_join(bytes, (self.0.wire().len() + self.1.wire().len() + self.2.wire().len() + self.3.wire().len() + self.4.wire().len()) as nat, self.5.wire(), s6 + rest);
        assert(self.6.failure() is None);
        self.6.lemma_round_trip(rest);
    }
}

impl<T0, T1, T2, T3, T4, T5, T6, T7, E> Encode for (T0, T1, T2, T3, T4, T5, T6, T7) where
    T0: Encode<Error = E>,
    T1: Encode<Error = E>,
    T2: Encode<Error = E>,
    T3: Encode<Error = E>,
    T4: Encode<Error = E>,
    T5: Encode<Error = E>,
    T6: Encode<Error = E>,
    T7: Encode<Error = E>,
 {
    type Error = E;

    /// The fields in order, up to the first that fails.
    open spec fn wire(&self) -> Seq<u8> {
        then_wire(
            self.0.wire(),
            self.0.failure(),
            then_wire(
                self.1.wire(),
                self.1.failure(),
                then_wire(
                    self.2.wire(),
                    self.2.failure(),
                    then_wire(
                        self.3.wire(),
                        self.3.failure(),
                        then_wire(
                            self.4.wire(),
                            self.4.failure(),
                            then_wire(
                                self.5.wire(),
                                self.5.failure(),
                                then_wire(
                                    self.6.wire(),
                                    self.6.failure(),
                                    self.7.wire(),
                                ),
                            ),
                        ),
                    ),
                ),
            ),
        )
    }

    /// The failure of the first field that fails.
    open spec fn failure(&self) -> Option<E> {
        then_failure(
            self.0.failure(),
            then_failure(
                self.1.failure(),
                then_failure(
                    self.2.failure(),
                    then_failure(
                        self.3.failure(),
                        then_failure(
                            self.4.failure(),
                            then_failure(
                                self.5.failure(),
                                then_failure(
                                    self.6.failure(),
                                    self.7.failure(),
                                ),
                            ),
                        ),
                    ),
                ),
            ),
        )
    }

    fn encode(&self, stream: &mut OStream) -> (r: Result<(), E>) {
        let ghost s7 = self.7.wire();
        let ghost s6 = then_wire(self.6.wire(), self.6.failure(), s7);
        let ghost s5 = then_wire(self.5.wire(), self.5.failure(), s6);
        let ghost s4 = then_wire(self.4.wire(), self.4.failure(), s5);
        let ghost s3 = then_wire(self.3.wire(), self.3.failure(), s4);
        let ghost s2 = then_wire(self.2.wire(), self.2.failure(), s3);
        let ghost s1 = then_wire(self.1.wire(), self.1.failure(), s2);
        let ghost s0 = then_wire(self.0.wire(), self.0.failure(), s1);
        assert(self.wire() == s0);
        let ghost at0 = stream@;
        self.0.encode(stream)?;
        proof {
            lemma_join(at0, self.0.wire(), s1);
            assert(old(stream)@ + s0 == stream@ + s1);
        }
        let ghost at1 = stream@;
        self.1.encode(stream)?;
        proof {
            lemma_join(at1, self.1.wire(), s2);
            assert(old(stream)@ + s0 == stream@ + s2);
        }
        let ghost at2 = stream@;
        self.2.encode(stream)?;
        proof {
            lemma_join(at2, self.2.wire(), s3);
            assert(old(stream)@ + s0 == stream@ + s3);
        }
        let ghost at3 = stream@;
        self.3.encode(stream)?;
        proof {
            lemma_join(at3, self.3.wire(), s4);
            assert(old(stream)@ + s0 == stream@ + s4);
        }
        let ghost at4 = stream@;
        self.4.encode(stream)?;
        proof {
            lemma_join(at4, self.4.wire(), s5);
            assert(old(stream)@ + s0 == stream@ + s5);
        }
        let ghost at5 = stream@;
        self.5.encode(stream)?;
        proof {
            lemma_join(at5, self.5.wire(), s6);
            assert(old(stream)@ + s0 == stream@ + s6);
        }
        let ghost at6 = stream@;
        self.6.encode(stream)?;
        proof {
            lemma_join(at6, self.6.wire(), s7);
            assert(old(stream)@ + s0 == stream@ + s7);
        }
        self.7.encode(stream)
    }
}

impl<T0, T1, T2, T3, T4, T5, T6, T7, E> Decode for (T0, T1, T2, T3, T4, T5, T6, T7) where
    T0: Decode<Error = E>,
    T1: Decode<Error = E>,
    T2: Decode<Error = E>,
    T3: Decode<Error = E>,
    T4: Decode<Error = E>,
    T5: Decode<Error = E>,
    T6: Decode<Error = E>,
    T7: Decode<Error = E>,
 {
    type Error = E;

    type Model = (T0::Model, T1::Model, T2::Model, T3::Model, T4::Model, T5::Model, T6::Model, T7::Model);

    open spec fn model(&self) -> (T0::Model, T1::Model, T2::Model, T3::Model, T4::Model, T5::Model, T6::Model, T7::Model) {
        (self.0.model(), self.1.model(), self.2.model(), self.3.model(), self.4.model(), self.5.model(), self.6.model(), self.7.model())
    }

    /// The fields in order, each read from where the one before it ended.
    open spec fn parse(bytes: Seq<u8>) -> Parsed<(T0::Model, T1::Model, T2::Model, T3::Model, T4::Model, T5::Model, T6::Model, T7::Model), E> {
        let p0 = T0::parse(bytes);
        let p1 = T1::parse(bytes.skip(p0.used as int));
        let p2 = T2::parse(bytes.skip((p0.used + p1.used) as int));
        let p3 = T3::parse(bytes.skip((p0.used + p1.used + p2.used) as int));
        let p4 = T4::parse(bytes.skip((p0.used + p1.used + p2.used + p3.used) as int));
        let p5 = T5::parse(bytes.skip((p0.used + p1.used + p2.used + p3.used + p4.used) as int));
        let p6 = T6::parse(bytes.skip((p0.used + p1.used + p2.used + p3.used + p4.used + p5.used) as int));
        let p7 = T7::parse(bytes.skip((p0.used + p1.used + p2.used + p3.used + p4.used + p5.used + p6.used) as int));
        if p0.outcome is Err {
            Parsed { outcome: Err(p0.outcome->Err_0), used: p0.used }
        } else if p1.outcome is Err {
            Parsed { outcome: Err(p1.outcome->Err_0), used: p0.used + p1.used }
        } else if p2.outcome is Err {
            Parsed { outcome: Err(p2.outcome->Err_0), used: p0.used + p1.used + p2.used }
        } else if p3.outcome is Err {
            Parsed { outcome: Err(p3.outcome->Err_0), used: p0.used + p1.used + p2.used + p3.used }
        } else if p4.outcome is Err {
            Parsed { outcome: Err(p4.outcome->Err_0), used: p0.used + p1.used + p2.used + p3.used + p4.used }
        } else if p5.outcome is Err {
            Parsed { outcome: Err(p5.outcome->Err_0), used: p0.used + p1.used + p2.used + p3.used + p4.used + p5.used }
        } else if p6.outcome is Err {
            Parsed { outcome: Err(p6.outcome->Err_0), used: p0.used + p1.used + p2.used + p3.used + p4.used + p5.used + p6.used }
        } else if p7.outcome is Err {
            Parsed { outcome: Err(p7.outcome->Err_0), used: p0.used + p1.used + p2.used + p3.used + p4.used + p5.used + p6.used + p7.used }
        } else {
            Parsed {
                outcome: Ok((p0.outcome->Ok_0, p1.outcome->Ok_0, p2.outcome->Ok_0, p3.outcome->Ok_0, p4.outcome->Ok_0, p5.outcome->Ok_0, p6.outcome->Ok_0, p7.outcome->Ok_0)),
                used: p0.used + p1.used + p2.used + p3.used + p4.used + p5.used + p6.used + p7.used,
            }
        }
    }

    fn decode(stream: &mut DStream) -> (r: Result<Self, E>) {
        let ghost p0 = T0::parse(stream@);
        let v0 = T0::decode(stream)?;
        let ghost p1 = T1::parse(stream@);
        let v1 = T1::decode(stream)?;
        assert(stream@ =~= old(stream)@.skip((p0.used + p1.used) as int));
        let ghost p2 = T2::parse(stream@);
        let v2 = T2::decode(stream)?;
        assert(stream@ =~= old(stream)@.skip((p0.used + p1.used + p2.used) as int));
        let ghost p3 = T3::parse(stream@);
        let v3 = T3::decode(stream)?;
        assert(stream@ =~= old(stream)@.skip((p0.used + p1.used + p2.used + p3.used) as int));
        let ghost p4 = T4::parse(stream@);
        let v4 = T4::decode(stream)?;
        assert(stream@ =~= old(stream)@.skip((p0.used + p1.used + p2.used + p3.used + p4.used) as int));
        let ghost p5 = T5::parse(stream@);
        let v5 = T5::decode(stream)?;
        assert(stream@ =~= old(stream)@.skip((p0.used + p1.used + p2.used + p3.used + p4.used + p5.used) as int));
        let ghost p6 = T6::parse(stream@);
        let v6 = T6::decode(stream)?;
        assert(stream@ =~= old(stream)@.skip((p0.used + p1.used + p2.used + p3.used + p4.used + p5.used + p6.used) as int));
        let ghost p7 = T7::parse(stream@);
        let v7 = T7::decode(stream)?;
        assert(stream@ =~= old(stream)@.skip((p0.used + p1.used + p2.used + p3.used + p4.used + p5.used + p6.used + p7.used) as int));
        Ok((v0, v1, v2, v3, v4, v5, v6, v7))
    }
}

impl<T0, T1, T2, T3, T4, T5, T6, T7, E, D> Codec for (T0, T1, T2, T3, T4, T5, T6, T7) where
    T0: Codec + Encode<Error = E> + Decode<Error = D>,
    T1: Codec + Encode<Error = E> + Decode<Error = D>,
    T2: Codec + Encode<Error = E> + Decode<Error = D>,
    T3: Codec + Encode<Error = E> + Decode<Error = D>,
    T4: Codec + Encode<Error = E> + Decode<Error = D>,
    T5: Codec + Encode<Error = E> + Decode<Error = D>,
    T6: Codec + Encode<Error = E> + Decode<Error = D>,
    T7: Codec + Encode<Error = E> + Decode<Error = D>,
 {
    proof fn lemma_round_trip(&self, rest: Seq<u8>) {
        let bytes = self.wire() + rest;
        let s7 = self.7.wire();
        let s6 = then_wire(self.6.wire(), self.6.failure(), s7);
        let s5 = then_wire(self.5.wire(), self.5.failure(), s6);
        let s4 = then_wire(self.4.wire(), self.4.failure(), s5);
        let s3 = then_wire(self.3.wire(), self.3.failure(), s4);
        let s2 = then_wire(self.2.wire(), self.2.failure(), s3);
        let s1 = then_wire(self.1.wire(), self.1.failure(), s2);
        let s0 = then_wire(self.0.wire(), self.0.failure(), s1);
        assert(self.wire() == s0);
        assert(bytes.skip(0) =~= bytes);
        assert(self.0.failure() is None);
        lemma_join(self.0.wire(), s1, rest);
        self.0.lemma_round_trip(s1 + rest);
        lemma_skip_join(bytes, 0, self.0.wire(), s1 + rest);
        assert(self.1.failure() is None);
        lemma_join(self.1.wire(), s2, rest);
        self.1.lemma_round_trip(s2 + rest);
        lemma_skip_join(bytes, self.0.wire().len(), self.1.wire(), s2 + rest);
        assert(self.2.failure() is None);
        lemma_join(self.2.wire(), s3, rest);
        self.2.lemma_round_trip(s3 + rest);
        lemma_skip_join(bytes, (self.0.wire().len() + self.1.wire().len()) as nat, self.2.wire(), s3 + rest);
        assert(self.3.failure() is None);
        lemma_join(self.3.wire(), s4, rest);
        self.3.lemma_round_trip(s4 + rest);
        lemma_skip_join(bytes, (self.0.wire().len() + self.1.wire().len() + self.2.wire().len()) as nat, self.3.wire(), s4 + rest);
        assert(self.4.failure() is None);
        lemma_join(self.4.wire(), s5, rest);
        self.4.lemma_round_trip(s5 + rest);
        lemma_skip_join(bytes, (self.0.wire().len() + self.1.wire().len() + self.2.wire().len() + self.3.wire().len()) as nat, self.4.wire(), s5 + rest);
        assert(self.5.failure() is None);
        lemma_join(self.5.wire(), s6, rest);
        self.5.lemma_round_trip(s6 + rest);
        lemma_skip_join(bytes, (self.0.wire().len() + self.1.wire().len() + self.2.wire().len() + self.3.wire().len() + self.4.wire().len()) as nat, self.5.wire(), s6 + rest);
        assert(self.6.failure() is None);
        lemma_join(self.6.wire(), s7, rest);
        self.6.lemma_round_trip(s7 + rest);
        lemma_skip_join(bytes, (self.0.wire().len() + self.1.wire().len() + self.2.wire().len() + self.3.wire().len() + self.4.wire().len() + self.5.wire().len()) as nat, self.6.wire(), s7 + rest);
        assert(self.7.failure() is None);
        self.7.lemma_round_trip(rest);
    }
}

impl<T0, T1, T2, T3, T4, T5, T6, T7, T8, E> Encode for (T0, T1, T2, T3, T4, T5, T6, T7, T8) where
    T0: Encode<Error = E>,
    T1: Encode<Error = E>,
    T2: Encode<Error = E>,
    T3: Encode<Error = E>,
    T4: Encode<Error = E>,
    T5: Encode<Error = E>,
    T6: Encode<Error = E>,
    T7: Encode<Error = E>,
    T8: Encode<Error = E>,
 {
    type Error = E;

    /// The fields in order, up to the first that fails.
    open spec fn wire(&self) -> Seq<u8> {
        then_wire(
            self.0.wire(),
            self.0.failure(),
            then_wire(
                self.1.wire(),
                self.1.failure(),
                then_wire(
                    self.2.wire(),
                    self.2.failure(),
                    then_wire(
                        self.3.wire(),
                        self.3.failure(),
                        then_wire(
                            self.4.wire(),
                            self.4.failure(),
                            then_wire(
                                self.5.wire(),
                                self.5.failure(),
                                then_wire(
                                    self.6.wire(),
                                    self.6.failure(),
                                    then_wire(
                                        self.7.wire(),
                                        self.7.failure(),
                                        self.8.wire(),
                                    ),
                                ),
                            ),
                        ),
                    ),
                ),
            ),
        )
    }

    /// The failure of the first field that fails.
    open spec fn failure(&self) -> Option<E> {
        then_failure(
            self.0.failure(),
            then_failure(
                self.1.failure(),
                then_failure(
                    self.2.failure(),
                    then_failure(
                        self.3.failure(),
                        then_failure(
                            self.4.failure(),
                            then_failure(
                                self.5.failure(),
                                then_failure(
                                    self.6.failure(),
                                    then_failure(
                                        self.7.failure(),
                                        self.8.failure(),
                                    ),
                                ),
                            ),
                        ),
                    ),
                ),
            ),
        )
    }

    fn encode(&self, stream: &mut OStream) -> (r: Result<(), E>) {
        let ghost s8 = self.8.wire();
        let ghost s7 = then_wire(self.7.wire(), self.7.failure(), s8);
        let ghost s6 = then_wire(self.6.wire(), self.6.failure(), s7);
        let ghost s5 = then_wire(self.5.wire(), self.5.failure(), s6);
        let ghost s4 = then_wire(self.4.wire(), self.4.failure(), s5);
        let ghost s3 = then_wire(self.3.wire(), self.3.failure(), s4);
        let ghost s2 = then_wire(self.2.wire(), self.2.failure(), s3);
        let ghost s1 = then_wire(self.1.wire(), self.1.failure(), s2);
        let ghost s0 = then_wire(self.0.wire(), self.0.failure(), s1);
        assert(self.wire() == s0);
        let ghost at0 = stream@;
        self.0.encode(stream)?;
        proof {
            lemma_join(at0, self.0.wire(), s1);
            assert(old(stream)@ + s0 == stream@ + s1);
        }
        let ghost at1 = stream@;
        self.1.encode(stream)?;
        proof {
            lemma_join(at1, self.1.wire(), s2);
            assert(old(stream)@ + s0 == stream@ + s2);
        }
        let ghost at2 = stream@;
        self.2.encode(stream)?;
        proof {
            lemma_join(at2, self.2.wire(), s3);
            assert(old(stream)@ + s0 == stream@ + s3);
        }
        let ghost at3 = stream@;
        self.3.encode(stream)?;
        proof {
            lemma_join(at3, self.3.wire(), s4);
            assert(old(stream)@ + s0 == stream@ + s4);
        }
        let ghost at4 = stream@;
        self.4.encode(stream)?;
        proof {
            lemma_join(at4, self.4.wire(), s5);
            assert(old(stream)@ + s0 == stream@ + s5);
        }
        let ghost at5 = stream@;
        self.5.encode(stream)?;
        proof {
            lemma_join(at5, self.5.wire(), s6);
            assert(old(stream)@ + s0 == stream@ + s6);
        }
        let ghost at6 = stream@;
        self.6.encode(stream)?;
        proof {
            lemma_join(at6, self.6.wire(), s7);
            assert(old(stream)@ + s0 == stream@ + s7);
        }
        let ghost at7 = stream@;
        self.7.encode(stream)?;
        proof {
            lemma_join(at7, self.7.wire(), s8);
            assert(old(stream)@ + s0 == stream@ + s8);
        }
        self.8.encode(stream)
    }
}

impl<T0, T1, T2, T3, T4, T5, T6, T7, T8, E> Decode for (T0, T1, T2, T3, T4, T5, T6, T7, T8) where
    T0: Decode<Error = E>,
    T1: Decode<Error = E>,
    T2: Decode<Error = E>,
    T3: Decode<Error = E>,
    T4: Decode<Error = E>,
    T5: Decode<Error = E>,
    T6: Decode<Error = E>,
    T7: Decode<Error = E>,
    T8: Decode<Error = E>,
 {
    type Error = E;

    type Model = (T0::Model, T1::Model, T2::Model, T3::Model, T4::Model, T5::Model, T6::Model, T7::Model, T8::Model);

    open spec fn model(&self) -> (T0::Model, T1::Model, T2::Model, T3::Model, T4::Model, T5::Model, T6::Model, T7::Model, T8::Model) {
        (self.0.model(), self.1.model(), self.2.model(), self.3.model(), self.4.model(), self.5.model(), self.6.model(), self.7.model(), self.8.model())
    }

    /// The fields in order, each read from where the one before it ended.
    open spec fn parse(bytes: Seq<u8>) -> Parsed<(T0::Model, T1::Model, T2::Model, T3::Model, T4::Model, T5::Model, T6::Model, T7::Model, T8::Model), E> {
        let p0 = T0::parse(bytes);
        let p1 = T1::parse(bytes.skip(p0.used as int));
        let p2 = T2::parse(bytes.skip((p0.used + p1.used) as int));
        let p3 = T3::parse(bytes.skip((p0.used + p1.used + p2.used) as int));
        let p4 = T4::parse(bytes.skip((p0.used + p1.used + p2.used + p3.used) as int));
        let p5 = T5::parse(bytes.skip((p0.used + p1.used + p2.used + p3.used + p4.used) as int));
        let p6 = T6::parse(bytes.skip((p0.used + p1.used + p2.used + p3.used + p4.used + p5.used) as int));
        let p7 = T7::parse(bytes.skip((p0.used + p1.used + p2.used + p3.used + p4.used + p5.used + p6.used) as int));
        let p8 = T8::parse(bytes.skip((p0.used + p1.used + p2.used + p3.used + p4.used + p5.used + p6.used + p7.used) as int));
        if p0.outcome is Err {
            Parsed { outcome: Err(p0.outcome->Err_0), used: p0.used }
        } else if p1.outcome is Err {
            Parsed { outcome: Err(p1.outcome->Err_0), used: p0.used + p1.used }
        } else if p2.outcome is Err {
            Parsed { outcome: Err(p2.outcome->Err_0), used: p0.used + p1.used + p2.used }
        } else if p3.outcome is Err {
            Parsed { outcome: Err(p3.outcome->Err_0), used: p0.used + p1.used + p2.used + p3.used }
        } else if p4.outcome is Err {
            Parsed { outcome: Err(p4.outcome->Err_0), used: p0.used + p1.used + p2.used + p3.used + p4.used }
        } else if p5.outcome is Err {
            Parsed { outcome: Err(p5.outcome->Err_0), used: p0.used + p1.used + p2.used + p3.used + p4.used + p5.used }
        } else if p6.outcome is Err {
            Parsed { outcome: Err(p6.outcome->Err_0), used: p0.used + p1.used + p2.used + p3.used + p4.used + p5.used + p6.used }
        } else if p7.outcome is Err {
            Parsed { outcome: Err(p7.outcome->Err_0), used: p0.used + p1.used + p2.used + p3.used + p4.used + p5.used + p6.used + p7.used }
        } else if p8.outcome is Err {
            Parsed { outcome: Err(p8.outcome->Err_0), used: p0.used + p1.used + p2.used + p3.used + p4.used + p5.used + p6.used + p7.used + p8.used }
        } else {
            Parsed {
                outcome: Ok((p0.outcome->Ok_0, p1.outcome->Ok_0, p2.outcome->Ok_0, p3.outcome->Ok_0, p4.outcome->Ok_0, p5.outcome->Ok_0, p6.outcome->Ok_0, p7.outcome->Ok_0, p8.outcome->Ok_0)),
                used: p0.used + p1.used + p2.used + p3.used + p4.used + p5.used + p6.used + p7.used + p8.used,
            }
        }
    }

    fn decode(stream: &mut DStream) -> (r: Result<Self, E>) {
        let ghost p0 = T0::parse(stream@);
        let v0 = T0::decode(stream)?;
        let ghost p1 = T1::parse(stream@);
        let v1 = T1::decode(stream)?;
        assert(stream@ =~= old(stream)@.skip((p0.used + p1.used) as int));
        let ghost p2 = T2::parse(stream@);
        let v2 = T2::decode(stream)?;
        assert(stream@ =~= old(stream)@.skip((p0.used + p1.used + p2.used) as int));
        let ghost p3 = T3::parse(stream@);
        let v3 = T3::decode(stream)?;
        assert(stream@ =~= old(stream)@.skip((p0.used + p1.used + p2.used + p3.used) as int));
        let ghost p4 = T4::parse(stream@);
        let v4 = T4::decode(stream)?;
        assert(stream@ =~= old(stream)@.skip((p0.used + p1.used + p2.used + p3.used + p4.used) as int));
        let ghost p5 = T5::parse(stream@);
        let v5 = T5::decode(stream)?;
        assert(stream@ =~= old(stream)@.skip((p0.used + p1.used + p2.used + p3.used + p4.used + p5.used) as int));
        let ghost p6 = T6::parse(stream@);
        let v6 = T6::decode(stream)?;
        assert(stream@ =~= old(stream)@.skip((p0.used + p1.used + p2.used + p3.used + p4.used + p5.used + p6.used) as int));
        let ghost p7 = T7::parse(stream@);
        let v7 = T7::decode(stream)?;
        assert(stream@ =~= old(stream)@.skip((p0.used + p1.used + p2.used + p3.used + p4.used + p5.used + p6.used + p7.used) as int));
        let ghost p8 = T8::parse(stream@);
        let v8 = T8::decode(stream)?;
        assert(stream@ =~= old(stream)@.skip((p0.used + p1.used + p2.used + p3.used + p4.used + p5.used + p6.used + p7.used + p8.used) as int));
        Ok((v0, v1, v2, v3, v4, v5, v6, v7, v8))
    }
}

impl<T0, T1, T2, T3, T4, T5, T6, T7, T8, E, D> Codec for (T0, T1, T2, T3, T4, T5, T6, T7, T8) where
    T0: Codec + Encode<Error = E> + Decode<Error = D>,
    T1: Codec + Encode<Error = E> + Decode<Error = D>,
    T2: Codec + Encode<Error = E> + Decode<Error = D>,
    T3: Codec + Encode<Error = E> + Decode<Error = D>,
    T4: Codec + Encode<Error = E> + Decode<Error = D>,
    T5: Codec + Encode<Error = E> + Decode<Error = D>,
    T6: Codec + Encode<Error = E> + Decode<Error = D>,
    T7: Codec + Encode<Error = E> + Decode<Error = D>,
    T8: Codec + Encode<Error = E> + Decode<Error = D>,
 {
    proof fn lemma_round_trip(&self, rest: Seq<u8>) {
        let bytes = self.wire() + rest;
        let s8 = self.8.wire();
        let s7 = then_wire(self.7.wire(), self.7.failure(), s8);
        let s6 = then_wire(self.6.wire(), self.6.failure(), s7);
        let s5 = then_wire(self.5.wire(), self.5.failure(), s6);
        let s4 = then_wire(self.4.wire(), self.4.failure(), s5);
        let s3 = then_wire(self.3.wire(), self.3.failure(), s4);
        let s2 = then_wire(self.2.wire(), self.2.failure(), s3);
        let s1 = then_wire(self.1.wire(), self.1.failure(), s2);
        let s0 = then_wire(self.0.wire(), self.0.failure(), s1);
        assert(self.wire() == s0);
        assert(bytes.skip(0) =~= bytes);
        assert(self.0.failure() is None);
        lemma_join(self.0.wire(), s1, rest);
        self.0.lemma_round_trip(s1 + rest);
        lemma_skip_join(bytes, 0, self.0.wire(), s1 + rest);
        assert(self.1.failure() is None);
        lemma_join(self.1.wire(), s2, rest);
        self.1.lemma_round_trip(s2 + rest);
        lemma_skip_join(bytes, self.0.wire().len(), self.1.wire(), s2 + rest);
        assert(self.2.failure() is None);
        lemma_join(self.2.wire(), s3, rest);
        self.2.lemma_round_trip(s3 + rest);
        lemma_skip_join(bytes, (self.0.wire().len() + self.1.wire().len()) as nat, self.2.wire(), s3 + rest);
        assert(self.3.failure() is None);
        lemma_join(self.3.wire(), s4, rest);
        self.3.lemma_round_trip(s4 + rest);
        lemma_skip_join(bytes, (self.0.wire().len() + self.1.wire().len() + self.2.wire().len()) as nat, self.3.wire(), s4 + rest);
        assert(self.4.failure() is None);
        lemma_join(self.4.wire(), s5, rest);
        self.4.lemma_round_trip(s5 + rest);
        lemma_skip_join(bytes, (self.0.wire().len() + self.1.wire().len() + self.2.wire().len() + self.3.wire().len()) as nat, self.4.wire(), s5 + rest);
        assert(self.5.failure() is None);
        lemma_join(self.5.wire(), s6, rest);
        self.5.lemma_round_trip(s6 + rest);
        lemma_skip_join(bytes, (self.0.wire().len() + self.1.wire().len() + self.2.wire().len() + self.3.wire().len() + self.4.wire().len()) as nat, self.5.wire(), s6 + rest);
        assert(self.6.failure() is None);
        lemma_join(self.6.wire(), s7, rest);
        self.6.lemma_round_trip(s7 + rest);
        lemma_skip_join(bytes, (self.0.wire().len() + self.1.wire().len() + self.2.wire().len() + self.3.wire().len() + self.4.wire().len() + self.5.wire().len()) as nat, self.6.wire(), s7 + rest);
        assert(self.7.failure() is None);
        lemma_join(self.7.wire(), s8, rest);
        self.7.lemma_round_trip(s8 + rest);
        lemma_skip_join(bytes, (self.0.wire().len() + self.1.wire().len() + self.2.wire().len() + self.3.wire().len() + self.4.wire().len() + self.5.wire().len() + self.6.wire().len()) as nat, self.7.wire(), s8 + rest);
        assert(self.8.failure() is None);
        self.8.lemma_round_trip(rest);
    }
}

impl<T0, T1, T2, T3, T4, T5, T6, T7, T8, T9, E> Encode for (T0, T1, T2, T3, T4, T5, T6, T7, T8, T9) where
    T0: Encode<Error = E>,
    T1: Encode<Error = E>,
    T2: Encode<Error = E>,
    T3: Encode<Error = E>,
    T4: Encode<Error = E>,
    T5: Encode<Error = E>,
    T6: Encode<Error = E>,
    T7: Encode<Error = E>,
    T8: Encode<Error = E>,
    T9: Encode<Error = E>,
 {
    type Error = E;

    /// The fields in order, up to the first that fails.
    open spec fn wire(&self) -> Seq<u8> {
        then_wire(
            self.0.wire(),
            self.0.failure(),
            then_wire(
                self.1.wire(),
                self.1.failure(),
                then_wire(
                    self.2.wire(),
                    self.2.failure(),
                    then_wire(
                        self.3.wire(),
                        self.3.failure(),
                        then_wire(
                            self.4.wire(),
                            self.4.failure(),
                            then_wire(
                                self.5.wire(),
                                self.5.failure(),
                                then_wire(
                                    self.6.wire(),
                                    self.6.failure(),
                                    then_wire(
                                        self.7.wire(),
                                        self.7.failure(),
                                        then_wire(
                                            self.8.wire(),
                                            self.8.failure(),
                                            self.9.wire(),
                                        ),
                                    ),
                                ),
                            ),
                        ),
                    ),
                ),
            ),
        )
    }

    /// The failure of the first field that fails.
    open spec fn failure(&self) -> Option<E> {
        then_failure(
            self.0.failure(),
            then_failure(
                self.1.failure(),
                then_failure(
                    self.2.failure(),
                    then_failure(
                        self.3.failure(),
                        then_failure(
                            self.4.failure(),
                            then_failure(
                                self.5.failure(),
                                then_failure(
                                    self.6.failure(),
                                    then_failure(
                                        self.7.failure(),
                                        then_failure(
                                            self.8.failure(),
                                            self.9.failure(),
                                        ),
                                    ),
                                ),
                            ),
                        ),
                    ),
                ),
            ),
        )
    }

    fn encode(&self, stream: &mut OStream) -> (r: Result<(), E>) {
        let ghost s9 = self.9.wire();
        let ghost s8 = then_wire(self.8.wire(), self.8.failure(), s9);
        let ghost s7 = then_wire(self.7.wire(), self.7.failure(), s8);
        let ghost s6 = then_wire(self.6.wire(), self.6.failure(), s7);
        let ghost s5 = then_wire(self.5.wire(), self.5.failure(), s6);
        let ghost s4 = then_wire(self.4.wire(), self.4.failure(), s5);
        let ghost s3 = then_wire(self.3.wire(), self.3.failure(), s4);
        let ghost s2 = then_wire(self.2.wire(), self.2.failure(), s3);
        let ghost s1 = then_wire(self.1.wire(), self.1.failure(), s2);
        let ghost s0 = then_wire(self.0.wire(), self.0.failure(), s1);
        assert(self.wire() == s0);
        let ghost at0 = stream@;
        self.0.encode(stream)?;
        proof {
            lemma_join(at0, self.0.wire(), s1);
            assert(old(stream)@ + s0 == stream@ + s1);
        }
        let ghost at1 = stream@;
        self.1.encode(stream)?;
        proof {
            lemma_join(at1, self.1.wire(), s2);
            assert(old(stream)@ + s0 == stream@ + s2);
        }
        let ghost at2 = stream@;
        self.2.encode(stream)?;
        proof {
            lemma_join(at2, self.2.wire(), s3);
            assert(old(stream)@ + s0 == stream@ + s3);
        }
        let ghost at3 = stream@;
        self.3.encode(stream)?;
        proof {
            lemma_join(at3, self.3.wire(), s4);
            assert(old(stream)@ + s0 == stream@ + s4);
        }
        let ghost at4 = stream@;
        self.4.encode(stream)?;
        proof {
            lemma_join(at4, self.4.wire(), s5);
            assert(old(stream)@ + s0 == stream@ + s5);
        }
        let ghost at5 = stream@;
        self.5.encode(stream)?;
        proof {
            lemma_join(at5, self.5.wire(), s6);
            assert(old(stream)@ + s0 == stream@ + s6);
        }
        let ghost at6 = stream@;
        self.6.encode(stream)?;
        proof {
            lemma_join(at6, self.6.wire(), s7);
            assert(old(stream)@ + s0 == stream@ + s7);
        }
        let ghost at7 = stream@;
        self.7.encode(stream)?;
        proof {
            lemma_join(at7, self.7.wire(), s8);
            assert(old(stream)@ + s0 == stream@ + s8);
        }
        let ghost at8 = stream@;
        self.8.encode(stream)?;
        proof {
            lemma_join(at8, self.8.wire(), s9);
            assert(old(stream)@ + s0 == stream@ + s9);
        }
        self.9.encode(stream)
    }
}

impl<T0, T1, T2, T3, T4, T5, T6, T7, T8, T9, E> Decode for (T0, T1, T2, T3, T4, T5, T6, T7, T8, T9) where
    T0: Decode<Error = E>,
    T1: Decode<Error = E>,
    T2: Decode<Error = E>,
    T3: Decode<Error = E>,
    T4: Decode<Error = E>,
    T5: Decode<Error = E>,
    T6: Decode<Error = E>,
    T7: Decode<Error = E>,
    T8: Decode<Error = E>,
    T9: Decode<Error = E>,
 {
    type Error = E;

    type Model = (T0::Model, T1::Model, T2::Model, T3::Model, T4::Model, T5::Model, T6::Model, T7::Model, T8::Model, T9::Model);

    open spec fn model(&self) -> (T0::Model, T1::Model, T2::Model, T3::Model, T4::Model, T5::Model, T6::Model, T7::Model, T8::Model, T9::Model) {
        (self.0.model(), self.1.model(), self.2.model(), self.3.model(), self.4.model(), self.5.model(), self.6.model(), self.7.model(), self.8.model(), self.9.model())
    }

    /// The fields in order, each read from where the one before it ended.
    open spec fn parse(bytes: Seq<u8>) -> Parsed<(T0::Model, T1::Model, T2::Model, T3::Model, T4::Model, T5::Model, T6::Model, T7::Model, T8::Model, T9::Model), E> {
        let p0 = T0::parse(bytes);
        let p1 = T1::parse(bytes.skip(p0.used as int));
        let p2 = T2::parse(bytes.skip((p0.used + p1.used) as int));
        let p3 = T3::parse(bytes.skip((p0.used + p1.used + p2.used) as int));
        let p4 = T4::parse(bytes.skip((p0.used + p1.used + p2.used + p3.used) as int));
        let p5 = T5::parse(bytes.skip((p0.used + p1.used + p2.used + p3.used + p4.used) as int));
        let p6 = T6::parse(bytes.skip((p0.used + p1.used + p2.used + p3.used + p4.used + p5.used) as int));
        let p7 = T7::parse(bytes.skip((p0.used + p1.used + p2.used + p3.used + p4.used + p5.used + p6.used) as int));
        let p8 = T8::parse(bytes.skip((p0.used + p1.used + p2.used + p3.used + p4.used + p5.used + p6.used + p7.used) as int));
        let p9 = T9::parse(bytes.skip((p0.used + p1.used + p2.used + p3.used + p4.used + p5.used + p6.used + p7.used + p8.used) as int));
        if p0.outcome is Err {
            Parsed { outcome: Err(p0.outcome->Err_0), used: p0.used }
        } else if p1.outcome is Err {
            Parsed { outcome: Err(p1.outcome->Err_0), used: p0.used + p1.used }
        } else if p2.outcome is Err {
            Parsed { outcome: Err(p2.outcome->Err_0), used: p0.used + p1.used + p2.used }
        } else if p3.outcome is Err {
            Parsed { outcome: Err(p3.outcome->Err_0), used: p0.used + p1.used + p2.used + p3.used }
        } else if p4.outcome is Err {
            Parsed { outcome: Err(p4.outcome->Err_0), used: p0.used + p1.used + p2.used + p3.used + p4.used }
        } else if p5.outcome is Err {
            Parsed { outcome: Err(p5.outcome->Err_0), used: p0.used + p1.used + p2.used + p3.used + p4.used + p5.used }
        } else if p6.outcome is Err {
            Parsed { outcome: Err(p6.outcome->Err_0), used: p0.used + p1.used + p2.used + p3.used + p4.used + p5.used + p6.used }
        } else if p7.outcome is Err {
            Parsed { outcome: Err(p7.outcome->Err_0), used: p0.used + p1.used + p2.used + p3.used + p4.used + p5.used + p6.used + p7.used }
        } else if p8.outcome is Err {
            Parsed { outcome: Err(p8.outcome->Err_0), used: p0.used + p1.used + p2.used + p3.used + p4.used + p5.used + p6.used + p7.used + p8.used }
        } else if p9.outcome is Err {
            Parsed { outcome: Err(p9.outcome->Err_0), used: p0.used + p1.used + p2.used + p3.used + p4.used + p5.used + p6.used + p7.used + p8.used + p9.used }
        } else {
            Parsed {
                outcome: Ok((p0.outcome->Ok_0, p1.outcome->Ok_0, p2.outcome->Ok_0, p3.outcome->Ok_0, p4.outcome->Ok_0, p5.outcome->Ok_0, p6.outcome->Ok_0, p7.outcome->Ok_0, p8.outcome->Ok_0, p9.outcome->Ok_0)),
                used: p0.used + p1.used + p2.used + p3.used + p4.used + p5.used + p6.used + p7.used + p8.used + p9.used,
            }
        }
    }

    fn decode(stream: &mut DStream) -> (r: Result<Self, E>) {
        let ghost p0 = T0::parse(stream@);
        let v0 = T0::decode(stream)?;
        let ghost p1 = T1::parse(stream@);
        let v1 = T1::decode(stream)?;
        assert(stream@ =~= old(stream)@.skip((p0.used + p1.used) as int));
        let ghost p2 = T2::parse(stream@);
        let v2 = T2::decode(stream)?;
        assert(stream@ =~= old(stream)@.skip((p0.used + p1.used + p2.used) as int));
        let ghost p3 = T3::parse(stream@);
        let v3 = T3::decode(stream)?;
        assert(stream@ =~= old(stream)@.skip((p0.used + p1.used + p2.used + p3.used) as int));
        let ghost p4 = T4::parse(stream@);
        let v4 = T4::decode(stream)?;
        assert(stream@ =~= old(stream)@.skip((p0.used + p1.used + p2.used + p3.used + p4.used) as int));
        let ghost p5 = T5::parse(stream@);
        let v5 = T5::decode(stream)?;
        assert(stream@ =~= old(stream)@.skip((p0.used + p1.used + p2.used + p3.used + p4.used + p5.used) as int));
        let ghost p6 = T6::parse(stream@);
        let v6 = T6::decode(stream)?;
        assert(stream@ =~= old(stream)@.skip((p0.used + p1.used + p2.used + p3.used + p4.used + p5.used + p6.used) as int));
        let ghost p7 = T7::parse(stream@);
        let v7 = T7::decode(stream)?;
        assert(stream@ =~= old(stream)@.skip((p0.used + p1.used + p2.used + p3.used + p4.used + p5.used + p6.used + p7.used) as int));
        let ghost p8 = T8::parse(stream@);
        let v8 = T8::decode(stream)?;
        assert(stream@ =~= old(stream)@.skip((p0.used + p1.used + p2.used + p3.used + p4.used + p5.used + p6.used + p7.used + p8.used) as int));
        let ghost p9 = T9::parse(stream@);
        let v9 = T9::decode(stream)?;
        assert(stream@ =~= old(stream)@.skip((p0.used + p1.used + p2.used + p3.used + p4.used + p5.used + p6.used + p7.used + p8.used + p9.used) as int));
        Ok((v0, v1, v2, v3, v4, v5, v6, v7, v8, v9))
    }
}

impl<T0, T1, T2, T3, T4, T5, T6, T7, T8, T9, E, D> Codec for (T0, T1, T2, T3, T4, T5, T6, T7, T8, T9) where
    T0: Codec + Encode<Error = E> + Decode<Error = D>,
    T1: Codec + Encode<Error = E> + Decode<Error = D>,
    T2: Codec + Encode<Error = E> + Decode<Error = D>,
    T3: Codec + Encode<Error = E> + Decode<Error = D>,
    T4: Codec + Encode<Error = E> + Decode<Error = D>,
    T5: Codec + Encode<Error = E> + Decode<Error = D>,
    T6: Codec + Encode<Error = E> + Decode<Error = D>,
    T7: Codec + Encode<Error = E> + Decode<Error = D>,
    T8: Codec + Encode<Error = E> + Decode<Error = D>,
    T9: Codec + Encode<Error = E> + Decode<Error = D>,
 {
    proof fn lemma_round_trip(&self, rest: Seq<u8>) {
        let bytes = self.wire() + rest;
        let s9 = self.9.wire();
        let s8 = then_wire(self.8.wire(), self.8.failure(), s9);
        let s7 = then_wire(self.7.wire(), self.7.failure(), s8);
        let s6 = then_wire(self.6.wire(), self.6.failure(), s7);
        let s5 = then_wire(self.5.wire(), self.5.failure(), s6);
        let s4 = then_wire(self.4.wire(), self.4.failure(), s5);
        let s3 = then_wire(self.3.wire(), self.3.failure(), s4);
        let s2 = then_wire(self.2.wire(), self.2.failure(), s3);
        let s1 = then_wire(self.1.wire(), self.1.failure(), s2);
        let s0 = then_wire(self.0.wire(), self.0.failure(), s1);
        assert(self.wire() == s0);
        assert(bytes.skip(0) =~= bytes);
        assert(self.0.failure() is None);
        lemma_join(self.0.wire(), s1, rest);
        self.0.lemma_round_trip(s1 + rest);
        lemma_skip_join(bytes, 0, self.0.wire(), s1 + rest);
        assert(self.1.failure() is None);
        lemma_join(self.1.wire(), s2, rest);
        self.1.lemma_round_trip(s2 + rest);
        lemma_skip_join(bytes, self.0.wire().len(), self.1.wire(), s2 + rest);
        assert(self.2.failure() is None);
        lemma_join(self.2.wire(), s3, rest);
        self.2.lemma_round_trip(s3 + rest);
        lemma_skip_join(bytes, (self.0.wire().len() + self.1.wire().len()) as nat, self.2.wire(), s3 + rest);
        assert(self.3.failure() is None);
        lemma_join(self.3.wire(), s4, rest);
        self.3.lemma_round_trip(s4 + rest);
        lemma_skip_join(bytes, (self.0.wire().len() + self.1.wire().len() + self.2.wire().len()) as nat, self.3.wire(), s4 + rest);
        assert(self.4.failure() is None);
        lemma_join(self.4.wire(), s5, rest);
        self.4.lemma_round_trip(s5 + rest);
        lemma_skip_join(bytes, (self.0.wire().len() + self.1.wire().len() + self.2.wire().len() + self.3.wire().len()) as nat, self.4.wire(), s5 + rest);
        assert(self.5.failure() is None);
        lemma_join(self.5.wire(), s6, rest);
        self.5.lemma_round_trip(s6 + rest);
        lemma_skip_join(bytes, (self.0.wire().len() + self.1.wire().len() + self.2.wire().len() + self.3.wire().len() + self.4.wire().len()) as nat, self.5.wire(), s6 + rest);
        assert(self.6.failure() is None);
        lemma_join(self.6.wire(), s7, rest);
        self.6.lemma_round_trip(s7 + rest);
        lemma_skip_join(bytes, (self.0.wire().len() + self.1.wire().len() + self.2.wire().len() + self.3.wire().len() + self.4.wire().len() + self.5.wire().len()) as nat, self.6.wire(), s7 + rest);
        assert(self.7.failure() is None);
        lemma_join(self.7.wire(), s8, rest);
        self.7.lemma_round_trip(s8 + rest);
        lemma_skip_join(bytes, (self.0.wire().len() + self.1.wire().len() + self.2.wire().len() + self.3.wire().len() + self.4.wire().len() + self.5.wire().len() + self.6.wire().len()) as nat, self.7.wire(), s8 + rest);
        assert(self.8.failure() is None);
        lemma_join(self.8.wire(), s9, rest);
        self.8.lemma_round_trip(s9 + rest);
        lemma_skip_join(bytes, (self.0.wire().len() + self.1.wire().len() + self.2.wire().len() + self.3.wire().len() + self.4.wire().len() + self.5.wire().len() + self.6.wire().len() + self.7.wire().len()) as nat, self.8.wire(), s9 + rest);
        assert(self.9.failure() is None);
        self.9.lemma_round_trip(rest);
    }
}

impl<T0, T1, T2, T3, T4, T5, T6, T7, T8, T9, T10, E> Encode for (T0, T1, T2, T3, T4, T5, T6, T7, T8, T9, T10) where
    T0: Encode<Error = E>,
    T1: Encode<Error = E>,
    T2: Encode<Error = E>,
    T3: Encode<Error = E>,
    T4: Encode<Error = E>,
    T5: Encode<Error = E>,
    T6: Encode<Error = E>,
    T7: Encode<Error = E>,
    T8: Encode<Error = E>,
    T9: Encode<Error = E>,
    T10: Encode<Error = E>,
 {
    type Error = E;

    /// The fields in order, up to the first that fails.
    open spec fn wire(&self) -> Seq<u8> {
        then_wire(
            self.0.wire(),
            self.0.failure(),
            then_wire(
                self.1.wire(),
                self.1.failure(),
                then_wire(
                    self.2.wire(),
                    self.2.failure(),
                    then_wire(
                        self.3.wire(),
                        self.3.failure(),
                        then_wire(
                            self.4.wire(),
                            self.4.failure(),
                            then_wire(
                                self.5.wire(),
                                self.5.failure(),
                                then_wire(
                                    self.6.wire(),
                                    self.6.failure(),
                                    then_wire(
                                        self.7.wire(),
                                        self.7.failure(),
                                        then_wire(
                                            self.8.wire(),
                                            self.8.failure(),
                                            then_wire(
                                                self.9.wire(),
                                                self.9.failure(),
                                                self.10.wire(),
                                            ),
                                        ),
                                    ),
                                ),
                            ),
                        ),
                    ),
                ),
            ),
        )
    }

    /// The failure of the first field that fails.
    open spec fn failure(&self) -> Option<E> {
        then_failure(
            self.0.failure(),
            then_failure(
                self.1.failure(),
                then_failure(
                    self.2.failure(),
                    then_failure(
                        self.3.failure(),
                        then_failure(
                            self.4.failure(),
                            then_failure(
                                self.5.failure(),
                                then_failure(
                                    self.6.failure(),
                                    then_failure(
                                        self.7.failure(),
                                        then_failure(
                                            self.8.failure(),
                                            then_failure(
                                                self.9.failure(),
                                                self.10.failure(),
                                            ),
                                        ),
                                    ),
                                ),
                            ),
                        ),
                    ),
                ),
            ),
        )
    }

    fn encode(&self, stream: &mut OStream) -> (r: Result<(), E>) {
        let ghost s10 = self.10.wire();
        let ghost s9 = then_wire(self.9.wire(), self.9.failure(), s10);
        let ghost s8 = then_wire(self.8.wire(), self.8.failure(), s9);
        let ghost s7 = then_wire(self.7.wire(), self.7.failure(), s8);
        let ghost s6 = then_wire(self.6.wire(), self.6.failure(), s7);
        let ghost s5 = then_wire(self.5.wire(), self.5.failure(), s6);
        let ghost s4 = then_wire(self.4.wire(), self.4.failure(), s5);
        let ghost s3 = then_wire(self.3.wire(), self.3.failure(), s4);
        let ghost s2 = then_wire(self.2.wire(), self.2.failure(), s3);
        let ghost s1 = then_wire(self.1.wire(), self.1.failure(), s2);
        let ghost s0 = then_wire(self.0.wire(), self.0.failure(), s1);
        assert(self.wire() == s0);
        let ghost at0 = stream@;
        self.0.encode(stream)?;
        proof {
            lemma_join(at0, self.0.wire(), s1);
            assert(old(stream)@ + s0 == stream@ + s1);
        }
        let ghost at1 = stream@;
        self.1.encode(stream)?;
        proof {
            lemma_join(at1, self.1.wire(), s2);
            assert(old(stream)@ + s0 == stream@ + s2);
        }
        let ghost at2 = stream@;
        self.2.encode(stream)?;
        proof {
            lemma_join(at2, self.2.wire(), s3);
            assert(old(stream)@ + s0 == stream@ + s3);
        }
        let ghost at3 = stream@;
        self.3.encode(stream)?;
        proof {
            lemma_join(at3, self.3.wire(), s4);
            assert(old(stream)@ + s0 == stream@ + s4);
        }
        let ghost at4 = stream@;
        self.4.encode(stream)?;
        proof {
            lemma_join(at4, self.4.wire(), s5);
            assert(old(stream)@ + s0 == stream@ + s5);
        }
        let ghost at5 = stream@;
        self.5.encode(stream)?;
        proof {
            lemma_join(at5, self.5.wire(), s6);
            assert(old(stream)@ + s0 == stream@ + s6);
        }
        let ghost at6 = stream@;
        self.6.encode(stream)?;
        proof {
            lemma_join(at6, self.6.wire(), s7);
            assert(old(stream)@ + s0 == stream@ + s7);
        }
        let ghost at7 = stream@;
        self.7.encode(stream)?;
        proof {
            lemma_join(at7, self.7.wire(), s8);
            assert(old(stream)@ + s0 == stream@ + s8);
        }
        let ghost at8 = stream@;
        self.8.encode(stream)?;
        proof {
            lemma_join(at8, self.8.wire(), s9);
            assert(old(stream)@ + s0 == stream@ + s9);
        }
        let ghost at9 = stream@;
        self.9.encode(stream)?;
        proof {
            lemma_join(at9, self.9.wire(), s10);
            assert(old(stream)@ + s0 == stream@ + s10);
        }
        self.10.encode(stream)
    }
}

impl<T0, T1, T2, T3, T4, T5, T6, T7, T8, T9, T10, E> Decode for (T0, T1, T2, T3, T4, T5, T6, T7, T8, T9, T10) where
    T0: Decode<Error = E>,
    T1: Decode<Error = E>,
    T2: Decode<Error = E>,
    T3: Decode<Error = E>,
    T4: Decode<Error = E>,
    T5: Decode<Error = E>,
    T6: Decode<Error = E>,
    T7: Decode<Error = E>,
    T8: Decode<Error = E>,
    T9: Decode<Error = E>,
    T10: Decode<Error = E>,
 {
    type Error = E;

    type Model = (T0::Model, T1::Model, T2::Model, T3::Model, T4::Model, T5::Model, T6::Model, T7::Model, T8::Model, T9::Model, T10::Model);

    open spec fn model(&self) -> (T0::Model, T1::Model, T2::Model, T3::Model, T4::Model, T5::Model, T6::Model, T7::Model, T8::Model, T9::Model, T10::Model) {
        (self.0.model(), self.1.model(), self.2.model(), self.3.model(), self.4.model(), self.5.model(), self.6.model(), self.7.model(), self.8.model(), self.9.model(), self.10.model())
    }

    /// The fields in order, each read from where the one before it ended.
    open spec fn parse(bytes: Seq<u8>) -> Parsed<(T0::Model, T1::Model, T2::Model, T3::Model, T4::Model, T5::Model, T6::Model, T7::Model, T8::Model, T9::Model, T10::Model), E> {
        let p0 = T0::parse(bytes);
        let p1 = T1::parse(bytes.skip(p0.used as int));
        let p2 = T2::parse(bytes.skip((p0.used + p1.used) as int));
        let p3 = T3::parse(bytes.skip((p0.used + p1.used + p2.used) as int));
        let p4 = T4::parse(bytes.skip((p0.used + p1.used + p2.used + p3.used) as int));
        let p5 = T5::parse(bytes.skip((p0.used + p1.used + p2.used + p3.used + p4.used) as int));
        let p6 = T6::parse(bytes.skip((p0.used + p1.used + p2.used + p3.used + p4.used + p5.used) as int));
        let p7 = T7::parse(bytes.skip((p0.used + p1.used + p2.used + p3.used + p4.used + p5.used + p6.used) as int));
        let p8 = T8::parse(bytes.skip((p0.used + p1.used + p2.used + p3.used + p4.used + p5.used + p6.used + p7.used) as int));
        let p9 = T9::parse(bytes.skip((p0.used + p1.used + p2.used + p3.used + p4.used + p5.used + p6.used + p7.used + p8.used) as int));
        let p10 = T10::parse(bytes.skip((p0.used + p1.used + p2.used + p3.used + p4.used + p5.used + p6.used + p7.used + p8.used + p9.used) as int));
        if p0.outcome is Err {
            Parsed { outcome: Err(p0.outcome->Err_0), used: p0.used }
        } else if p1.outcome is Err {
            Parsed { outcome: Err(p1.outcome->Err_0), used: p0.used + p1.used }
        } else if p2.outcome is Err {
            Parsed { outcome: Err(p2.outcome->Err_0), used: p0.used + p1.used + p2.used }
        } else if p3.outcome is Err {
            Parsed { outcome: Err(p3.outcome->Err_0), used: p0.used + p1.used + p2.used + p3.used }
        } else if p4.outcome is Err {
            Parsed { outcome: Err(p4.outcome->Err_0), used: p0.used + p1.used + p2.used + p3.used + p4.used }
        } else if p5.outcome is Err {
            Parsed { outcome: Err(p5.outcome->Err_0), used: p0.used + p1.used + p2.used + p3.used + p4.used + p5.used }
        } else if p6.outcome is Err {
            Parsed { outcome: Err(p6.outcome->Err_0), used: p0.used + p1.used + p2.used + p3.used + p4.used + p5.used + p6.used }
        } else if p7.outcome is Err {
            Parsed { outcome: Err(p7.outcome->Err_0), used: p0.used + p1.used + p2.used + p3.used + p4.used + p5.used + p6.used + p7.used }
        } else if p8.outcome is Err {
            Parsed { outcome: Err(p8.outcome->Err_0), used: p0.used + p1.used + p2.used + p3.used + p4.used + p5.used + p6.used + p7.used + p8.used }
        } else if p9.outcome is Err {
            Parsed { outcome: Err(p9.outcome->Err_0), used: p0.used + p1.used + p2.used + p3.used + p4.used + p5.used + p6.used + p7.used + p8.used + p9.used }
        } else if p10.outcome is Err {
            Parsed { outcome: Err(p10.outcome->Err_0), used: p0.used + p1.used + p2.used + p3.used + p4.used + p5.used + p6.used + p7.used + p8.used + p9.used + p10.used }
        } else {
            Parsed {
                outcome: Ok((p0.outcome->Ok_0, p1.outcome->Ok_0, p2.outcome->Ok_0, p3.outcome->Ok_0, p4.outcome->Ok_0, p5.outcome->Ok_0, p6.outcome->Ok_0, p7.outcome->Ok_0, p8.outcome->Ok_0, p9.outcome->Ok_0, p10.outcome->Ok_0)),
                used: p0.used + p1.used + p2.used + p3.used + p4.used + p5.used + p6.used + p7.used + p8.used + p9.used + p10.used,
            }
        }
    }

    fn decode(stream: &mut DStream) -> (r: Result<Self, E>) {
        let ghost p0 = T0::parse(stream@);
        let v0 = T0::decode(stream)?;
        let ghost p1 = T1::parse(stream@);
        let v1 = T1::decode(stream)?;
        assert(stream@ =~= old(stream)@.skip((p0.used + p1.used) as int));
        let ghost p2 = T2::parse(stream@);
        let v2 = T2::decode(stream)?;
        assert(stream@ =~= old(stream)@.skip((p0.used + p1.used + p2.used) as int));
        let ghost p3 = T3::parse(stream@);
        let v3 = T3::decode(stream)?;
        assert(stream@ =~= old(stream)@.skip((p0.used + p1.used + p2.used + p3.used) as int));
        let ghost p4 = T4::parse(stream@);
        let v4 = T4::decode(stream)?;
        assert(stream@ =~= old(stream)@.skip((p0.used + p1.used + p2.used + p3.used + p4.used) as int));
        let ghost p5 = T5::parse(stream@);
        let v5 = T5::decode(stream)?;
        assert(stream@ =~= old(stream)@.skip((p0.used + p1.used + p2.used + p3.used + p4.used + p5.used) as int));
        let ghost p6 = T6::parse(stream@);
        let v6 = T6::decode(stream)?;
        assert(stream@ =~= old(stream)@.skip((p0.used + p1.used + p2.used + p3.used + p4.used + p5.used + p6.used) as int));
        let ghost p7 = T7::parse(stream@);
        let v7 = T7::decode(stream)?;
        assert(stream@ =~= old(stream)@.skip((p0.used + p1.used + p2.used + p3.used + p4.used + p5.used + p6.used + p7.used) as int));
        let ghost p8 = T8::parse(stream@);
        let v8 = T8::decode(stream)?;
        assert(stream@ =~= old(stream)@.skip((p0.used + p1.used + p2.used + p3.used + p4.used + p5.used + p6.used + p7.used + p8.used) as int));
        let ghost p9 = T9::parse(stream@);
        let v9 = T9::decode(stream)?;
        assert(stream@ =~= old(stream)@.skip((p0.used + p1.used + p2.used + p3.used + p4.used + p5.used + p6.used + p7.used + p8.used + p9.used) as int));
        let ghost p10 = T10::parse(stream@);
        let v10 = T10::decode(stream)?;
        assert(stream@ =~= old(stream)@.skip((p0.used + p1.used + p2.used + p3.used + p4.used + p5.used + p6.used + p7.used + p8.used + p9.used + p10.used) as int));
        Ok((v0, v1, v2, v3, v4, v5, v6, v7, v8, v9, v10))
    }
}

impl<T0, T1, T2, T3, T4, T5, T6, T7, T8, T9, T10, E, D> Codec for (T0, T1, T2, T3, T4, T5, T6, T7, T8, T9, T10) where
    T0: Codec + Encode<Error = E> + Decode<Error = D>,
    T1: Codec + Encode<Error = E> + Decode<Error = D>,
    T2: Codec + Encode<Error = E> + Decode<Error = D>,
    T3: Codec + Encode<Error = E> + Decode<Error = D>,
    T4: Codec + Encode<Error = E> + Decode<Error = D>,
    T5: Codec + Encode<Error = E> + Decode<Error = D>,
    T6: Codec + Encode<Error = E> + Decode<Error = D>,
    T7: Codec + Encode<Error = E> + Decode<Error = D>,
    T8: Codec + Encode<Error = E> + Decode<Error = D>,
    T9: Codec + Encode<Error = E> + Decode<Error = D>,
    T10: Codec + Encode<Error = E> + Decode<Error = D>,
 {
    proof fn lemma_round_trip(&self, rest: Seq<u8>) {
        let bytes = self.wire() + rest;
        let s10 = self.10.wire();
        let s9 = then_wire(self.9.wire(), self.9.failure(), s10);
        let s8 = then_wire(self.8.wire(), self.8.failure(), s9);
        let s7 = then_wire(self.7.wire(), self.7.failure(), s8);
        let s6 = then_wire(self.6.wire(), self.6.failure(), s7);
        let s5 = then_wire(self.5.wire(), self.5.failure(), s6);
        let s4 = then_wire(self.4.wire(), self.4.failure(), s5);
        let s3 = then_wire(self.3.wire(), self.3.failure(), s4);
        let s2 = then_wire(self.2.wire(), self.2.failure(), s3);
        let s1 = then_wire(self.1.wire(), self.1.failure(), s2);
        let s0 = then_wire(self.0.wire(), self.0.failure(), s1);
        assert(self.wire() == s0);
        assert(bytes.skip(0) =~= bytes);
        assert(self.0.failure() is None);
        lemma_join(self.0.wire(), s1, rest);
        self.0.lemma_round_trip(s1 + rest);
        lemma_skip_join(bytes, 0, self.0.wire(), s1 + rest);
        assert(self.1.failure() is None);
        lemma_join(self.1.wire(), s2, rest);
        self.1.lemma_round_trip(s2 + rest);
        lemma_skip_join(bytes, self.0.wire().len(), self.1.wire(), s2 + rest);
        assert(self.2.failure() is None);
        lemma_join(self.2.wire(), s3, rest);
        self.2.lemma_round_trip(s3 + rest);
        lemma_skip_join(bytes, (self.0.wire().len() + self.1.wire().len()) as nat, self.2.wire(), s3 + rest);
        assert(self.3.failure() is None);
        lemma_join(self.3.wire(), s4, rest);
        self.3.lemma_round_trip(s4 + rest);
        lemma_skip_join(bytes, (self.0.wire().len() + self.1.wire().len() + self.2.wire().len()) as nat, self.3.wire(), s4 + rest);
        assert(self.4.failure() is None);
        lemma_join(self.4.wire(), s5, rest);
        self.4.lemma_round_trip(s5 + rest);
        lemma_skip_join(bytes, (self.0.wire().len() + self.1.wire().len() + self.2.wire().len() + self.3.wire().len()) as nat, self.4.wire(), s5 + rest);
        assert(self.5.failure() is None);
        lemma_join(self.5.wire(), s6, rest);
        self.5.lemma_round_trip(s6 + rest);
        lemma_skip_join(bytes, (self.0.wire().len() + self.1.wire().len() + self.2.wire().len() + self.3.wire().len() + self.4.wire().len()) as nat, self.5.wire(), s6 + rest);
        assert(self.6.failure() is None);
        lemma_join(self.6.wire(), s7, rest);
        self.6.lemma_round_trip(s7 + rest);
        lemma_skip_join(bytes, (self.0.wire().len() + self.1.wire().len() + self.2.wire().len() + self.3.wire().len() + self.4.wire().len() + self.5.wire().len()) as nat, self.6.wire(), s7 + rest);
        assert(self.7.failure() is None);
        lemma_join(self.7.wire(), s8, rest);
        self.7.lemma_round_trip(s8 + rest);
        lemma_skip_join(bytes, (self.0.wire().len() + self.1.wire().len() + self.2.wire().len() + self.3.wire().len() + self.4.wire().len() + self.5.wire().len() + self.6.wire().len()) as nat, self.7.wire(), s8 + rest);
        assert(self.8.failure() is None);
        lemma_join(self.8.wire(), s9, rest);
        self.8.lemma_round_trip(s9 + rest);
        lemma_skip_join(bytes, (self.0.wire().len() + self.1.wire().len() + self.2.wire().len() + self.3.wire().len() + self.4.wire().len() + self.5.wire().len() + self.6.wire().len() + self.7.wire().len()) as nat, self.8.wire(), s9 + rest);
        assert(self.9.failure() is None);
        lemma_join(self.9.wire(), s10, rest);
        self.9.lemma_round_trip(s10 + rest);
        lemma_skip_join(bytes, (self.0.wire().len() + self.1.wire().len() + self.2.wire().len() + self.3.wire().len() + self.4.wire().len() + self.5.wire().len() + self.6.wire().len() + self.7.wire().len() + self.8.wire().len()) as nat, self.9.wire(), s10 + rest);
        assert(self.10.failure() is None);
        self.10.lemma_round_trip(rest);
    }
}

impl<T0, T1, T2, T3, T4, T5, T6, T7, T8, T9, T10, T11, E> Encode for (T0, T1, T2, T3, T4, T5, T6, T7, T8, T9, T10, T11) where
    T0: Encode<Error = E>,
    T1: Encode<Error = E>,
    T2: Encode<Error = E>,
    T3: Encode<Error = E>,
    T4: Encode<Error = E>,
    T5: Encode<Error = E>,
    T6: Encode<Error = E>,
    T7: Encode<Error = E>,
    T8: Encode<Error = E>,
    T9: Encode<Error = E>,
    T10: Encode<Error = E>,
    T11: Encode<Error = E>,
 {
    type Error = E;

    /// The fields in order, up to the first that fails.
    open spec fn wire(&self) -> Seq<u8> {
        then_wire(
            self.0.wire(),
            self.0.failure(),
            then_wire(
                self.1.wire(),
                self.1.failure(),
                then_wire(
                    self.2.wire(),
                    self.2.failure(),
                    then_wire(
                        self.3.wire(),
                        self.3.failure(),
                        then_wire(
                            self.4.wire(),
                            self.4.failure(),
                            then_wire(
                                self.5.wire(),
                                self.5.failure(),
                                then_wire(
                                    self.6.wire(),
                                    self.6.failure(),
                                    then_wire(
                                        self.7.wire(),
                                        self.7.failure(),
                                        then_wire(
                                            self.8.wire(),
                                            self.8.failure(),
                                            then_wire(
                                                self.9.wire(),
                                                self.9.failure(),
                                                then_wire(
                                                    self.10.wire(),
                                                    self.10.failure(),
                                                    self.11.wire(),
                                                ),
                                            ),
                                        ),
                                    ),
                                ),
                            ),
                        ),
                    ),
                ),
            ),
        )
    }

    /// The failure of the first field that fails.
    open spec fn failure(&self) -> Option<E> {
        then_failure(
            self.0.failure(),
            then_failure(
                self.1.failure(),
                then_failure(
                    self.2.failure(),
                    then_failure(
                        self.3.failure(),
                        then_failure(
                            self.4.failure(),
                            then_failure(
                                self.5.failure(),
                                then_failure(
                                    self.6.failure(),
                                    then_failure(
                                        self.7.failure(),
                                        then_failure(
                                            self.8.failure(),
                                            then_failure(
                                                self.9.failure(),
                                                then_failure(
                                                    self.10.failure(),
                                                    self.11.failure(),
                                                ),
                                            ),
                                        ),
                                    ),
                                ),
                            ),
                        ),
                    ),
                ),
            ),
        )
    }

    fn encode(&self, stream: &mut OStream) -> (r: Result<(), E>) {
        let ghost s11 = self.11.wire();
        let ghost s10 = then_wire(self.10.wire(), self.10.failure(), s11);
        let ghost s9 = then_wire(self.9.wire(), self.9.failure(), s10);
        let ghost s8 = then_wire(self.8.wire(), self.8.failure(), s9);
        let ghost s7 = then_wire(self.7.wire(), self.7.failure(), s8);
        let ghost s6 = then_wire(self.6.wire(), self.6.failure(), s7);
        let ghost s5 = then_wire(self.5.wire(), self.5.failure(), s6);
        let ghost s4 = then_wire(self.4.wire(), self.4.failure(), s5);
        let ghost s3 = then_wire(self.3.wire(), self.3.failure(), s4);
        let ghost s2 = then_wire(self.2.wire(), self.2.failure(), s3);
        let ghost s1 = then_wire(self.1.wire(), self.1.failure(), s2);
        let ghost s0 = then_wire(self.0.wire(), self.0.failure(), s1);
        assert(self.wire() == s0);
        let ghost at0 = stream@;
        self.0.encode(stream)?;
        proof {
            lemma_join(at0, self.0.wire(), s1);
            assert(old(stream)@ + s0 == stream@ + s1);
        }
        let ghost at1 = stream@;
        self.1.encode(stream)?;
        proof {
            lemma_join(at1, self.1.wire(), s2);
            assert(old(stream)@ + s0 == stream@ + s2);
        }
        let ghost at2 = stream@;
        self.2.encode(stream)?;
        proof {
            lemma_join(at2, self.2.wire(), s3);
            assert(old(stream)@ + s0 == stream@ + s3);
        }
        let ghost at3 = stream@;
        self.3.encode(stream)?;
        proof {
            lemma_join(at3, self.3.wire(), s4);
            assert(old(stream)@ + s0 == stream@ + s4);
        }
        let ghost at4 = stream@;
        self.4.encode(stream)?;
        proof {
            lemma_join(at4, self.4.wire(), s5);
            assert(old(stream)@ + s0 == stream@ + s5);
        }
        let ghost at5 = stream@;
        self.5.encode(stream)?;
        proof {
            lemma_join(at5, self.5.wire(), s6);
            assert(old(stream)@ + s0 == stream@ + s6);
        }
        let ghost at6 = stream@;
        self.6.encode(stream)?;
        proof {
            lemma_join(at6, self.6.wire(), s7);
            assert(old(stream)@ + s0 == stream@ + s7);
        }
        let ghost at7 = stream@;
        self.7.encode(stream)?;
        proof {
            lemma_join(at7, self.7.wire(), s8);
            assert(old(stream)@ + s0 == stream@ + s8);
        }
        let ghost at8 = stream@;
        self.8.encode(stream)?;
        proof {
            lemma_join(at8, self.8.wire(), s9);
            assert(old(stream)@ + s0 == stream@ + s9);
        }
        let ghost at9 = stream@;
        self.9.encode(stream)?;
        proof {
            lemma_join(at9, self.9.wire(), s10);
            assert(old(stream)@ + s0 == stream@ + s10);
        }
        let ghost at10 = stream@;
        self.10.encode(stream)?;
        proof {
            lemma_join(at10, self.10.wire(), s11);
            assert(old(stream)@ + s0 == stream@ + s11);
        }
        self.11.encode(stream)
    }
}

impl<T0, T1, T2, T3, T4, T5, T6, T7, T8, T9, T10, T11, E> Decode for (T0, T1, T2, T3, T4, T5, T6, T7, T8, T9, T10, T11) where
    T0: Decode<Error = E>,
    T1: Decode<Error = E>,
    T2: Decode<Error = E>,
    T3: Decode<Error = E>,
    T4: Decode<Error = E>,
    T5: Decode<Error = E>,
    T6: Decode<Error = E>,
    T7: Decode<Error = E>,
    T8: Decode<Error = E>,
    T9: Decode<Error = E>,
    T10: Decode<Error = E>,
    T11: Decode<Error = E>,
 {
    type Error = E;

    type Model = (T0::Model, T1::Model, T2::Model, T3::Model, T4::Model, T5::Model, T6::Model, T7::Model, T8::Model, T9::Model, T10::Model, T11::Model);

    open spec fn model(&self) -> (T0::Model, T1::Model, T2::Model, T3::Model, T4::Model, T5::Model, T6::Model, T7::Model, T8::Model, T9::Model, T10::Model, T11::Model) {
        (self.0.model(), self.1.model(), self.2.model(), self.3.model(), self.4.model(), self.5.model(), self.6.model(), self.7.model(), self.8.model(), self.9.model(), self.10.model(), self.11.model())
    }

    /// The fields in order, each read from where the one before it ended.
    open spec fn parse(bytes: Seq<u8>) -> Parsed<(T0::Model, T1::Model, T2::Model, T3::Model, T4::Model, T5::Model, T6::Model, T7::Model, T8::Model, T9::Model, T10::Model, T11::Model), E> {
        let p0 = T0::parse(bytes);
        let p1 = T1::parse(bytes.skip(p0.used as int));
        let p2 = T2::parse(bytes.skip((p0.used + p1.used) as int));
        let p3 = T3::parse(bytes.skip((p0.used + p1.used + p2.used) as int));
        let p4 = T4::parse(bytes.skip((p0.used + p1.used + p2.used + p3.used) as int));
        let p5 = T5::parse(bytes.skip((p0.used + p1.used + p2.used + p3.used + p4.used) as int));
        let p6 = T6::parse(bytes.skip((p0.used + p1.used + p2.used + p3.used + p4.used + p5.used) as int));
        let p7 = T7::parse(bytes.skip((p0.used + p1.used + p2.used + p3.used + p4.used + p5.used + p6.used) as int));
        let p8 = T8::parse(bytes.skip((p0.used + p1.used + p2.used + p3.used + p4.used + p5.used + p6.used + p7.used) as int));
        let p9 = T9::parse(bytes.skip((p0.used + p1.used + p2.used + p3.used + p4.used + p5.used + p6.used + p7.used + p8.used) as int));
        let p10 = T10::parse(bytes.skip((p0.used + p1.used + p2.used + p3.used + p4.used + p5.used + p6.used + p7.used + p8.used + p9.used) as int));
        let p11 = T11::parse(bytes.skip((p0.used + p1.used + p2.used + p3.used + p4.used + p5.used + p6.used + p7.used + p8.used + p9.used + p10.used) as int));
        if p0.outcome is Err {
            Parsed { outcome: Err(p0.outcome->Err_0), used: p0.used }
        } else if p1.outcome is Err {
            Parsed { outcome: Err(p1.outcome->Err_0), used: p0.used + p1.used }
        } else if p2.outcome is Err {
            Parsed { outcome: Err(p2.outcome->Err_0), used: p0.used + p1.used + p2.used }
        } else if p3.outcome is Err {
            Parsed { outcome: Err(p3.outcome->Err_0), used: p0.used + p1.used + p2.used + p3.used }
        } else if p4.outcome is Err {
            Parsed { outcome: Err(p4.outcome->Err_0), used: p0.used + p1.used + p2.used + p3.used + p4.used }
        } else if p5.outcome is Err {
            Parsed { outcome: Err(p5.outcome->Err_0), used: p0.used + p1.used + p2.used + p3.used + p4.used + p5.used }
        } else if p6.outcome is Err {
            Parsed { outcome: Err(p6.outcome->Err_0), used: p0.used + p1.used + p2.used + p3.used + p4.used + p5.used + p6.used }
        } else if p7.outcome is Err {
            Parsed { outcome: Err(p7.outcome->Err_0), used: p0.used + p1.used + p2.used + p3.used + p4.used + p5.used + p6.used + p7.used }
        } else if p8.outcome is Err {
            Parsed { outcome: Err(p8.outcome->Err_0), used: p0.used + p1.used + p2.used + p3.used + p4.used + p5.used + p6.used + p7.used + p8.used }
        } else if p9.outcome is Err {
            Parsed { outcome: Err(p9.outcome->Err_0), used: p0.used + p1.used + p2.used + p3.used + p4.used + p5.used + p6.used + p7.used + p8.used + p9.used }
        } else if p10.outcome is Err {
            Parsed { outcome: Err(p10.outcome->Err_0), used: p0.used + p1.used + p2.used + p3.used + p4.used + p5.used + p6.used + p7.used + p8.used + p9.used + p10.used }
        } else if p11.outcome is Err {
            Parsed { outcome: Err(p11.outcome->Err_0), used: p0.used + p1.used + p2.used + p3.used + p4.used + p5.used + p6.used + p7.used + p8.used + p9.used + p10.used + p11.used }
        } else {
            Parsed {
                outcome: Ok((p0.outcome->Ok_0, p1.outcome->Ok_0, p2.outcome->Ok_0, p3.outcome->Ok_0, p4.outcome->Ok_0, p5.outcome->Ok_0, p6.outcome->Ok_0, p7.outcome->Ok_0, p8.outcome->Ok_0, p9.outcome->Ok_0, p10.outcome->Ok_0, p11.outcome->Ok_0)),
                used: p0.used + p1.used + p2.used + p3.used + p4.used + p5.used + p6.used + p7.used + p8.used + p9.used + p10.used + p11.used,
            }
        }
    }

    fn decode(stream: &mut DStream) -> (r: Result<Self, E>) {
        let ghost p0 = T0::parse(stream@);
        let v0 = T0::decode(stream)?;
        let ghost p1 = T1::parse(stream@);
        let v1 = T1::decode(stream)?;
        assert(stream@ =~= old(stream)@.skip((p0.used + p1.used) as int));
        let ghost p2 = T2::parse(stream@);
        let v2 = T2::decode(stream)?;
        assert(stream@ =~= old(stream)@.skip((p0.used + p1.used + p2.used) as int));
        let ghost p3 = T3::parse(stream@);
        let v3 = T3::decode(stream)?;
        assert(stream@ =~= old(stream)@.skip((p0.used + p1.used + p2.used + p3.used) as int));
        let ghost p4 = T4::parse(stream@);
        let v4 = T4::decode(stream)?;
        assert(stream@ =~= old(stream)@.skip((p0.used + p1.used + p2.used + p3.used + p4.used) as int));
        let ghost p5 = T5::parse(stream@);
        let v5 = T5::decode(stream)?;
        assert(stream@ =~= old(stream)@.skip((p0.used + p1.used + p2.used + p3.used + p4.used + p5.used) as int));
        let ghost p6 = T6::parse(stream@);
        let v6 = T6::decode(stream)?;
        assert(stream@ =~= old(stream)@.skip((p0.used + p1.used + p2.used + p3.used + p4.used + p5.used + p6.used) as int));
        let ghost p7 = T7::parse(stream@);
        let v7 = T7::decode(stream)?;
        assert(stream@ =~= old(stream)@.skip((p0.used + p1.used + p2.used + p3.used + p4.used + p5.used + p6.used + p7.used) as int));
        let ghost p8 = T8::parse(stream@);
        let v8 = T8::decode(stream)?;
        assert(stream@ =~= old(stream)@.skip((p0.used + p1.used + p2.used + p3.used + p4.used + p5.used + p6.used + p7.used + p8.used) as int));
        let ghost p9 = T9::parse(stream@);
        let v9 = T9::decode(stream)?;
        assert(stream@ =~= old(stream)@.skip((p0.used + p1.used + p2.used + p3.used + p4.used + p5.used + p6.used + p7.used + p8.used + p9.used) as int));
        let ghost p10 = T10::parse(stream@);
        let v10 = T10::decode(stream)?;
        assert(stream@ =~= old(stream)@.skip((p0.used + p1.used + p2.used + p3.used + p4.used + p5.used + p6.used + p7.used + p8.used + p9.used + p10.used) as int));
        let ghost p11 = T11::parse(stream@);
        let v11 = T11::decode(stream)?;
        assert(stream@ =~= old(stream)@.skip((p0.used + p1.used + p2.used + p3.used + p4.used + p5.used + p6.used + p7.used + p8.used + p9.used + p10.used + p11.used) as int));
        Ok((v0, v1, v2, v3, v4, v5, v6, v7, v8, v9, v10, v11))
    }
}

impl<T0, T1, T2, T3, T4, T5, T6, T7, T8, T9, T10, T11, E, D> Codec for (T0, T1, T2, T3, T4, T5, T6, T7, T8, T9, T10, T11) where
    T0: Codec + Encode<Error = E> + Decode<Error = D>,
    T1: Codec + Encode<Error = E> + Decode<Error = D>,
    T2: Codec + Encode<Error = E> + Decode<Error = D>,
    T3: Codec + Encode<Error = E> + Decode<Error = D>,
    T4: Codec + Encode<Error = E> + Decode<Error = D>,
    T5: Codec + Encode<Error = E> + Decode<Error = D>,
    T6: Codec + Encode<Error = E> + Decode<Error = D>,
    T7: Codec + Encode<Error = E> + Decode<Error = D>,
    T8: Codec + Encode<Error = E> + Decode<Error = D>,
    T9: Codec + Encode<Error = E> + Decode<Error = D>,
    T10: Codec + Encode<Error = E> + Decode<Error = D>,
    T11: Codec + Encode<Error = E> + Decode<Error = D>,
 {
    proof fn lemma_round_trip(&self, rest: Seq<u8>) {
        let bytes = self.wire() + rest;
        let s11 = self.11.wire();
        let s10 = then_wire(self.10.wire(), self.10.failure(), s11);
        let s9 = then_wire(self.9.wire(), self.9.failure(), s10);
        let s8 = then_wire(self.8.wire(), self.8.failure(), s9);
        let s7 = then_wire(self.7.wire(), self.7.failure(), s8);
        let s6 = then_wire(self.6.wire(), self.6.failure(), s7);
        let s5 = then_wire(self.5.wire(), self.5.failure(), s6);
        let s4 = then_wire(self.4.wire(), self.4.failure(), s5);
        let s3 = then_wire(self.3.wire(), self.3.failure(), s4);
        let s2 = then_wire(self.2.wire(), self.2.failure(), s3);
        let s1 = then_wire(self.1.wire(), self.1.failure(), s2);
        let s0 = then_wire(self.0.wire(), self.0.failure(), s1);
        assert(self.wire() == s0);
        assert(bytes.skip(0) =~= bytes);
        assert(self.0.failure() is None);
        lemma_join(self.0.wire(), s1, rest);
        self.0.lemma_round_trip(s1 + rest);
        lemma_skip_join(bytes, 0, self.0.wire(), s1 + rest);
        assert(self.1.failure() is None);
        lemma_join(self.1.wire(), s2, rest);
        self.1.lemma_round_trip(s2 + rest);
        lemma_skip_join(bytes, self.0.wire().len(), self.1.wire(), s2 + rest);
        assert(self.2.failure() is None);
        lemma_join(self.2.wire(), s3, rest);
        self.2.lemma_round_trip(s3 + rest);
        lemma_skip_join(bytes, (self.0.wire().len() + self.1.wire().len()) as nat, self.2.wire(), s3 + rest);
        assert(self.3.failure() is None);
        lemma_join(self.3.wire(), s4, rest);
        self.3.lemma_round_trip(s4 + rest);
        lemma_skip_join(bytes, (self.0.wire().len() + self.1.wire().len() + self.2.wire().len()) as nat, self.3.wire(), s4 + rest);
        assert(self.4.failure() is None);
        lemma_join(self.4.wire(), s5, rest);
        self.4.lemma_round_trip(s5 + rest);
        lemma_skip_join(bytes, (self.0.wire().len() + self.1.wire().len() + self.2.wire().len() + self.3.wire().len()) as nat, self.4.wire(), s5 + rest);
        assert(self.5.failure() is None);
        lemma_join(self.5.wire(), s6, rest);
        self.5.lemma_round_trip(s6 + rest);
        lemma_skip_join(bytes, (self.0.wire().len() + self.1.wire().len() + self.2.wire().len() + self.3.wire().len() + self.4.wire().len()) as nat, self.5.wire(), s6 + rest);
        assert(self.6.failure() is None);
        lemma_join(self.6.wire(), s7, rest);
        self.6.lemma_round_trip(s7 + rest);
        lemma_skip_join(bytes, (self.0.wire().len() + self.1.wire().len() + self.2.wire().len() + self.3.wire().len() + self.4.wire().len() + self.5.wire().len()) as nat, self.6.wire(), s7 + rest);
        assert(self.7.failure() is None);
        lemma_join(self.7.wire(), s8, rest);
        self.7.lemma_round_trip(s8 + rest);
        lemma_skip_join(bytes, (self.0.wire().len() + self.1.wire().len() + self.2.wire().len() + self.3.wire().len() + self.4.wire().len() + self.5.wire().len() + self.6.wire().len()) as nat, self.7.wire(), s8 + rest);
        assert(self.8.failure() is None);
        lemma_join(self.8.wire(), s9, rest);
        self.8.lemma_round_trip(s9 + rest);
        lemma_skip_join(bytes, (self.0.wire().len() + self.1.wire().len() + self.2.wire().len() + self.3.wire().len() + self.4.wire().len() + self.5.wire().len() + self.6.wire().len() + self.7.wire().len()) as nat, self.8.wire(), s9 + rest);
        assert(self.9.failure() is None);
        lemma_join(self.9.wire(), s10, rest);
        self.9.lemma_round_trip(s10 + rest);
        lemma_skip_join(bytes, (self.0.wire().len() + self.1.wire().len() + self.2.wire().len() + self.3.wire().len() + self.4.wire().len() + self.5.wire().len() + self.6.wire().len() + self.7.wire().len() + self.8.wire().len()) as nat, self.9.wire(), s10 + rest);
        assert(self.10.failure() is None);
        lemma_join(self.10.wire(), s11, rest);
        self.10.lemma_round_trip(s11 + rest);
        lemma_skip_join(bytes, (self.0.wire().len() + self.1.wire().len() + self.2.wire().len() + self.3.wire().len() + self.4.wire().len() + self.5.wire().len() + self.6.wire().len() + self.7.wire().len() + self.8.wire().len() + self.9.wire().len()) as nat, self.10.wire(), s11 + rest);
        assert(self.11.failure() is None);
        self.11.lemma_round_trip(rest);
    }
}

} // verus!
