//! Spans of time and points in time.

use crate::codec::Codec;
use crate::d_stream::DStream;
use crate::decode::{Decode, Parsed};
use crate::encode::Encode;
use crate::error::Error;
use crate::o_stream::OStream;
use core::convert::Infallible;
use vstd::prelude::*;

verus! {

/// A span of time: whole seconds, and the nanoseconds beyond them.
#[derive(Clone, Copy, Debug, PartialEq, Eq, Structural)]
pub struct Duration {
    pub secs: u64,
    pub nanos: u32,
}

impl Encode for Duration {
    type Error = Infallible;

    /// The seconds on eight bytes, then the nanoseconds on four.
    open spec fn wire(&self) -> Seq<u8> {
        (self.secs, self.nanos).wire()
    }

    open spec fn failure(&self) -> Option<Infallible> {
        None
    }

    fn encode(&self, stream: &mut OStream) -> (r: Result<(), Infallible>) {
        (self.secs, self.nanos).encode(stream)
    }
}

impl Decode for Duration {
    type Error = Error;

    type Model = Duration;

    open spec fn model(&self) -> Duration {
        *self
    }

    open spec fn parse(bytes: Seq<u8>) -> Parsed<Duration, Error> {
        <(u64, u32)>::parse(bytes).map(
            |parts: (u64, u32)| Duration { secs: parts.0, nanos: parts.1 },
        )
    }

    fn decode(stream: &mut DStream) -> (r: Result<Self, Error>) {
        let (secs, nanos) = <(u64, u32)>::decode(stream)?;
        Ok(Duration { secs, nanos })
    }
}

impl Codec for Duration {
    proof fn lemma_round_trip(&self, rest: Seq<u8>) {
        (self.secs, self.nanos).lemma_round_trip(rest);
    }
}

/// A point in time, told by the span between it and the epoch, the first
/// instant of 1970 in universal time.
///
/// Only points whose distance from the epoch, in whole seconds, fits a signed
/// number of sixty-four bits can be made: those are the points that can be
/// written.
#[derive(Clone, Copy, Debug, PartialEq, Eq)]
pub struct SystemTime {
    before: bool,
    span: Duration,
}

impl SystemTime {
    #[verifier::type_invariant]
    spec fn inv(self) -> bool {
        if self.before {
            self.span.secs <= 0x8000_0000_0000_0000
        } else {
            self.span.secs < 0x8000_0000_0000_0000
        }
    }

    /// Whether the point lies before the epoch.
    pub closed spec fn is_before(&self) -> bool {
        self.before
    }

    /// The span between the point and the epoch.
    pub closed spec fn distance(&self) -> Duration {
        self.span
    }

    /// The whole seconds from the epoch to the point, negative before the
    /// epoch. Parts of a second are dropped.
    pub open spec fn seconds(&self) -> int {
        if self.is_before() {
            -(self.distance().secs as int)
        } else {
            self.distance().secs as int
        }
    }

    /// The point that lies `span` before the epoch, or after it, if it can be
    /// written.
    pub fn new(before: bool, span: Duration) -> (point: Option<Self>)
        ensures
            match point {
                Some(point) => point.is_before() == before && point.distance() == span,
                None => span.secs > 0x8000_0000_0000_0000 || (!before && span.secs
                    == 0x8000_0000_0000_0000),
            },
            point is Some <==> (if before {
                -0x8000_0000_0000_0000 <= -(span.secs as int)
            } else {
                span.secs as int <= 0x7fff_ffff_ffff_ffff
            }),
    {
        if span.secs > 0x8000_0000_0000_0000 || (!before && span.secs == 0x8000_0000_0000_0000) {
            None
        } else {
            Some(SystemTime { before, span })
        }
    }

    /// The point that lies `seconds` whole seconds from the epoch.
    pub fn from_seconds(seconds: i64) -> (point: Self)
        ensures
            point.seconds() == seconds,
            point.is_before() == (seconds < 0),
            point.distance().nanos == 0,
    {
        if seconds < 0 {
            let below: u64 = (-(seconds + 1)) as u64;
            SystemTime { before: true, span: Duration { secs: below + 1, nanos: 0 } }
        } else {
            SystemTime { before: false, span: Duration { secs: seconds as u64, nanos: 0 } }
        }
    }

    /// The whole seconds from the epoch to the point, negative before the
    /// epoch.
    pub fn to_seconds(&self) -> (seconds: i64)
        ensures
            seconds == self.seconds(),
    {
        proof {
            use_type_invariant(self);
        }
        if self.before {
            if self.span.secs == 0 {
                0
            } else {
                let below: u64 = self.span.secs - 1;
                -(below as i64) - 1
            }
        } else {
            self.span.secs as i64
        }
    }

    /// Whether the point lies before the epoch.
    pub fn before_epoch(&self) -> (before: bool)
        ensures
            before == self.is_before(),
    {
        self.before
    }

    /// The span between the point and the epoch.
    pub fn span(&self) -> (span: Duration)
        ensures
            span == self.distance(),
    {
        self.span
    }
}

impl Encode for SystemTime {
    type Error = Infallible;

    /// The whole seconds from the epoch, signed, on eight bytes. Parts of a
    /// second are not written.
    open spec fn wire(&self) -> Seq<u8> {
        (self.seconds() as i64).wire()
    }

    open spec fn failure(&self) -> Option<Infallible> {
        None
    }

    fn encode(&self, stream: &mut OStream) -> (r: Result<(), Infallible>) {
        self.to_seconds().encode(stream)
    }
}

impl Decode for SystemTime {
    type Error = Error;

    /// A point read is told by its whole seconds from the epoch.
    type Model = i64;

    open spec fn model(&self) -> i64 {
        self.seconds() as i64
    }

    open spec fn parse(bytes: Seq<u8>) -> Parsed<i64, Error> {
        i64::parse(bytes)
    }

    fn decode(stream: &mut DStream) -> (r: Result<Self, Error>) {
        let seconds = i64::decode(stream)?;
        Ok(SystemTime::from_seconds(seconds))
    }
}

impl Codec for SystemTime {
    /// Reading a point gives back its whole seconds: what lies beyond them was
    /// never written.
    proof fn lemma_round_trip(&self, rest: Seq<u8>) {
        (self.seconds() as i64).lemma_round_trip(rest);
    }
}

} // verus!
