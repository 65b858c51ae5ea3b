//! Internet addresses, as the numbers they are made of.

use crate::bytes::lemma_be_bytes_len;
use crate::codec::Codec;
use crate::d_stream::DStream;
use crate::decode::{Decode, Parsed};
use crate::encode::Encode;
use crate::enumeration::{decode_variant, parse_variant, variant_of};
use crate::error::{EnumDecodeError, EnumEncodeError, Error};
use crate::o_stream::OStream;
use core::convert::Infallible;
use vstd::prelude::*;

verus! {

/// An IPv4 address: its thirty-two bits, the first octet in the high bits.
#[derive(Clone, Copy, Debug, PartialEq, Eq, Structural)]
pub struct Ipv4Addr {
    pub bits: u32,
}

/// An IPv6 address: its hundred and twenty-eight bits, the first segment in
/// the high bits.
#[derive(Clone, Copy, Debug, PartialEq, Eq, Structural)]
pub struct Ipv6Addr {
    pub bits: u128,
}

/// An address of either version.
#[derive(Clone, Copy, Debug, PartialEq, Eq, Structural)]
pub enum IpAddr {
    V4(Ipv4Addr),
    V6(Ipv6Addr),
}

/// An IPv4 address with a port.
#[derive(Clone, Copy, Debug, PartialEq, Eq, Structural)]
pub struct SocketAddrV4 {
    pub ip: Ipv4Addr,
    pub port: u16,
}

/// An IPv6 address with a port, a flow label and a scope.
#[derive(Clone, Copy, Debug, PartialEq, Eq, Structural)]
pub struct SocketAddrV6 {
    pub ip: Ipv6Addr,
    pub port: u16,
    pub flowinfo: u32,
    pub scope_id: u32,
}

/// A socket address of either version.
#[derive(Clone, Copy, Debug, PartialEq, Eq, Structural)]
pub enum SocketAddr {
    V4(SocketAddrV4),
    V6(SocketAddrV6),
}

/// The discriminants of the two versions: the version numbers themselves.
pub open spec fn version_discriminants() -> Seq<u8> {
    seq![4u8, 6u8]
}

/// Each version is found by its number, and no other number finds one.
pub proof fn lemma_versions(value: u8)
    ensures
        variant_of(version_discriminants(), value) == (if value == 4 {
            Some(0nat)
        } else if value == 6 {
            Some(1nat)
        } else {
            None
        }),
{
    reveal_with_fuel(variant_of, 3);
    assert(version_discriminants().drop_last() =~= seq![4u8]);
}

impl Encode for Ipv4Addr {
    type Error = Infallible;

    /// The bits, on four bytes.
    open spec fn wire(&self) -> Seq<u8> {
        self.bits.wire()
    }

    open spec fn failure(&self) -> Option<Infallible> {
        None
    }

    fn encode(&self, stream: &mut OStream) -> (r: Result<(), Infallible>) {
        self.bits.encode(stream)
    }
}

impl Decode for Ipv4Addr {
    type Error = Error;

    type Model = Ipv4Addr;

    open spec fn model(&self) -> Ipv4Addr {
        *self
    }

    open spec fn parse(bytes: Seq<u8>) -> Parsed<Ipv4Addr, Error> {
        u32::parse(bytes).map(|bits: u32| Ipv4Addr { bits })
    }

    fn decode(stream: &mut DStream) -> (r: Result<Self, Error>) {
        let bits = u32::decode(stream)?;
        Ok(Ipv4Addr { bits })
    }
}

impl Codec for Ipv4Addr {
    proof fn lemma_round_trip(&self, rest: Seq<u8>) {
        self.bits.lemma_round_trip(rest);
    }
}

impl Encode for Ipv6Addr {
    type Error = Infallible;

    /// The bits, on sixteen bytes.
    open spec fn wire(&self) -> Seq<u8> {
        self.bits.wire()
    }

    open spec fn failure(&self) -> Option<Infallible> {
        None
    }

    fn encode(&self, stream: &mut OStream) -> (r: Result<(), Infallible>) {
        self.bits.encode(stream)
    }
}

impl Decode for Ipv6Addr {
    type Error = Error;

    type Model = Ipv6Addr;

    open spec fn model(&self) -> Ipv6Addr {
        *self
    }

    open spec fn parse(bytes: Seq<u8>) -> Parsed<Ipv6Addr, Error> {
        u128::parse(bytes).map(|bits: u128| Ipv6Addr { bits })
    }

    fn decode(stream: &mut DStream) -> (r: Result<Self, Error>) {
        let bits = u128::decode(stream)?;
        Ok(Ipv6Addr { bits })
    }
}

impl Codec for Ipv6Addr {
    proof fn lemma_round_trip(&self, rest: Seq<u8>) {
        self.bits.lemma_round_trip(rest);
    }
}

impl Encode for IpAddr {
    type Error = EnumEncodeError<u8, Infallible>;

    /// The version, four or six, on one byte, then the address.
    open spec fn wire(&self) -> Seq<u8> {
        match self {
            IpAddr::V4(addr) => 4u8.wire() + addr.wire(),
            IpAddr::V6(addr) => 6u8.wire() + addr.wire(),
        }
    }

    open spec fn failure(&self) -> Option<Self::Error> {
        None
    }

    fn encode(&self, stream: &mut OStream) -> (r: Result<(), Self::Error>) {
        proof {
            lemma_be_bytes_len(4, 1);
            lemma_be_bytes_len(6, 1);
        }
        match self {
            IpAddr::V4(addr) => {
                let _ = 4u8.encode(stream);
                let _ = addr.encode(stream);
            },
            IpAddr::V6(addr) => {
                let _ = 6u8.encode(stream);
                let _ = addr.encode(stream);
            },
        }
        Ok(())
    }
}

impl Decode for IpAddr {
    type Error = EnumDecodeError<u8, Error>;

    type Model = IpAddr;

    open spec fn model(&self) -> IpAddr {
        *self
    }

    /// The version from its discriminant, then the address of that version.
    open spec fn parse(bytes: Seq<u8>) -> Parsed<IpAddr, Self::Error> {
        let version = parse_variant::<u8, Error>(version_discriminants(), bytes);
        match version.outcome {
            Err(e) => Parsed { outcome: Err(e), used: version.used },
            Ok(place) => if place == 0 {
                let addr = Ipv4Addr::parse(bytes.skip(version.used as int));
                Parsed {
                    outcome: match addr.outcome {
                        Err(e) => Err(EnumDecodeError::Field(e)),
                        Ok(addr) => Ok(IpAddr::V4(addr)),
                    },
                    used: version.used + addr.used,
                }
            } else {
                let addr = Ipv6Addr::parse(bytes.skip(version.used as int));
                Parsed {
                    outcome: match addr.outcome {
                        Err(e) => Err(EnumDecodeError::Field(e)),
                        Ok(addr) => Ok(IpAddr::V6(addr)),
                    },
                    used: version.used + addr.used,
                }
            },
        }
    }

    fn decode(stream: &mut DStream) -> (r: Result<Self, Self::Error>) {
        let table: [u8; 2] = [4, 6];
        assert(table@ =~= version_discriminants());
        let version = decode_variant::<u8, Error>(table.as_slice(), stream);
        let ghost head = parse_variant::<u8, Error>(version_discriminants(), old(stream)@);
        match version {
            Err(e) => Err(e),
            Ok(place) => {
                if place == 0 {
                    let ghost body = Ipv4Addr::parse(stream@);
                    let addr = Ipv4Addr::decode(stream);
                    assert(stream@ =~= old(stream)@.skip((head.used + body.used) as int));
                    match addr {
                        Err(e) => Err(EnumDecodeError::Field(e)),
                        Ok(addr) => Ok(IpAddr::V4(addr)),
                    }
                } else {
                    let ghost body = Ipv6Addr::parse(stream@);
                    let addr = Ipv6Addr::decode(stream);
                    assert(stream@ =~= old(stream)@.skip((head.used + body.used) as int));
                    match addr {
                        Err(e) => Err(EnumDecodeError::Field(e)),
                        Ok(addr) => Ok(IpAddr::V6(addr)),
                    }
                }
            },
        }
    }
}

impl Codec for IpAddr {
    proof fn lemma_round_trip(&self, rest: Seq<u8>) {
        let bytes = self.wire() + rest;
        match self {
            IpAddr::V4(addr) => {
                assert(bytes =~= 4u8.wire() + (addr.wire() + rest));
                4u8.lemma_round_trip(addr.wire() + rest);
                lemma_versions(4);
                assert(bytes.skip(4u8.wire().len() as int) =~= addr.wire() + rest);
                addr.lemma_round_trip(rest);
            },
            IpAddr::V6(addr) => {
                assert(bytes =~= 6u8.wire() + (addr.wire() + rest));
                6u8.lemma_round_trip(addr.wire() + rest);
                lemma_versions(6);
                assert(bytes.skip(6u8.wire().len() as int) =~= addr.wire() + rest);
                addr.lemma_round_trip(rest);
            },
        }
    }
}

impl Encode for SocketAddrV4 {
    type Error = Infallible;

    /// The address, then the port.
    open spec fn wire(&self) -> Seq<u8> {
        (self.ip, self.port).wire()
    }

    open spec fn failure(&self) -> Option<Infallible> {
        None
    }

    fn encode(&self, stream: &mut OStream) -> (r: Result<(), Infallible>) {
        (self.ip, self.port).encode(stream)
    }
}

impl Encode for SocketAddrV6 {
    type Error = Infallible;

    /// The address, then the port, the flow label and the scope.
    open spec fn wire(&self) -> Seq<u8> {
        (self.ip, self.port, self.flowinfo, self.scope_id).wire()
    }

    open spec fn failure(&self) -> Option<Infallible> {
        None
    }

    fn encode(&self, stream: &mut OStream) -> (r: Result<(), Infallible>) {
        (self.ip, self.port, self.flowinfo, self.scope_id).encode(stream)
    }
}

impl Decode for SocketAddrV4 {
    type Error = Error;

    type Model = SocketAddrV4;

    open spec fn model(&self) -> SocketAddrV4 {
        *self
    }

    open spec fn parse(bytes: Seq<u8>) -> Parsed<SocketAddrV4, Error> {
        <(Ipv4Addr, u16)>::parse(bytes).map(
            |parts: (Ipv4Addr, u16)| SocketAddrV4 { ip: parts.0, port: parts.1 },
        )
    }

    fn decode(stream: &mut DStream) -> (r: Result<Self, Error>) {
        let (ip, port) = <(Ipv4Addr, u16)>::decode(stream)?;
        Ok(SocketAddrV4 { ip, port })
    }
}

impl Decode for SocketAddrV6 {
    type Error = Error;

    type Model = SocketAddrV6;

    open spec fn model(&self) -> SocketAddrV6 {
        *self
    }

    open spec fn parse(bytes: Seq<u8>) -> Parsed<SocketAddrV6, Error> {
        <(Ipv6Addr, u16, u32, u32)>::parse(bytes).map(
            |parts: (Ipv6Addr, u16, u32, u32)|
                SocketAddrV6 { ip: parts.0, port: parts.1, flowinfo: parts.2, scope_id: parts.3 },
        )
    }

    fn decode(stream: &mut DStream) -> (r: Result<Self, Error>) {
        let (ip, port, flowinfo, scope_id) = <(Ipv6Addr, u16, u32, u32)>::decode(stream)?;
        Ok(SocketAddrV6 { ip, port, flowinfo, scope_id })
    }
}

impl Codec for SocketAddrV4 {
    proof fn lemma_round_trip(&self, rest: Seq<u8>) {
        (self.ip, self.port).lemma_round_trip(rest);
    }
}

impl Codec for SocketAddrV6 {
    proof fn lemma_round_trip(&self, rest: Seq<u8>) {
        (self.ip, self.port, self.flowinfo, self.scope_id).lemma_round_trip(rest);
    }
}

impl Encode for SocketAddr {
    type Error = Infallible;

    /// The version, four or six, on one byte, then the socket address.
    open spec fn wire(&self) -> Seq<u8> {
        match self {
            SocketAddr::V4(addr) => 4u8.wire() + addr.wire(),
            SocketAddr::V6(addr) => 6u8.wire() + addr.wire(),
        }
    }

    open spec fn failure(&self) -> Option<Infallible> {
        None
    }

    fn encode(&self, stream: &mut OStream) -> (r: Result<(), Infallible>) {
        proof {
            lemma_be_bytes_len(4, 1);
            lemma_be_bytes_len(6, 1);
        }
        match self {
            SocketAddr::V4(addr) => {
                4u8.encode(stream)?;
                addr.encode(stream)?;
            },
            SocketAddr::V6(addr) => {
                6u8.encode(stream)?;
                addr.encode(stream)?;
            },
        }
        Ok(())
    }
}

impl Decode for SocketAddr {
    type Error = EnumDecodeError<u8, Error>;

    type Model = SocketAddr;

    open spec fn model(&self) -> SocketAddr {
        *self
    }

    /// The version from its discriminant, then the socket address of that
    /// version.
    open spec fn parse(bytes: Seq<u8>) -> Parsed<SocketAddr, Self::Error> {
        let version = parse_variant::<u8, Error>(version_discriminants(), bytes);
        match version.outcome {
            Err(e) => Parsed { outcome: Err(e), used: version.used },
            Ok(place) => if place == 0 {
                let addr = SocketAddrV4::parse(bytes.skip(version.used as int));
                Parsed {
                    outcome: match addr.outcome {
                        Err(e) => Err(EnumDecodeError::Field(e)),
                        Ok(addr) => Ok(SocketAddr::V4(addr)),
                    },
                    used: version.used + addr.used,
                }
            } else {
                let addr = SocketAddrV6::parse(bytes.skip(version.used as int));
                Parsed {
                    outcome: match addr.outcome {
                        Err(e) => Err(EnumDecodeError::Field(e)),
                        Ok(addr) => Ok(SocketAddr::V6(addr)),
                    },
                    used: version.used + addr.used,
                }
            },
        }
    }

    fn decode(stream: &mut DStream) -> (r: Result<Self, Self::Error>) {
        let table: [u8; 2] = [4, 6];
        assert(table@ =~= version_discriminants());
        let version = decode_variant::<u8, Error>(table.as_slice(), stream);
        let ghost head = parse_variant::<u8, Error>(version_discriminants(), old(stream)@);
        match version {
            Err(e) => Err(e),
            Ok(place) => {
                if place == 0 {
                    let ghost body = SocketAddrV4::parse(stream@);
                    let addr = SocketAddrV4::decode(stream);
                    assert(stream@ =~= old(stream)@.skip((head.used + body.used) as int));
                    match addr {
                        Err(e) => Err(EnumDecodeError::Field(e)),
                        Ok(addr) => Ok(SocketAddr::V4(addr)),
                    }
                } else {
                    let ghost body = SocketAddrV6::parse(stream@);
                    let addr = SocketAddrV6::decode(stream);
                    assert(stream@ =~= old(stream)@.skip((head.used + body.used) as int));
                    match addr {
                        Err(e) => Err(EnumDecodeError::Field(e)),
                        Ok(addr) => Ok(SocketAddr::V6(addr)),
                    }
                }
            },
        }
    }
}

impl Codec for SocketAddr {
    proof fn lemma_round_trip(&self, rest: Seq<u8>) {
        let bytes = self.wire() + rest;
        match self {
            SocketAddr::V4(addr) => {
                assert(bytes =~= 4u8.wire() + (addr.wire() + rest));
                4u8.lemma_round_trip(addr.wire() + rest);
                lemma_versions(4);
                assert(bytes.skip(4u8.wire().len() as int) =~= addr.wire() + rest);
                addr.lemma_round_trip(rest);
            },
            SocketAddr::V6(addr) => {
                assert(bytes =~= 6u8.wire() + (addr.wire() + rest));
                6u8.lemma_round_trip(addr.wire() + rest);
                lemma_versions(6);
                assert(bytes.skip(6u8.wire().len() as int) =~= addr.wire() + rest);
                addr.lemma_round_trip(rest);
            },
        }
    }
}

} // verus!
