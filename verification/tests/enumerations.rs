use librum::bound::Bound;
use librum::enumeration::{decode_variant, encode_variant, find_variant};
use librum::error::{EnumDecodeError, EnumEncodeError, GenericDecodeError, UsizeEncodeError};
use librum::net::{IpAddr, Ipv4Addr, Ipv6Addr, SocketAddr, SocketAddrV4, SocketAddrV6};
use librum::time::{Duration, SystemTime};
use librum::{DStream, Decode, Encode, Error, OStream};

fn written<T: Encode>(value: &T) -> (Vec<u8>, Result<(), T::Error>) {
    let mut buf = vec![0u8; 64];
    let mut stream = OStream::new(&mut buf);
    let result = value.encode(&mut stream);
    let len = stream.close();
    buf.truncate(len);
    (buf, result)
}

fn read<T: Decode>(bytes: &[u8]) -> (Result<T, T::Error>, usize) {
    let mut stream = DStream::new(bytes);
    let result = T::decode(&mut stream);
    (result, stream.remaining())
}

#[derive(Debug, PartialEq, Eq, Clone)]
enum Shape {
    Point,
    Circle(u16),
    Rect { width: u8, height: u8 },
}

const SHAPE_DISCRIMINANTS: [i16; 3] = [0, 1, -7];

impl Encode for Shape {
    type Error = EnumEncodeError<i16, std::convert::Infallible>;

    fn encode(&self, stream: &mut OStream) -> Result<(), Self::Error> {
        match self {
            Shape::Point => encode_variant(&SHAPE_DISCRIMINANTS, 0, &(), stream),
            Shape::Circle(radius) => encode_variant(&SHAPE_DISCRIMINANTS, 1, &(*radius,), stream),
            Shape::Rect { width, height } => {
                encode_variant(&SHAPE_DISCRIMINANTS, 2, &(*width, *height), stream)
            }
        }
    }
}

impl Decode for Shape {
    type Error = EnumDecodeError<i16, GenericDecodeError>;
    type Model = Self;

    fn decode(stream: &mut DStream) -> Result<Self, Self::Error> {
        let discriminant = <i16 as Decode>::decode(stream)
            .map_err(EnumDecodeError::InvalidDiscriminant)?;
        let this = match discriminant {
            0 => Self::Point,
            1 => Self::Circle(
                Decode::decode(stream)
                    .map_err(Into::<GenericDecodeError>::into)
                    .map_err(EnumDecodeError::Field)?,
            ),
            -7 => Self::Rect {
                width: Decode::decode(stream)
                    .map_err(Into::<GenericDecodeError>::into)
                    .map_err(EnumDecodeError::Field)?,
                height: Decode::decode(stream)
                    .map_err(Into::<GenericDecodeError>::into)
                    .map_err(EnumDecodeError::Field)?,
            },
            value => return Err(EnumDecodeError::UnassignedDiscriminant { value }),
        };
        Ok(this)
    }
}

#[test]
fn every_variant_round_trips() {
    let shapes = [Shape::Point, Shape::Circle(300), Shape::Rect { width: 3, height: 4 }];
    let wires: [&[u8]; 3] = [&[0, 0], &[0, 1, 1, 0x2C], &[0xFF, 0xF9, 3, 4]];
    for (shape, wire) in shapes.iter().zip(wires) {
        let (bytes, result) = written(shape);
        assert_eq!(result, Ok(()));
        assert_eq!(bytes, wire);
        assert_eq!(read::<Shape>(&bytes), (Ok(shape.clone()), 0));
    }
}

#[test]
fn every_variant_is_found_by_its_discriminant() {
    for (place, value) in SHAPE_DISCRIMINANTS.iter().enumerate() {
        assert_eq!(find_variant(&SHAPE_DISCRIMINANTS, *value), Some(place));
        let bytes = value.to_be_bytes();
        let mut stream = DStream::new(&bytes);
        let found: Result<usize, EnumDecodeError<i16, Error>> =
            decode_variant(&SHAPE_DISCRIMINANTS, &mut stream);
        assert_eq!(found, Ok(place));
    }
}

#[test]
fn an_unassigned_discriminant_is_reported_with_its_value() {
    assert_eq!(
        read::<Shape>(&[0, 2, 9, 9]),
        (Err(EnumDecodeError::UnassignedDiscriminant { value: 2 }), 2)
    );
    assert_eq!(
        read::<Shape>(&[0xFF, 0xFF]),
        (Err(EnumDecodeError::UnassignedDiscriminant { value: -1 }), 0)
    );
    let mut stream = DStream::new(&[0x12, 0x34, 5]);
    let found: Result<usize, EnumDecodeError<u16, Error>> = decode_variant(&[1, 2, 3], &mut stream);
    assert_eq!(found, Err(EnumDecodeError::UnassignedDiscriminant { value: 0x1234 }));
    assert_eq!(stream.remaining(), 1);
    assert_eq!(find_variant(&[1u8, 2, 3], 4), None);
}

#[test]
fn a_discriminant_that_cannot_be_read_is_not_an_unassigned_one() {
    assert_eq!(
        read::<Shape>(&[0]),
        (Err(EnumDecodeError::InvalidDiscriminant(Error::EndOfDStream { len: 1, ok_len: 2 })), 1)
    );
    let mut stream = DStream::new(&[]);
    let found: Result<usize, EnumDecodeError<u8, Error>> = decode_variant(&[0, 1], &mut stream);
    assert_eq!(
        found,
        Err(EnumDecodeError::InvalidDiscriminant(Error::EndOfDStream { len: 0, ok_len: 1 }))
    );
}

#[test]
fn a_field_that_cannot_be_read_is_reported_as_a_field() {
    assert_eq!(
        read::<Shape>(&[0, 1, 1]),
        (
            Err(EnumDecodeError::Field(GenericDecodeError::Leaf(Error::EndOfDStream {
                len: 1,
                ok_len: 2
            }))),
            1
        )
    );
}

#[test]
fn a_discriminant_of_size_kind_is_narrowed() {
    let mut buf = [0u8; 8];
    let mut stream = OStream::new(&mut buf);
    let result = encode_variant(&[0usize, 70000], 1, &5u8, &mut stream);
    assert_eq!(result, Err(EnumEncodeError::Discriminant(UsizeEncodeError(70000))));
    assert_eq!(stream.remaining(), 8);
    let result = encode_variant(&[0usize, 70000], 0, &5u8, &mut stream);
    assert_eq!(result, Ok(()));
    assert_eq!(stream.close(), 3);
    assert_eq!(&buf[..3], [0, 0, 5]);
}

#[test]
fn a_field_that_cannot_be_written_is_reported_after_the_discriminant() {
    let mut buf = [0u8; 8];
    let mut stream = OStream::new(&mut buf);
    let result = encode_variant(&[4u8, 6], 1, &70000usize, &mut stream);
    assert_eq!(result, Err(EnumEncodeError::Field(UsizeEncodeError(70000))));
    assert_eq!(stream.close(), 1);
    assert_eq!(buf[0], 6);
}

#[test]
fn a_bound_is_a_discriminant_then_its_value() {
    assert_eq!(written(&Bound::Included(0x0102u16)), (vec![0, 1, 2], Ok(())));
    assert_eq!(written(&Bound::Excluded(0x0102u16)), (vec![1, 1, 2], Ok(())));
    assert_eq!(written(&Bound::<u16>::Unbounded), (vec![2], Ok(())));
    assert_eq!(read::<Bound<u16>>(&[0, 1, 2]), (Ok(Bound::Included(0x0102)), 0));
    assert_eq!(read::<Bound<u16>>(&[1, 1, 2]), (Ok(Bound::Excluded(0x0102)), 0));
    assert_eq!(read::<Bound<u16>>(&[2, 1, 2]), (Ok(Bound::Unbounded), 2));
}

#[test]
fn a_bound_reports_what_went_wrong() {
    assert_eq!(
        read::<Bound<u16>>(&[3, 1, 2]),
        (Err(EnumDecodeError::UnassignedDiscriminant { value: 3 }), 2)
    );
    assert_eq!(
        read::<Bound<u16>>(&[1, 1]),
        (Err(EnumDecodeError::Field(Error::EndOfDStream { len: 1, ok_len: 2 })), 1)
    );
    let (bytes, result) = written(&Bound::Excluded(70000usize));
    assert_eq!(result, Err(EnumEncodeError::Field(UsizeEncodeError(70000))));
    assert_eq!(bytes, [1]);
}

#[test]
fn an_address_is_its_version_then_its_bits() {
    let v4 = IpAddr::V4(Ipv4Addr { bits: 0x7F00_0001 });
    let v6 = IpAddr::V6(Ipv6Addr { bits: 1 });
    assert_eq!(written(&v4), (vec![4, 127, 0, 0, 1], Ok(())));
    let mut expected = vec![6u8];
    expected.extend([0u8; 15]);
    expected.push(1);
    assert_eq!(written(&v6), (expected.clone(), Ok(())));
    assert_eq!(read::<IpAddr>(&[4, 127, 0, 0, 1]), (Ok(v4), 0));
    assert_eq!(read::<IpAddr>(&expected), (Ok(v6), 0));
    assert_eq!(
        read::<IpAddr>(&[5, 0, 0, 0, 0]),
        (Err(EnumDecodeError::UnassignedDiscriminant { value: 5 }), 4)
    );
    assert_eq!(
        read::<IpAddr>(&[4, 0, 0]),
        (Err(EnumDecodeError::Field(Error::EndOfDStream { len: 2, ok_len: 4 })), 2)
    );
}

#[test]
fn a_socket_address_is_its_version_then_its_parts() {
    let v4 = SocketAddr::V4(SocketAddrV4 { ip: Ipv4Addr { bits: 0xC0A8_0001 }, port: 8080 });
    assert_eq!(written(&v4), (vec![4, 192, 168, 0, 1, 0x1F, 0x90], Ok(())));
    assert_eq!(read::<SocketAddr>(&[4, 192, 168, 0, 1, 0x1F, 0x90]), (Ok(v4), 0));

    let v6 = SocketAddr::V6(SocketAddrV6 {
        ip: Ipv6Addr { bits: 0x2001_0DB8 << 96 },
        port: 443,
        flowinfo: 0x0102_0304,
        scope_id: 9,
    });
    let (bytes, result) = written(&v6);
    assert_eq!(result, Ok(()));
    assert_eq!(bytes.len(), 1 + 16 + 2 + 4 + 4);
    assert_eq!(&bytes[..5], [6, 0x20, 0x01, 0x0D, 0xB8]);
    assert_eq!(&bytes[17..], [0x01, 0xBB, 1, 2, 3, 4, 0, 0, 0, 9]);
    assert_eq!(read::<SocketAddr>(&bytes), (Ok(v6), 0));
    assert_eq!(
        read::<SocketAddr>(&[0]),
        (Err(EnumDecodeError::UnassignedDiscriminant { value: 0 }), 0)
    );
}

#[test]
fn a_span_of_time_is_seconds_then_nanoseconds() {
    let span = Duration { secs: 0x0102, nanos: 999_999_999 };
    let (bytes, result) = written(&span);
    assert_eq!(result, Ok(()));
    assert_eq!(bytes, [0, 0, 0, 0, 0, 0, 1, 2, 0x3B, 0x9A, 0xC9, 0xFF]);
    assert_eq!(read::<Duration>(&bytes), (Ok(span), 0));
}

#[test]
fn a_point_in_time_is_its_signed_seconds() {
    let after = SystemTime::new(false, Duration { secs: 1_730_631_721, nanos: 5 }).unwrap();
    assert_eq!(written(&after), (1_730_631_721i64.to_be_bytes().to_vec(), Ok(())));
    let before = SystemTime::new(true, Duration { secs: 778_231_800, nanos: 0 }).unwrap();
    assert_eq!(written(&before), ((-778_231_800i64).to_be_bytes().to_vec(), Ok(())));
    let epoch = SystemTime::new(true, Duration { secs: 0, nanos: 500 }).unwrap();
    assert_eq!(written(&epoch), (vec![0; 8], Ok(())));
    assert_eq!(after.to_seconds(), 1_730_631_721);
    assert_eq!(before.to_seconds(), -778_231_800);
}

#[test]
fn a_point_in_time_comes_back_in_whole_seconds() {
    let after = SystemTime::new(false, Duration { secs: 13_258_800, nanos: 123 }).unwrap();
    let (bytes, _) = written(&after);
    let (back, left) = read::<SystemTime>(&bytes);
    let back = back.unwrap();
    assert_eq!(left, 0);
    assert!(!back.before_epoch());
    assert_eq!(back.span(), Duration { secs: 13_258_800, nanos: 0 });

    let (back, _) = read::<SystemTime>(&(-5i64).to_be_bytes());
    let back = back.unwrap();
    assert!(back.before_epoch());
    assert_eq!(back.span(), Duration { secs: 5, nanos: 0 });
    assert_eq!(back, SystemTime::from_seconds(-5));

    let (back, _) = read::<SystemTime>(&i64::MIN.to_be_bytes());
    assert_eq!(back.unwrap().to_seconds(), i64::MIN);
}

#[test]
fn a_point_too_far_from_the_epoch_cannot_be_made() {
    assert_eq!(SystemTime::new(false, Duration { secs: 1 << 63, nanos: 0 }), None);
    assert!(SystemTime::new(true, Duration { secs: 1 << 63, nanos: 0 }).is_some());
    assert_eq!(SystemTime::new(true, Duration { secs: (1 << 63) + 1, nanos: 0 }), None);
    assert!(SystemTime::new(false, Duration { secs: (1 << 63) - 1, nanos: 0 }).is_some());
}
