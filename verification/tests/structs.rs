use librum::error::GenericDecodeError;
use librum::{DStream, Decode, Encode, Error, OStream};
use std::convert::Infallible;

#[derive(Debug, PartialEq, Eq)]
struct Foo {
    a: u16,
    b: bool,
}

impl Encode for Foo {
    type Error = Infallible;

    fn encode(&self, stream: &mut OStream) -> Result<(), Self::Error> {
        self.a.encode(stream)?;
        self.b.encode(stream)?;
        Ok(())
    }
}

impl Decode for Foo {
    type Error = GenericDecodeError;
    type Model = Self;

    fn decode(stream: &mut DStream) -> Result<Self, Self::Error> {
        let a = Decode::decode(stream).map_err(Into::<GenericDecodeError>::into)?;
        let b = Decode::decode(stream).map_err(Into::<GenericDecodeError>::into)?;
        Ok(Self { a, b })
    }
}

#[test]
fn a_struct_is_its_fields_in_order() {
    let mut buf = [0u8; 3];
    let mut stream = OStream::new(&mut buf);
    Foo { a: 300, b: true }.encode(&mut stream).unwrap();
    assert_eq!(stream.close(), 3);
    assert_eq!(buf, [0x01, 0x2C, 0x01]);

    let mut stream = DStream::new(&buf);
    assert_eq!(Foo::decode(&mut stream), Ok(Foo { a: 300, b: true }));
    assert_eq!(stream.remaining(), 0);
}

#[test]
fn a_tuple_is_laid_out_as_the_struct() {
    let mut buf = [0u8; 3];
    let mut stream = OStream::new(&mut buf);
    (300u16, true).encode(&mut stream).unwrap();
    assert_eq!(stream.close(), 3);
    assert_eq!(buf, [0x01, 0x2C, 0x01]);

    let mut stream = DStream::new(&buf);
    assert_eq!(<(u16, bool)>::decode(&mut stream), Ok((300, true)));
}

#[test]
fn a_struct_reports_the_first_field_that_fails() {
    let mut stream = DStream::new(&[0x01, 0x2C, 0x07]);
    assert_eq!(
        Foo::decode(&mut stream),
        Err(GenericDecodeError::Leaf(Error::InvalidBoolean { value: 7 }))
    );
    let mut stream = DStream::new(&[0x01]);
    assert_eq!(
        Foo::decode(&mut stream),
        Err(GenericDecodeError::Leaf(Error::EndOfDStream { len: 1, ok_len: 2 }))
    );
}

#[test]
fn a_tuple_of_one_is_its_field() {
    let mut buf = [0u8; 4];
    let mut stream = OStream::new(&mut buf);
    (0xAABBCCDDu32,).encode(&mut stream).unwrap();
    assert_eq!(stream.close(), 4);
    assert_eq!(buf, [0xAA, 0xBB, 0xCC, 0xDD]);
    let mut stream = DStream::new(&buf);
    assert_eq!(<(u32,)>::decode(&mut stream), Ok((0xAABBCCDD,)));
}

#[test]
fn a_tuple_of_twelve_round_trips() {
    let value = (1u8, 2u16, 3u32, 4u64, 5u128, -1i8, -2i16, -3i32, -4i64, -5i128, 'x', 12u8);
    let mut buf = [0u8; 80];
    let mut stream = OStream::new(&mut buf);
    value.encode(&mut stream).unwrap();
    let len = stream.close();
    assert_eq!(len, 1 + 2 + 4 + 8 + 16 + 1 + 2 + 4 + 8 + 16 + 4 + 1);
    let mut stream = DStream::new(&buf[..len]);
    let back = <(u8, u16, u32, u64, u128, i8, i16, i32, i64, i128, char, u8)>::decode(&mut stream);
    assert_eq!(back, Ok(value));
    assert_eq!(stream.remaining(), 0);
}

#[test]
fn a_tuple_stops_at_the_field_that_fails_and_keeps_what_came_before() {
    let mut buf = [0u8; 8];
    let mut stream = OStream::new(&mut buf);
    let result = (7usize, 70000usize, 9usize).encode(&mut stream);
    assert_eq!(result, Err(librum::error::UsizeEncodeError(70000)));
    assert_eq!(stream.close(), 2);
    assert_eq!(buf, [0, 7, 0, 0, 0, 0, 0, 0]);
}

#[test]
fn a_tuple_reading_stops_at_the_field_that_fails() {
    let bytes = [0u8, 1, 9, 0, 2];
    let mut stream = DStream::new(&bytes);
    assert_eq!(
        <(u16, bool, u16)>::decode(&mut stream),
        Err(Error::InvalidBoolean { value: 9 })
    );
    assert_eq!(stream.remaining(), 2);
}
