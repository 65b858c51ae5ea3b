use librum::error::{IsizeEncodeError, UsizeEncodeError};
use librum::{DStream, Decode, Encode, Error, OStream};

fn written<T: Encode>(value: &T) -> Vec<u8>
where
    T::Error: core::fmt::Debug,
{
    let mut buf = [0u8; 64];
    let mut stream = OStream::new(&mut buf);
    value.encode(&mut stream).unwrap();
    let len = stream.close();
    buf[..len].to_vec()
}

fn read<T: Decode>(bytes: &[u8]) -> Result<T, T::Error> {
    let mut stream = DStream::new(bytes);
    T::decode(&mut stream)
}

#[test]
fn unsigned_integers_are_big_endian() {
    assert_eq!(written(&0x12u8), [0x12]);
    assert_eq!(written(&300u16), [0x01, 0x2C]);
    assert_eq!(written(&0x0102_0304u32), [1, 2, 3, 4]);
    assert_eq!(written(&0x0102_0304_0506_0708u64), [1, 2, 3, 4, 5, 6, 7, 8]);
    assert_eq!(
        written(&0x0102_0304_0506_0708_090A_0B0C_0D0E_0F10u128),
        [1, 2, 3, 4, 5, 6, 7, 8, 9, 10, 11, 12, 13, 14, 15, 16]
    );
}

#[test]
fn signed_integers_are_twos_complement() {
    assert_eq!(written(&-1i8), [0xFF]);
    assert_eq!(written(&-2i16), [0xFF, 0xFE]);
    assert_eq!(written(&i32::MIN), [0x80, 0, 0, 0]);
    assert_eq!(written(&i64::MAX), [0x7F, 0xFF, 0xFF, 0xFF, 0xFF, 0xFF, 0xFF, 0xFF]);
    assert_eq!(written(&-1i128), [0xFF; 16]);
    assert_eq!(written(&i128::MIN)[0], 0x80);
}

#[test]
fn integers_round_trip() {
    assert_eq!(read::<u8>(&written(&200u8)), Ok(200));
    assert_eq!(read::<u16>(&written(&65535u16)), Ok(65535));
    assert_eq!(read::<u32>(&written(&u32::MAX)), Ok(u32::MAX));
    assert_eq!(read::<u64>(&written(&u64::MAX)), Ok(u64::MAX));
    assert_eq!(read::<u128>(&written(&u128::MAX)), Ok(u128::MAX));
    assert_eq!(read::<i8>(&written(&i8::MIN)), Ok(i8::MIN));
    assert_eq!(read::<i16>(&written(&-12345i16)), Ok(-12345));
    assert_eq!(read::<i32>(&written(&i32::MIN)), Ok(i32::MIN));
    assert_eq!(read::<i64>(&written(&i64::MIN)), Ok(i64::MIN));
    assert_eq!(read::<i128>(&written(&i128::MIN)), Ok(i128::MIN));
    assert_eq!(read::<i128>(&written(&i128::MAX)), Ok(i128::MAX));
}

#[test]
fn booleans_are_one_byte() {
    assert_eq!(written(&false), [0]);
    assert_eq!(written(&true), [1]);
    assert_eq!(read::<bool>(&[0]), Ok(false));
    assert_eq!(read::<bool>(&[1]), Ok(true));
}

#[test]
fn a_byte_above_one_is_no_boolean() {
    assert_eq!(read::<bool>(&[2]), Err(Error::InvalidBoolean { value: 2 }));
    assert_eq!(read::<bool>(&[0xFF]), Err(Error::InvalidBoolean { value: 0xFF }));
}

#[test]
fn characters_are_their_scalar_value() {
    assert_eq!(written(&'A'), [0, 0, 0, 0x41]);
    assert_eq!(written(&'\u{10FFFF}'), [0, 0x10, 0xFF, 0xFF]);
    assert_eq!(read::<char>(&[0, 0, 0, 0x41]), Ok('A'));
    assert_eq!(read::<char>(&[0, 0, 0x20, 0xAC]), Ok('\u{20AC}'));
    assert_eq!(read::<char>(&written(&'\u{10FFFF}')), Ok('\u{10FFFF}'));
}

#[test]
fn surrogates_and_large_numbers_are_no_characters() {
    assert_eq!(read::<char>(&[0, 0, 0xD8, 0]), Err(Error::InvalidCodePoint { value: 0xD800 }));
    assert_eq!(read::<char>(&[0, 0x11, 0, 0]), Err(Error::InvalidCodePoint { value: 0x11_0000 }));
}

#[test]
fn sizes_are_written_on_sixteen_bits() {
    assert_eq!(written(&0usize), [0, 0]);
    assert_eq!(written(&65535usize), [0xFF, 0xFF]);
    assert_eq!(written(&-1isize), [0xFF, 0xFF]);
    assert_eq!(written(&-32768isize), [0x80, 0]);
    assert_eq!(read::<usize>(&[0x01, 0x2C]), Ok(300));
    assert_eq!(read::<isize>(&[0xFF, 0xFE]), Ok(-2));
}

#[test]
fn a_size_beyond_sixteen_bits_is_not_truncated() {
    let mut buf = [0u8; 8];
    let mut stream = OStream::new(&mut buf);
    assert_eq!(65536usize.encode(&mut stream), Err(UsizeEncodeError(65536)));
    assert_eq!(usize::MAX.encode(&mut stream), Err(UsizeEncodeError(usize::MAX)));
    assert_eq!(32768isize.encode(&mut stream), Err(IsizeEncodeError(32768)));
    assert_eq!((-32769isize).encode(&mut stream), Err(IsizeEncodeError(-32769)));
    assert_eq!(stream.close(), 0);
    assert_eq!(buf, [0u8; 8]);
}

#[test]
fn decoding_an_empty_buffer_as_u16_reports_requested_and_available() {
    assert_eq!(read::<u16>(&[]), Err(Error::EndOfDStream { len: 0, ok_len: 2 }));
}

#[test]
fn a_short_buffer_is_left_untouched() {
    let bytes = [1u8, 2, 3];
    let mut stream = DStream::new(&bytes);
    assert_eq!(u32::decode(&mut stream), Err(Error::EndOfDStream { len: 3, ok_len: 4 }));
    assert_eq!(stream.remaining(), 3);
    assert_eq!(u16::decode(&mut stream), Ok(0x0102));
    assert_eq!(stream.remaining(), 1);
}

#[test]
fn unit_writes_and_reads_nothing() {
    assert_eq!(written(&()), []);
    assert_eq!(read::<()>(&[]), Ok(()));
}

#[test]
fn writing_advances_by_the_width_of_the_type() {
    let mut buf = [0u8; 32];
    let mut stream = OStream::new(&mut buf);
    1u8.encode(&mut stream).unwrap();
    assert_eq!(stream.remaining(), 31);
    1u32.encode(&mut stream).unwrap();
    assert_eq!(stream.remaining(), 27);
    1i128.encode(&mut stream).unwrap();
    assert_eq!(stream.remaining(), 11);
    'x'.encode(&mut stream).unwrap();
    assert_eq!(stream.close(), 25);
}
