use librum::bytes::{from_twos_complement, limit_of, put_be, take_be, twos_complement};
use librum::describe::Describe;
use librum::text::{decimal_string, digit, successor_string};
use librum::{DStream, Error, OStream};

#[test]
fn take_consumes_from_the_front() {
    let data = [1u8, 2, 3];
    let mut stream = DStream::new(&data);
    assert_eq!(stream.take(2).unwrap(), &[1u8, 2][..]);
    assert_eq!(stream.take(1).unwrap(), &[3u8][..]);
}

#[test]
fn take_past_the_end_reports_both_counts() {
    let data = [1u8, 2, 3];
    let mut stream = DStream::new(&data);
    assert_eq!(stream.take(4), Err(Error::EndOfDStream { len: 3, ok_len: 4 }));
    assert_eq!(stream.take(3).unwrap(), &[1u8, 2, 3][..]);
}

#[test]
fn write_appends_and_close_counts() {
    let mut buf = [0u8; 4];
    let mut stream = OStream::new(&mut buf);
    stream.write(&[7, 8]);
    stream.write(&[9]);
    assert_eq!(stream.close(), 3);
    assert_eq!(buf, [7, 8, 9, 0]);
}

#[test]
fn a_stream_can_be_made_from_a_slice_or_an_array() {
    let data = [1u8, 2, 3];
    let mut from_array = DStream::from(&data);
    let mut from_slice = DStream::from(&data[1..]);
    assert_eq!(from_array.remaining(), 3);
    assert_eq!(from_slice.remaining(), 2);
    assert_eq!(from_array.take(1).unwrap(), &[1u8][..]);
    assert_eq!(from_slice.take(1).unwrap(), &[2u8][..]);
}

#[test]
fn a_cloned_stream_reads_on_its_own() {
    let data = [1u8, 2, 3];
    let mut first = DStream::new(&data);
    first.take(1).unwrap();
    let mut second = first.clone();
    assert_eq!(first.take(2).unwrap(), &[2u8, 3][..]);
    assert_eq!(second.remaining(), 2);
    assert_eq!(second.take(1).unwrap(), &[2u8][..]);
}

#[test]
fn taking_nothing_changes_nothing() {
    let data = [1u8];
    let mut stream = DStream::new(&data);
    assert_eq!(stream.take(0).unwrap(), &[0u8; 0][..]);
    assert_eq!(stream.remaining(), 1);
    let mut empty = DStream::new(&[]);
    assert_eq!(empty.take(0).unwrap(), &[0u8; 0][..]);
    assert_eq!(empty.take(1), Err(Error::EndOfDStream { len: 0, ok_len: 1 }));
}

#[test]
fn a_stream_shows_what_is_left_in_hexadecimal() {
    let data = [0u8, 1, 9, 10, 15, 16, 0x7F, 0xA0, 0xFF];
    let mut stream = DStream::new(&data);
    assert_eq!(stream.describe(), "[0x0,0x1,0x9,0xA,0xF,0x10,0x7F,0xA0,0xFF,]");
    stream.take(5).unwrap();
    assert_eq!(stream.describe(), "[0x10,0x7F,0xA0,0xFF,]");
    stream.take(4).unwrap();
    assert_eq!(stream.describe(), "[]");
}

#[test]
fn a_full_buffer_takes_no_more() {
    let mut buf = [0u8; 2];
    let mut stream = OStream::new(&mut buf);
    assert_eq!(stream.remaining(), 2);
    stream.write(&[5, 6]);
    assert_eq!(stream.remaining(), 0);
    stream.write(&[]);
    assert_eq!(stream.close(), 2);
    assert_eq!(buf, [5, 6]);
}

#[test]
fn numbers_are_put_and_taken_most_significant_byte_first() {
    let mut buf = [0u8; 8];
    let mut stream = OStream::new(&mut buf);
    put_be(&mut stream, 0x0102_0304, 3);
    put_be(&mut stream, 0xABCD, 2);
    put_be(&mut stream, 7, 0);
    assert_eq!(stream.close(), 5);
    assert_eq!(&buf[..5], [2, 3, 4, 0xAB, 0xCD]);
    let mut stream = DStream::new(&buf[..5]);
    assert_eq!(take_be(&mut stream, 3), Ok(0x02_0304));
    assert_eq!(take_be(&mut stream, 0), Ok(0));
    assert_eq!(take_be(&mut stream, 3), Err(Error::EndOfDStream { len: 2, ok_len: 3 }));
    assert_eq!(take_be(&mut stream, 2), Ok(0xABCD));
}

#[test]
fn twos_complement_goes_both_ways() {
    assert_eq!(twos_complement(-1, 1), 0xFF);
    assert_eq!(twos_complement(-128, 1), 0x80);
    assert_eq!(twos_complement(127, 1), 0x7F);
    assert_eq!(twos_complement(-2, 2), 0xFFFE);
    assert_eq!(twos_complement(-1, 4), 0xFFFF_FFFF);
    assert_eq!(twos_complement(i64::MIN as i128, 8), 1 << 63);
    assert_eq!(twos_complement(i128::MIN, 16), 1 << 127);
    assert_eq!(twos_complement(-1, 16), u128::MAX);
    assert_eq!(from_twos_complement(0xFF, 1), -1);
    assert_eq!(from_twos_complement(0x7F, 1), 127);
    assert_eq!(from_twos_complement(0x8000, 2), -32768);
    assert_eq!(from_twos_complement(0xFFFF_FFFE, 4), -2);
    assert_eq!(from_twos_complement(1 << 63, 8), i64::MIN as i128);
    assert_eq!(from_twos_complement(1 << 127, 16), i128::MIN);
    assert_eq!(from_twos_complement(u128::MAX, 16), -1);
    assert_eq!(from_twos_complement((1 << 127) - 1, 16), i128::MAX);
}

#[test]
fn numbers_are_spelt_in_decimal() {
    assert_eq!(decimal_string(0), "0");
    assert_eq!(decimal_string(9), "9");
    assert_eq!(decimal_string(10), "10");
    assert_eq!(decimal_string(1_000_000), "1000000");
    assert_eq!(decimal_string(u128::MAX), u128::MAX.to_string());
    assert_eq!(successor_string(0), "1");
    assert_eq!(successor_string(8), "9");
    assert_eq!(successor_string(9), "10");
    assert_eq!(successor_string(99), "100");
    assert_eq!(successor_string(u128::MAX), "340282366920938463463374607431768211456");
    for value in 0..10u8 {
        assert_eq!(digit(value), value.to_string());
    }
}

#[test]
fn twos_complement_works_on_every_width() {
    assert_eq!(limit_of(0), 1);
    assert_eq!(limit_of(1), 256);
    assert_eq!(limit_of(3), 1 << 24);
    assert_eq!(limit_of(15), 1 << 120);
    assert_eq!(twos_complement(0, 0), 0);
    assert_eq!(from_twos_complement(0, 0), 0);
    assert_eq!(twos_complement(-1, 3), 0xFF_FFFF);
    assert_eq!(twos_complement(-(1 << 23), 3), 0x80_0000);
    assert_eq!(twos_complement((1 << 23) - 1, 3), 0x7F_FFFF);
    assert_eq!(from_twos_complement(0xFF_FFFF, 3), -1);
    assert_eq!(from_twos_complement(0x80_0000, 3), -(1 << 23));
    assert_eq!(from_twos_complement(0x7F_FFFF, 3), (1 << 23) - 1);
    assert_eq!(twos_complement(-(1 << 119), 15), 1 << 119);
    assert_eq!(from_twos_complement(1 << 119, 15), -(1 << 119));
    assert_eq!(from_twos_complement((1 << 119) - 1, 15), (1 << 119) - 1);
}
