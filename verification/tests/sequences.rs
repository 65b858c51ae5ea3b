use librum::error::{
    CollectionDecodeError, CollectionEncodeError, EnumDecodeError, ItemDecodeError,
    ItemEncodeError, UsizeEncodeError,
};
use librum::{DStream, Decode, Encode, Error, OStream};
use librum::encode::encode_borrowed;
use librum::error::RefCellEncodeError;
use librum::hash::{encode_hash_map, encode_hash_set};
use std::cell::RefCell;
use std::collections::{HashMap, HashSet, VecDeque};
use std::rc::Rc;
use std::sync::Arc;

fn written<T: Encode + ?Sized>(value: &T, capacity: usize) -> (Vec<u8>, Result<(), T::Error>) {
    let mut buf = vec![0u8; capacity];
    let mut stream = OStream::new(&mut buf);
    let result = value.encode(&mut stream);
    let len = stream.close();
    buf.truncate(len);
    (buf, result)
}

fn read<T: Decode>(bytes: &[u8]) -> (Result<T, T::Error>, usize) {
    let mut stream = DStream::new(bytes);
    let result = T::decode(&mut stream);
    (result, stream.remaining())
}

#[test]
fn a_vector_writes_its_count_then_its_items() {
    let (bytes, result) = written(&vec![1u16, 2, 3], 16);
    assert_eq!(result, Ok(()));
    assert_eq!(bytes, [0, 3, 0, 1, 0, 2, 0, 3]);
}

#[test]
fn an_empty_vector_writes_a_zero_count() {
    let (bytes, result) = written(&Vec::<u32>::new(), 16);
    assert_eq!(result, Ok(()));
    assert_eq!(bytes, [0, 0]);
    assert_eq!(read::<Vec<u32>>(&bytes), (Ok(vec![]), 0));
}

#[test]
fn the_length_prefix_is_the_count_of_items() {
    for count in [0usize, 1, 2, 255, 256, 1000] {
        let items = vec![7u8; count];
        let (bytes, result) = written(&items, count + 2);
        assert_eq!(result, Ok(()));
        assert_eq!(bytes.len(), count + 2);
        assert_eq!(u16::from_be_bytes([bytes[0], bytes[1]]) as usize, count);
    }
}

#[test]
fn a_vector_round_trips() {
    let value = vec![-1i32, 0, 1, i32::MAX];
    let (bytes, _) = written(&value, 32);
    assert_eq!(read::<Vec<i32>>(&bytes), (Ok(value), 0));
}

#[test]
fn a_slice_is_written_as_a_vector() {
    let items = [10u8, 20, 30];
    let (bytes, result) = written(&items[..], 8);
    assert_eq!(result, Ok(()));
    assert_eq!(bytes, [0, 3, 10, 20, 30]);
}

#[test]
fn a_vector_that_is_too_long_writes_nothing() {
    let items = vec![0u8; 65536];
    let (bytes, result) = written(&items, 4);
    assert_eq!(result, Err(CollectionEncodeError::Length(UsizeEncodeError(65536))));
    assert_eq!(bytes, []);
}

#[test]
fn a_vector_of_the_longest_length_is_written() {
    let items = vec![1u8; 65535];
    let (bytes, result) = written(&items, 65537);
    assert_eq!(result, Ok(()));
    assert_eq!(&bytes[..2], [0xFF, 0xFF]);
    assert_eq!(bytes.len(), 65537);
}

#[test]
fn an_item_that_fails_is_reported_with_its_place() {
    let items = vec![1usize, 2, 70000, 4];
    let (bytes, result) = written(&items, 16);
    assert_eq!(
        result,
        Err(CollectionEncodeError::Item(ItemEncodeError {
            index: 2,
            error: UsizeEncodeError(70000)
        }))
    );
    assert_eq!(bytes, [0, 4, 0, 1, 0, 2]);
}

#[test]
fn a_truncated_vector_fails_at_the_first_missing_item() {
    let bytes = [0u8, 3, 0, 1, 0, 2];
    assert_eq!(
        read::<Vec<u16>>(&bytes),
        (
            Err(CollectionDecodeError::Item(ItemDecodeError {
                index: 2,
                error: Error::EndOfDStream { len: 0, ok_len: 2 }
            })),
            0
        )
    );
    let bytes = [0u8, 3, 0, 1, 0];
    assert_eq!(
        read::<Vec<u16>>(&bytes),
        (
            Err(CollectionDecodeError::Item(ItemDecodeError {
                index: 1,
                error: Error::EndOfDStream { len: 1, ok_len: 2 }
            })),
            1
        )
    );
}

#[test]
fn a_truncated_vector_of_bytes_asks_for_one_byte_more() {
    let bytes = [0u8, 5, 1, 2];
    assert_eq!(
        read::<Vec<u8>>(&bytes),
        (
            Err(CollectionDecodeError::Item(ItemDecodeError {
                index: 2,
                error: Error::EndOfDStream { len: 0, ok_len: 1 }
            })),
            0
        )
    );
}

#[test]
fn a_vector_without_its_length_fails_on_the_length() {
    assert_eq!(
        read::<Vec<u8>>(&[7]),
        (Err(CollectionDecodeError::Length(Error::EndOfDStream { len: 1, ok_len: 2 })), 1)
    );
}

#[test]
fn an_array_writes_its_items_without_a_count() {
    let (bytes, result) = written(&[1u16, 2, 3], 8);
    assert_eq!(result, Ok(()));
    assert_eq!(bytes, [0, 1, 0, 2, 0, 3]);
}

#[test]
fn an_array_round_trips() {
    assert_eq!(read::<[u16; 3]>(&[0, 1, 0, 2, 0, 3]), (Ok([1, 2, 3]), 0));
    assert_eq!(read::<[u8; 0]>(&[9]), (Ok([]), 1));
    assert_eq!(read::<[bool; 2]>(&[1, 0, 1]), (Ok([true, false]), 1));
}

#[test]
fn an_array_reports_the_item_that_fails() {
    assert_eq!(
        read::<[bool; 3]>(&[1, 2, 0]),
        (
            Err(CollectionDecodeError::Item(ItemDecodeError {
                index: 1,
                error: Error::InvalidBoolean { value: 2 }
            })),
            1
        )
    );
    let (bytes, result) = written(&[1usize, 99999], 8);
    assert_eq!(
        result,
        Err(CollectionEncodeError::Item(ItemEncodeError {
            index: 1,
            error: UsizeEncodeError(99999)
        }))
    );
    assert_eq!(bytes, [0, 1]);
}

#[test]
fn a_text_writes_the_count_of_its_bytes_then_the_bytes() {
    let (bytes, result) = written("hé", 8);
    assert_eq!(result, Ok(()));
    assert_eq!(bytes, [0, 3, b'h', 0xC3, 0xA9]);
    let (bytes, result) = written(&String::from("abc"), 8);
    assert_eq!(result, Ok(()));
    assert_eq!(bytes, [0, 3, b'a', b'b', b'c']);
}

#[test]
fn a_text_round_trips() {
    let text = String::from("grüße, 世界");
    let (bytes, _) = written(&text, 64);
    assert_eq!(read::<String>(&bytes), (Ok(text), 0));
    assert_eq!(read::<String>(&[0, 0, 1]), (Ok(String::new()), 1));
}

#[test]
fn a_truncated_text_reports_the_shortfall() {
    assert_eq!(
        read::<String>(&[0, 5, b'a', b'b']),
        (Err(CollectionDecodeError::Item(Error::EndOfDStream { len: 2, ok_len: 5 })), 2)
    );
    assert_eq!(
        read::<String>(&[0]),
        (Err(CollectionDecodeError::Length(Error::EndOfDStream { len: 1, ok_len: 2 })), 1)
    );
}

#[test]
fn bytes_that_are_not_utf8_are_no_text() {
    assert_eq!(
        read::<String>(&[0, 2, 0xFF, 0xFE, 7]),
        (Err(CollectionDecodeError::Item(Error::BadString)), 1)
    );
    assert_eq!(
        read::<String>(&[0, 1, 0xC3]),
        (Err(CollectionDecodeError::Item(Error::BadString)), 0)
    );
}

#[test]
fn an_option_is_a_flag_then_the_value() {
    assert_eq!(written(&None::<u16>, 4), (vec![0], Ok(())));
    assert_eq!(written(&Some(0x0102u16), 4), (vec![1, 1, 2], Ok(())));
    assert_eq!(read::<Option<u16>>(&[0, 9]), (Ok(None), 1));
    assert_eq!(read::<Option<u16>>(&[1, 1, 2]), (Ok(Some(0x0102)), 0));
}

#[test]
fn an_option_tells_a_bad_flag_from_a_bad_value() {
    assert_eq!(
        read::<Option<u16>>(&[2, 0, 0]),
        (Err(EnumDecodeError::InvalidDiscriminant(Error::InvalidBoolean { value: 2 })), 2)
    );
    assert_eq!(
        read::<Option<u16>>(&[]),
        (Err(EnumDecodeError::InvalidDiscriminant(Error::EndOfDStream { len: 0, ok_len: 1 })), 0)
    );
    assert_eq!(
        read::<Option<u16>>(&[1, 0]),
        (Err(EnumDecodeError::Field(Error::EndOfDStream { len: 1, ok_len: 2 })), 1)
    );
}

#[test]
fn an_option_passes_the_failure_of_its_value_on() {
    let (bytes, result) = written(&Some(70000usize), 4);
    assert_eq!(result, Err(UsizeEncodeError(70000)));
    assert_eq!(bytes, [1]);
}

#[test]
fn a_result_is_a_flag_then_the_value() {
    let ok: Result<u16, u8> = Ok(0x0102);
    let err: Result<u16, u8> = Err(9);
    assert_eq!(written(&ok, 4), (vec![0, 1, 2], Ok(())));
    assert_eq!(written(&err, 4), (vec![1, 9], Ok(())));
    assert_eq!(read::<Result<u16, u8>>(&[0, 1, 2]), (Ok(ok), 0));
    assert_eq!(read::<Result<u16, u8>>(&[1, 9]), (Ok(err), 0));
    assert_eq!(
        read::<Result<u16, u8>>(&[3, 9]),
        (Err(EnumDecodeError::InvalidDiscriminant(Error::InvalidBoolean { value: 3 })), 1)
    );
    assert_eq!(
        read::<Result<u16, u8>>(&[0, 9]),
        (Err(EnumDecodeError::Field(Error::EndOfDStream { len: 1, ok_len: 2 })), 1)
    );
}

#[test]
fn pointers_write_what_they_point_to() {
    assert_eq!(written(&Box::new(0x0102u16), 4), (vec![1, 2], Ok(())));
    assert_eq!(written(&Rc::new(0x0102u16), 4), (vec![1, 2], Ok(())));
    assert_eq!(written(&Arc::new(0x0102u16), 4), (vec![1, 2], Ok(())));
    assert_eq!(written(&&0x0102u16, 4), (vec![1, 2], Ok(())));
    let mut value = 0x0102u16;
    assert_eq!(written(&&mut value, 4), (vec![1, 2], Ok(())));
    assert_eq!(read::<Box<u16>>(&[1, 2]), (Ok(Box::new(0x0102)), 0));
    assert_eq!(read::<Rc<u16>>(&[1, 2]), (Ok(Rc::new(0x0102)), 0));
    assert_eq!(read::<Arc<u16>>(&[1, 2]), (Ok(Arc::new(0x0102)), 0));
}

#[test]
fn a_deque_is_written_from_front_to_back() {
    let mut list = VecDeque::new();
    list.push_back(2u8);
    list.push_back(3);
    list.push_front(1);
    assert_eq!(written(&list, 8), (vec![0, 3, 1, 2, 3], Ok(())));
}

#[test]
fn a_deque_reports_the_item_that_fails_with_its_place() {
    let mut list = VecDeque::new();
    list.push_back(1usize);
    list.push_back(77777);
    let (bytes, result) = written(&list, 8);
    assert_eq!(result, Err(CollectionEncodeError::Item((1, UsizeEncodeError(77777)))));
    assert_eq!(bytes, [0, 2, 0, 1]);
}

#[test]
fn a_range_is_its_start_then_its_end() {
    assert_eq!(written(&(1u8..9u8), 4), (vec![1, 9], Ok(())));
    let (bytes, result) = written(&(70000usize..1usize), 4);
    assert_eq!(result, Err(UsizeEncodeError(70000)));
    assert_eq!(bytes, []);
}

#[test]
fn markers_write_nothing() {
    assert_eq!(written(&std::marker::PhantomData::<u64>, 4), (vec![], Ok(())));
}

#[test]
fn nested_values_round_trip() {
    let value: Vec<Option<(u16, bool)>> = vec![Some((1, true)), None, Some((65535, false))];
    let (bytes, result) = written(&value, 32);
    assert_eq!(result, Ok(()));
    assert_eq!(bytes, [0, 3, 1, 0, 1, 1, 0, 1, 0xFF, 0xFF, 0]);
    let back = read::<Vec<Option<(u16, bool)>>>(&bytes);
    assert_eq!(back.0.unwrap(), value);
    assert_eq!(back.1, 0);
}

#[test]
fn an_item_error_names_its_cause() {
    let error = ItemEncodeError { index: 3usize, error: UsizeEncodeError(70000) };
    assert_eq!(error.source(), Some(&UsizeEncodeError(70000)));
    let error = ItemDecodeError { index: 1usize, error: Error::BadString };
    assert_eq!(error.source(), Some(&Error::BadString));
}

#[test]
fn a_map_is_its_count_then_its_entries() {
    let mut map = HashMap::new();
    map.insert(1u8, 0x0203u16);
    let mut buf = [0u8; 8];
    let mut stream = OStream::new(&mut buf);
    assert_eq!(encode_hash_map(&map, &mut stream), Ok(()));
    assert_eq!(stream.close(), 5);
    assert_eq!(&buf[..5], [0, 1, 1, 2, 3]);

    let empty: HashMap<u8, u16> = HashMap::new();
    let mut stream = OStream::new(&mut buf);
    assert_eq!(encode_hash_map(&empty, &mut stream), Ok(()));
    assert_eq!(stream.close(), 2);
    assert_eq!(&buf[..2], [0, 0]);
}

#[test]
fn a_map_writes_every_entry_once() {
    let map: HashMap<u8, u8> = (0..50u8).map(|key| (key, key.wrapping_mul(3))).collect();
    let mut buf = [0u8; 128];
    let mut stream = OStream::new(&mut buf);
    assert_eq!(encode_hash_map(&map, &mut stream), Ok(()));
    assert_eq!(stream.close(), 102);
    assert_eq!(&buf[..2], [0, 50]);
    let mut seen: Vec<(u8, u8)> = buf[2..102].chunks(2).map(|pair| (pair[0], pair[1])).collect();
    seen.sort();
    let mut expected: Vec<(u8, u8)> = map.into_iter().collect();
    expected.sort();
    assert_eq!(seen, expected);
}

#[test]
fn a_map_reports_the_entry_that_fails_with_its_place() {
    let mut map = HashMap::new();
    map.insert(70000usize, 1usize);
    let mut buf = [0u8; 8];
    let mut stream = OStream::new(&mut buf);
    assert_eq!(
        encode_hash_map(&map, &mut stream),
        Err(CollectionEncodeError::Item(ItemEncodeError {
            index: 0,
            error: UsizeEncodeError(70000)
        }))
    );
    assert_eq!(stream.close(), 2);
}

#[test]
fn a_set_is_its_count_then_its_keys() {
    let mut set = HashSet::new();
    set.insert(0x0102u16);
    let mut buf = [0u8; 8];
    let mut stream = OStream::new(&mut buf);
    assert_eq!(encode_hash_set(&set, &mut stream), Ok(()));
    assert_eq!(stream.close(), 4);
    assert_eq!(&buf[..4], [0, 1, 1, 2]);

    let set: HashSet<u8> = (0..20u8).collect();
    let mut buf = [0u8; 32];
    let mut stream = OStream::new(&mut buf);
    assert_eq!(encode_hash_set(&set, &mut stream), Ok(()));
    assert_eq!(stream.close(), 22);
    assert_eq!(&buf[..2], [0, 20]);
    let mut seen = buf[2..22].to_vec();
    seen.sort();
    assert_eq!(seen, (0..20u8).collect::<Vec<_>>());
}

#[test]
fn a_cell_that_is_free_writes_its_contents() {
    let cell = RefCell::new(0x0102u16);
    let mut buf = [0u8; 4];
    let mut stream = OStream::new(&mut buf);
    let borrowed = cell.try_borrow();
    let result = encode_borrowed(borrowed.as_deref().map_err(|_| unreachable!()), &mut stream);
    assert!(matches!(result, Ok(())));
    assert_eq!(stream.close(), 2);
    assert_eq!(&buf[..2], [1, 2]);
}

#[test]
fn a_cell_that_is_written_into_is_not_read() {
    let cell = RefCell::new(0x0102u16);
    let writer = cell.borrow_mut();
    let busy = cell.try_borrow().err().unwrap();
    let mut buf = [0u8; 4];
    let mut stream = OStream::new(&mut buf);
    let result = encode_borrowed::<u16>(Err(busy), &mut stream);
    assert!(matches!(result, Err(RefCellEncodeError::Borrow(_))));
    assert_eq!(stream.close(), 0);
    drop(writer);
}

#[test]
fn a_cell_passes_the_failure_of_its_contents_on() {
    let cell = RefCell::new(70000usize);
    let mut buf = [0u8; 4];
    let mut stream = OStream::new(&mut buf);
    let borrowed = cell.try_borrow().unwrap();
    let result = encode_borrowed(Ok(&*borrowed), &mut stream);
    assert!(matches!(result, Err(RefCellEncodeError::Value(UsizeEncodeError(70000)))));
    assert_eq!(stream.close(), 0);
}
