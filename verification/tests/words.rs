use librum::describe::Describe;
use librum::discriminant::AssignError;
use librum::error::{
    CollectionDecodeError, CollectionEncodeError, EnumDecodeError, EnumEncodeError,
    FieldDecodeError, FieldEncodeError, GenericDecodeError, GenericEncodeError, IsizeEncodeError,
    ItemDecodeError, ItemEncodeError, RefCellEncodeError, UsizeEncodeError,
};
use std::cell::RefCell;
use librum::Error;
use std::convert::Infallible;

#[test]
fn leaf_failures_are_told() {
    assert_eq!(
        Error::EndOfDStream { len: 0, ok_len: 2 }.describe(),
        "(2) byte(s) were requested but only (0) byte(s) were left"
    );
    assert_eq!(Error::InvalidBoolean { value: 7 }.describe(), "expected a boolean but got `7`");
    assert_eq!(
        Error::InvalidCodePoint { value: 55296 }.describe(),
        "code point `55296` is not a character"
    );
    assert_eq!(Error::BadString.describe(), "text is not valid UTF-8");
}

#[test]
fn sizes_that_do_not_fit_are_told() {
    assert_eq!(
        UsizeEncodeError(70000).describe(),
        "size `70000` cannot be written on sixteen bits"
    );
    assert_eq!(
        IsizeEncodeError(-40000).describe(),
        "signed size `-40000` cannot be written on sixteen bits"
    );
}

#[test]
fn an_item_failure_names_the_place_and_the_cause() {
    let error = ItemEncodeError { index: 12usize, error: UsizeEncodeError(65536) };
    assert_eq!(
        error.describe(),
        "could not encode item at `12`: size `65536` cannot be written on sixteen bits"
    );
    let error = ItemDecodeError { index: 0usize, error: Error::BadString };
    assert_eq!(error.describe(), "could not decode item at `0`: text is not valid UTF-8");
    assert_eq!(
        (3usize, UsizeEncodeError(65536)).describe(),
        "could not encode item at `3`: size `65536` cannot be written on sixteen bits"
    );
}

#[test]
fn a_collection_failure_tells_its_part() {
    type Encoding = CollectionEncodeError<UsizeEncodeError, ItemEncodeError<usize, Infallible>>;
    let error: Encoding = CollectionEncodeError::Length(UsizeEncodeError(99999));
    assert_eq!(
        error.describe(),
        "could not encode collection length: size `99999` cannot be written on sixteen bits"
    );
    type Decoding = CollectionDecodeError<Error, ItemDecodeError<usize, Error>>;
    let error: Decoding = CollectionDecodeError::Item(ItemDecodeError {
        index: 4,
        error: Error::EndOfDStream { len: 1, ok_len: 8 },
    });
    assert_eq!(
        error.describe(),
        "could not decode collection: could not decode item at `4`: (8) byte(s) were requested but only (1) byte(s) were left"
    );
    let error: Decoding = CollectionDecodeError::Length(Error::EndOfDStream { len: 0, ok_len: 2 });
    assert_eq!(
        error.describe(),
        "could not decode collection length: (2) byte(s) were requested but only (0) byte(s) were left"
    );
}

#[test]
fn an_enumeration_failure_tells_its_part() {
    let error: EnumEncodeError<usize, Infallible> =
        EnumEncodeError::Discriminant(UsizeEncodeError(65536));
    assert_eq!(
        error.describe(),
        "could not encode discriminant: size `65536` cannot be written on sixteen bits"
    );
    let error: EnumEncodeError<u8, UsizeEncodeError> = EnumEncodeError::Field(UsizeEncodeError(65536));
    assert_eq!(
        error.describe(),
        "could not encode field: size `65536` cannot be written on sixteen bits"
    );
    let error: EnumDecodeError<i16, Error> = EnumDecodeError::UnassignedDiscriminant { value: -3 };
    assert_eq!(error.describe(), "discriminant `-3` is not assigned to any variant");
    let error: EnumDecodeError<i16, Error> =
        EnumDecodeError::InvalidDiscriminant(Error::EndOfDStream { len: 1, ok_len: 2 });
    assert_eq!(
        error.describe(),
        "could not decode discriminant: (2) byte(s) were requested but only (1) byte(s) were left"
    );
    let error: EnumDecodeError<u8, Error> = EnumDecodeError::Field(Error::InvalidBoolean { value: 2 });
    assert_eq!(error.describe(), "could not decode field: expected a boolean but got `2`");
    let error: EnumDecodeError<bool, Error> = EnumDecodeError::UnassignedDiscriminant { value: true };
    assert_eq!(error.describe(), "discriminant `true` is not assigned to any variant");
}

#[test]
fn numbers_are_told_in_decimal() {
    assert_eq!(0u8.describe(), "0");
    assert_eq!(255u8.describe(), "255");
    assert_eq!(u16::MAX.describe(), "65535");
    assert_eq!(u32::MAX.describe(), "4294967295");
    assert_eq!(u64::MAX.describe(), u64::MAX.to_string());
    assert_eq!(u128::MAX.describe(), u128::MAX.to_string());
    assert_eq!(usize::MAX.describe(), usize::MAX.to_string());
    assert_eq!(i8::MIN.describe(), "-128");
    assert_eq!((-1i16).describe(), "-1");
    assert_eq!(i32::MIN.describe(), i32::MIN.to_string());
    assert_eq!(i64::MIN.describe(), i64::MIN.to_string());
    assert_eq!(i128::MIN.describe(), i128::MIN.to_string());
    assert_eq!(i128::MAX.describe(), i128::MAX.to_string());
    assert_eq!(isize::MIN.describe(), isize::MIN.to_string());
    assert_eq!(false.describe(), "false");
}

#[test]
fn a_failure_without_its_place_is_told() {
    assert_eq!(
        GenericDecodeError::Leaf(Error::BadString).describe(),
        "text is not valid UTF-8"
    );
    assert_eq!(
        GenericDecodeError::UnassignedDiscriminant.describe(),
        "discriminant is not assigned to any variant"
    );
}

#[test]
fn every_failure_of_reading_loses_its_place_on_request() {
    let leaf = Error::InvalidBoolean { value: 3 };
    assert_eq!(GenericDecodeError::from(leaf), GenericDecodeError::Leaf(leaf));
    let item = ItemDecodeError { index: 9usize, error: leaf };
    assert_eq!(GenericDecodeError::from(item.clone()), GenericDecodeError::Leaf(leaf));
    let collection: CollectionDecodeError<Error, ItemDecodeError<usize, Error>> =
        CollectionDecodeError::Item(item);
    assert_eq!(GenericDecodeError::from(collection), GenericDecodeError::Leaf(leaf));
    let length: CollectionDecodeError<Error, Error> =
        CollectionDecodeError::Length(Error::EndOfDStream { len: 0, ok_len: 2 });
    assert_eq!(
        GenericDecodeError::from(length),
        GenericDecodeError::Leaf(Error::EndOfDStream { len: 0, ok_len: 2 })
    );
    let unassigned: EnumDecodeError<u8, Error> = EnumDecodeError::UnassignedDiscriminant { value: 8 };
    assert_eq!(GenericDecodeError::from(unassigned), GenericDecodeError::UnassignedDiscriminant);
    let field: EnumDecodeError<u8, Error> = EnumDecodeError::Field(leaf);
    assert_eq!(GenericDecodeError::from(field), GenericDecodeError::Leaf(leaf));
    let invalid: EnumDecodeError<u8, Error> = EnumDecodeError::InvalidDiscriminant(leaf);
    assert_eq!(GenericDecodeError::from(invalid), GenericDecodeError::Leaf(leaf));
}

#[test]
fn every_failure_of_writing_loses_its_place_on_request() {
    let size = UsizeEncodeError(70000);
    let signed = IsizeEncodeError(-40000);
    assert_eq!(GenericEncodeError::from(size), GenericEncodeError::Usize(size));
    assert_eq!(GenericEncodeError::from(signed), GenericEncodeError::Isize(signed));
    let item = ItemEncodeError { index: 9usize, error: signed };
    assert_eq!(GenericEncodeError::from(item.clone()), GenericEncodeError::Isize(signed));
    assert_eq!(GenericEncodeError::from((4usize, size)), GenericEncodeError::Usize(size));
    let collection: CollectionEncodeError<UsizeEncodeError, ItemEncodeError<usize, IsizeEncodeError>> =
        CollectionEncodeError::Item(item);
    assert_eq!(GenericEncodeError::from(collection), GenericEncodeError::Isize(signed));
    let length: CollectionEncodeError<UsizeEncodeError, IsizeEncodeError> =
        CollectionEncodeError::Length(size);
    assert_eq!(GenericEncodeError::from(length), GenericEncodeError::Usize(size));
    let discriminant: EnumEncodeError<usize, IsizeEncodeError> = EnumEncodeError::Discriminant(size);
    assert_eq!(GenericEncodeError::from(discriminant), GenericEncodeError::Usize(size));
    let field: EnumEncodeError<usize, IsizeEncodeError> = EnumEncodeError::Field(signed);
    assert_eq!(GenericEncodeError::from(field), GenericEncodeError::Isize(signed));
    let named = FieldEncodeError { field: "a", error: size };
    assert_eq!(GenericEncodeError::from(named), GenericEncodeError::Usize(size));
    let named = FieldDecodeError { field: "a", error: Error::BadString };
    assert_eq!(GenericDecodeError::from(named), GenericDecodeError::Leaf(Error::BadString));
}

#[test]
fn a_field_failure_names_the_field_and_the_cause() {
    let error = FieldEncodeError { field: "size", error: UsizeEncodeError(65536) };
    assert_eq!(
        error.describe(),
        "could not encode field `size`: size `65536` cannot be written on sixteen bits"
    );
    assert_eq!(error.source(), Some(&UsizeEncodeError(65536)));
    let error = FieldDecodeError { field: "0", error: GenericDecodeError::Leaf(Error::BadString) };
    assert_eq!(error.describe(), "could not decode field `0`: text is not valid UTF-8");
    assert_eq!(error.source(), Some(&GenericDecodeError::Leaf(Error::BadString)));
}

#[test]
fn a_failure_of_writing_without_its_place_is_told() {
    assert_eq!(
        GenericEncodeError::Usize(UsizeEncodeError(65536)).describe(),
        "size `65536` cannot be written on sixteen bits"
    );
    assert_eq!(
        GenericEncodeError::Isize(IsizeEncodeError(-32769)).describe(),
        "signed size `-32769` cannot be written on sixteen bits"
    );
}

#[test]
fn a_cell_failure_is_told() {
    let cell = RefCell::new(1u8);
    let writer = cell.borrow_mut();
    let busy: RefCellEncodeError<UsizeEncodeError> =
        RefCellEncodeError::Borrow(cell.try_borrow().err().unwrap());
    assert_eq!(busy.describe(), "cell is being written into");
    drop(writer);
    let value: RefCellEncodeError<UsizeEncodeError> =
        RefCellEncodeError::Value(UsizeEncodeError(65536));
    assert_eq!(
        value.describe(),
        "could not encode the contents of the cell: size `65536` cannot be written on sixteen bits"
    );
}

#[test]
fn a_numbering_failure_is_told() {
    assert_eq!(
        AssignError::OutOfRange { variant: 3 }.describe(),
        "discriminant of variant `3` is out of range"
    );
    assert_eq!(
        AssignError::Duplicate { variant: 2, earlier: 0 }.describe(),
        "discriminant of variant `2` is already that of variant `0`"
    );
}
