use librum::derive::{DataEnum, DataStruct, Fields, Variant};
use librum::discriminant::Discriminant;
use librum::error::{
    EnumDecodeError, EnumEncodeError, FieldDecodeError, FieldEncodeError, GenericDecodeError,
    GenericEncodeError, UsizeEncodeError,
};
use librum::field::{decode_field, encode_field};
use librum::{decode_enum, decode_struct, encode_enum, encode_struct};
use librum::{DStream, Decode, Encode, Error, OStream, Repr};
use proc_macro2::TokenStream;

fn tokens(text: &str) -> String {
    text.parse::<TokenStream>().unwrap().to_string()
}

fn written<T: Encode>(value: &T) -> (Vec<u8>, Result<(), T::Error>) {
    let mut buf = vec![0u8; 64];
    let mut stream = OStream::new(&mut buf);
    let result = value.encode(&mut stream);
    let len = stream.close();
    buf.truncate(len);
    (buf, result)
}

fn read<T: Decode>(bytes: &[u8]) -> (Result<T, T::Error>, usize) {
    let mut stream = DStream::new(bytes);
    let result = T::decode(&mut stream);
    (result, stream.remaining())
}

#[derive(Debug, PartialEq, Eq, Clone)]
struct Pixel {
    x: u16,
    on: bool,
    size: usize,
}

const PIXEL_ENCODE: &str = r#"
    type Error = ::librum::error::FieldEncodeError<::librum::error::GenericEncodeError>;

    #[inline]
    fn encode(&self, stream: &mut ::librum::OStream) -> ::core::result::Result<(), Self::Error> {
        ::librum::field::encode_field("x", &self.x, stream)?;
        ::librum::field::encode_field("on", &self.on, stream)?;
        ::librum::field::encode_field("size", &self.size, stream)?;
        ::core::result::Result::Ok(())
    }
"#;

impl Encode for Pixel {
    type Error = ::librum::error::FieldEncodeError<::librum::error::GenericEncodeError>;

    fn encode(&self, stream: &mut ::librum::OStream) -> ::core::result::Result<(), Self::Error> {
        ::librum::field::encode_field("x", &self.x, stream)?;
        ::librum::field::encode_field("on", &self.on, stream)?;
        ::librum::field::encode_field("size", &self.size, stream)?;
        ::core::result::Result::Ok(())
    }
}

const PIXEL_DECODE: &str = r#"
    type Error = ::librum::error::FieldDecodeError<::librum::error::GenericDecodeError>;
    type Model = Self;

    #[inline]
    fn decode(stream: &mut ::librum::DStream) -> ::core::result::Result<Self, Self::Error> {
        let this = Self {
            x: ::librum::field::decode_field("x", stream)?,
            on: ::librum::field::decode_field("on", stream)?,
            size: ::librum::field::decode_field("size", stream)?,
        };
        ::core::result::Result::Ok(this)
    }
"#;

impl Decode for Pixel {
    type Error = ::librum::error::FieldDecodeError<::librum::error::GenericDecodeError>;
    type Model = Self;

    fn decode(stream: &mut ::librum::DStream) -> ::core::result::Result<Self, Self::Error> {
        let this = Self {
            x: ::librum::field::decode_field("x", stream)?,
            on: ::librum::field::decode_field("on", stream)?,
            size: ::librum::field::decode_field("size", stream)?,
        };
        ::core::result::Result::Ok(this)
    }
}

fn pixel() -> DataStruct {
    DataStruct {
        fields: Fields::Named(vec!["x".to_string(), "on".to_string(), "size".to_string()]),
    }
}

#[derive(Debug, PartialEq, Eq, Clone)]
struct Pair(u8, i16);

const PAIR_ENCODE: &str = r#"
    type Error = ::librum::error::FieldEncodeError<::librum::error::GenericEncodeError>;

    #[inline]
    fn encode(&self, stream: &mut ::librum::OStream) -> ::core::result::Result<(), Self::Error> {
        ::librum::field::encode_field("0", &self.0, stream)?;
        ::librum::field::encode_field("1", &self.1, stream)?;
        ::core::result::Result::Ok(())
    }
"#;

impl Encode for Pair {
    type Error = ::librum::error::FieldEncodeError<::librum::error::GenericEncodeError>;

    fn encode(&self, stream: &mut ::librum::OStream) -> ::core::result::Result<(), Self::Error> {
        ::librum::field::encode_field("0", &self.0, stream)?;
        ::librum::field::encode_field("1", &self.1, stream)?;
        ::core::result::Result::Ok(())
    }
}

const PAIR_DECODE: &str = r#"
    type Error = ::librum::error::FieldDecodeError<::librum::error::GenericDecodeError>;
    type Model = Self;

    #[inline]
    fn decode(stream: &mut ::librum::DStream) -> ::core::result::Result<Self, Self::Error> {
        let this = Self (
            ::librum::field::decode_field("0", stream)?,
            ::librum::field::decode_field("1", stream)?,
        );
        ::core::result::Result::Ok(this)
    }
"#;

impl Decode for Pair {
    type Error = ::librum::error::FieldDecodeError<::librum::error::GenericDecodeError>;
    type Model = Self;

    fn decode(stream: &mut ::librum::DStream) -> ::core::result::Result<Self, Self::Error> {
        let this = Self (
            ::librum::field::decode_field("0", stream)?,
            ::librum::field::decode_field("1", stream)?,
        );
        ::core::result::Result::Ok(this)
    }
}

#[derive(Debug, PartialEq, Eq, Clone)]
struct Nothing;

impl Encode for Nothing {
    type Error = ::librum::error::FieldEncodeError<::librum::error::GenericEncodeError>;

    fn encode(&self, stream: &mut ::librum::OStream) -> ::core::result::Result<(), Self::Error> {
        ::core::result::Result::Ok(())
    }
}

impl Decode for Nothing {
    type Error = ::librum::error::FieldDecodeError<::librum::error::GenericDecodeError>;
    type Model = Self;

    fn decode(stream: &mut ::librum::DStream) -> ::core::result::Result<Self, Self::Error> {
        let this = Self;
        ::core::result::Result::Ok(this)
    }
}

#[derive(Debug, PartialEq, Eq, Clone)]
enum Shape {
    Point,
    Circle(usize),
    Rect { width: u8, height: u8 },
}

const SHAPE_ENCODE: &str = r#"
    type Error = ::librum::error::EnumEncodeError<i16, ::librum::error::GenericEncodeError>;

    #[inline]
    fn encode(&self, stream: &mut ::librum::OStream) -> ::core::result::Result<(), Self::Error> {
        match *self {
            Self::Point => {
                <i16 as ::librum::Encode>::encode(&(0), stream).map_err(::librum::error::EnumEncodeError::Discriminant)?;
            }
            Self::Circle (ref value0, ) => {
                <i16 as ::librum::Encode>::encode(&(-7), stream).map_err(::librum::error::EnumEncodeError::Discriminant)?;
                ::librum::Encode::encode(value0, stream).map_err(::core::convert::Into::<::librum::error::GenericEncodeError>::into).map_err(::librum::error::EnumEncodeError::Field)?;
            }
            Self::Rect { ref width, ref height, } => {
                <i16 as ::librum::Encode>::encode(&(-6), stream).map_err(::librum::error::EnumEncodeError::Discriminant)?;
                ::librum::Encode::encode(width, stream).map_err(::core::convert::Into::<::librum::error::GenericEncodeError>::into).map_err(::librum::error::EnumEncodeError::Field)?;
                ::librum::Encode::encode(height, stream).map_err(::core::convert::Into::<::librum::error::GenericEncodeError>::into).map_err(::librum::error::EnumEncodeError::Field)?;
            }
        }
        ::core::result::Result::Ok(())
    }
"#;

impl Encode for Shape {
    type Error = ::librum::error::EnumEncodeError<i16, ::librum::error::GenericEncodeError>;

    fn encode(&self, stream: &mut ::librum::OStream) -> ::core::result::Result<(), Self::Error> {
        match *self {
            Self::Point => {
                <i16 as ::librum::Encode>::encode(&(0), stream).map_err(::librum::error::EnumEncodeError::Discriminant)?;
            }
            Self::Circle (ref value0, ) => {
                <i16 as ::librum::Encode>::encode(&(-7), stream).map_err(::librum::error::EnumEncodeError::Discriminant)?;
                ::librum::Encode::encode(value0, stream).map_err(::core::convert::Into::<::librum::error::GenericEncodeError>::into).map_err(::librum::error::EnumEncodeError::Field)?;
            }
            Self::Rect { ref width, ref height, } => {
                <i16 as ::librum::Encode>::encode(&(-6), stream).map_err(::librum::error::EnumEncodeError::Discriminant)?;
                ::librum::Encode::encode(width, stream).map_err(::core::convert::Into::<::librum::error::GenericEncodeError>::into).map_err(::librum::error::EnumEncodeError::Field)?;
                ::librum::Encode::encode(height, stream).map_err(::core::convert::Into::<::librum::error::GenericEncodeError>::into).map_err(::librum::error::EnumEncodeError::Field)?;
            }
        }
        ::core::result::Result::Ok(())
    }
}

const SHAPE_DECODE: &str = r#"
    type Error = ::librum::error::EnumDecodeError<i16, ::librum::error::GenericDecodeError>;
    type Model = Self;

    #[inline]
    fn decode(stream: &mut ::librum::DStream) -> ::core::result::Result<Self, Self::Error> {
        let discriminant = <i16 as ::librum::Decode>::decode(stream).map_err(::librum::error::EnumDecodeError::InvalidDiscriminant)?;
        let this = match discriminant {
            0 => Self::Point,
            -7 => Self::Circle (::librum::Decode::decode(stream).map_err(::core::convert::Into::<::librum::error::GenericDecodeError>::into).map_err(::librum::error::EnumDecodeError::Field)?, ),
            -6 => Self::Rect { width: ::librum::Decode::decode(stream).map_err(::core::convert::Into::<::librum::error::GenericDecodeError>::into).map_err(::librum::error::EnumDecodeError::Field)?, height: ::librum::Decode::decode(stream).map_err(::core::convert::Into::<::librum::error::GenericDecodeError>::into).map_err(::librum::error::EnumDecodeError::Field)?, },
            value => return ::core::result::Result::Err(::librum::error::EnumDecodeError::UnassignedDiscriminant { value }),
        };
        ::core::result::Result::Ok(this)
    }
"#;

impl Decode for Shape {
    type Error = ::librum::error::EnumDecodeError<i16, ::librum::error::GenericDecodeError>;
    type Model = Self;

    fn decode(stream: &mut ::librum::DStream) -> ::core::result::Result<Self, Self::Error> {
        let discriminant = <i16 as ::librum::Decode>::decode(stream).map_err(::librum::error::EnumDecodeError::InvalidDiscriminant)?;
        let this = match discriminant {
            0 => Self::Point,
            -7 => Self::Circle (::librum::Decode::decode(stream).map_err(::core::convert::Into::<::librum::error::GenericDecodeError>::into).map_err(::librum::error::EnumDecodeError::Field)?, ),
            -6 => Self::Rect { width: ::librum::Decode::decode(stream).map_err(::core::convert::Into::<::librum::error::GenericDecodeError>::into).map_err(::librum::error::EnumDecodeError::Field)?, height: ::librum::Decode::decode(stream).map_err(::core::convert::Into::<::librum::error::GenericDecodeError>::into).map_err(::librum::error::EnumDecodeError::Field)?, },
            value => return ::core::result::Result::Err(::librum::error::EnumDecodeError::UnassignedDiscriminant { value }),
        };
        ::core::result::Result::Ok(this)
    }
}

fn shape() -> DataEnum {
    DataEnum {
        variants: vec![
            Variant { ident: "Point".to_string(), fields: Fields::Unit, discriminant: None },
            Variant {
                ident: "Circle".to_string(),
                fields: Fields::Unnamed(1),
                discriminant: Some(Discriminant::from_i128(-7)),
            },
            Variant {
                ident: "Rect".to_string(),
                fields: Fields::Named(vec!["width".to_string(), "height".to_string()]),
                discriminant: None,
            },
        ],
    }
}

#[test]
fn the_derived_items_of_a_structure_are_those_written_out_here() {
    assert_eq!(tokens(&encode_struct(&pixel())), tokens(PIXEL_ENCODE));
    assert_eq!(tokens(&decode_struct(&pixel())), tokens(PIXEL_DECODE));
    let pair = DataStruct { fields: Fields::Unnamed(2) };
    assert_eq!(tokens(&encode_struct(&pair)), tokens(PAIR_ENCODE));
    assert_eq!(tokens(&decode_struct(&pair)), tokens(PAIR_DECODE));
}

#[test]
fn the_derived_items_of_a_unit_structure_touch_no_field() {
    let unit = DataStruct { fields: Fields::Unit };
    assert_eq!(
        encode_struct(&unit),
        "type Error = ::librum::error::FieldEncodeError<::librum::error::GenericEncodeError>; \
         #[inline] fn encode(&self, stream: &mut ::librum::OStream) -> ::core::result::Result<(), Self::Error> { \
         ::core::result::Result::Ok(()) }"
    );
    assert_eq!(
        decode_struct(&unit),
        "type Error = ::librum::error::FieldDecodeError<::librum::error::GenericDecodeError>; \
         type Model = Self; \
         #[inline] fn decode(stream: &mut ::librum::DStream) -> ::core::result::Result<Self, Self::Error> { \
         let this = Self; ::core::result::Result::Ok(this) }"
    );
    assert_eq!(written(&Nothing), (vec![], Ok(())));
    assert_eq!(read::<Nothing>(&[1]), (Ok(Nothing), 1));
}

#[test]
fn the_derived_items_of_an_enumeration_are_those_written_out_here() {
    assert_eq!(tokens(&encode_enum(&shape(), Repr::I16)), tokens(SHAPE_ENCODE));
    assert_eq!(tokens(&decode_enum(&shape(), Repr::I16)), tokens(SHAPE_DECODE));
}

#[test]
fn a_structure_with_many_unnamed_fields_counts_them_in_decimal() {
    let code = encode_struct(&DataStruct { fields: Fields::Unnamed(12) });
    assert!(code.contains("::librum::field::encode_field(\"9\", &self.9, stream)?; "));
    assert!(code.contains("::librum::field::encode_field(\"10\", &self.10, stream)?; "));
    assert!(code.contains("::librum::field::encode_field(\"11\", &self.11, stream)?; "));
    assert!(!code.contains("\"12\""));
    let code = decode_struct(&DataStruct { fields: Fields::Unnamed(11) });
    assert!(code.contains("::librum::field::decode_field(\"10\", stream)?, )"));
}

#[test]
fn a_derived_structure_round_trips() {
    let value = Pixel { x: 300, on: true, size: 9 };
    let (bytes, result) = written(&value);
    assert_eq!(result, Ok(()));
    assert_eq!(bytes, [0x01, 0x2C, 0x01, 0, 9]);
    assert_eq!(read::<Pixel>(&bytes), (Ok(value), 0));
    let (bytes, result) = written(&Pair(7, -2));
    assert_eq!(result, Ok(()));
    assert_eq!(bytes, [7, 0xFF, 0xFE]);
    assert_eq!(read::<Pair>(&bytes), (Ok(Pair(7, -2)), 0));
}

#[test]
fn a_derived_structure_names_the_field_that_fails() {
    let (bytes, result) = written(&Pixel { x: 1, on: false, size: 70000 });
    assert_eq!(
        result,
        Err(FieldEncodeError {
            field: "size",
            error: GenericEncodeError::Usize(UsizeEncodeError(70000))
        })
    );
    assert_eq!(bytes, [0, 1, 0]);
    assert_eq!(
        read::<Pixel>(&[0, 1, 5, 0, 0]),
        (
            Err(FieldDecodeError {
                field: "on",
                error: GenericDecodeError::Leaf(Error::InvalidBoolean { value: 5 })
            }),
            2
        )
    );
    assert_eq!(
        read::<Pair>(&[9, 1]),
        (
            Err(FieldDecodeError {
                field: "1",
                error: GenericDecodeError::Leaf(Error::EndOfDStream { len: 1, ok_len: 2 })
            }),
            1
        )
    );
}

#[test]
fn a_derived_enumeration_round_trips_through_every_variant() {
    let shapes = [Shape::Point, Shape::Circle(300), Shape::Rect { width: 3, height: 4 }];
    let wires: [&[u8]; 3] = [&[0, 0], &[0xFF, 0xF9, 1, 0x2C], &[0xFF, 0xFA, 3, 4]];
    for (shape, wire) in shapes.iter().zip(wires) {
        let (bytes, result) = written(shape);
        assert_eq!(result, Ok(()));
        assert_eq!(bytes, wire);
        assert_eq!(read::<Shape>(&bytes), (Ok(shape.clone()), 0));
    }
}

#[test]
fn a_derived_enumeration_reports_what_went_wrong() {
    let (bytes, result) = written(&Shape::Circle(70000));
    assert_eq!(
        result,
        Err(EnumEncodeError::Field(GenericEncodeError::Usize(UsizeEncodeError(70000))))
    );
    assert_eq!(bytes, [0xFF, 0xF9]);
    assert_eq!(
        read::<Shape>(&[0, 1]),
        (Err(EnumDecodeError::UnassignedDiscriminant { value: 1 }), 0)
    );
    assert_eq!(
        read::<Shape>(&[0xFF]),
        (Err(EnumDecodeError::InvalidDiscriminant(Error::EndOfDStream { len: 1, ok_len: 2 })), 1)
    );
    assert_eq!(
        read::<Shape>(&[0xFF, 0xFA, 3]),
        (
            Err(EnumDecodeError::Field(GenericDecodeError::Leaf(Error::EndOfDStream {
                len: 0,
                ok_len: 1
            }))),
            0
        )
    );
}

#[test]
fn a_field_is_written_and_read_under_its_name() {
    let mut buf = [0u8; 4];
    let mut stream = OStream::new(&mut buf);
    assert_eq!(encode_field("a", &0x0102u16, &mut stream), Ok(()));
    assert_eq!(
        encode_field("b", &65536usize, &mut stream),
        Err(FieldEncodeError { field: "b", error: GenericEncodeError::Usize(UsizeEncodeError(65536)) })
    );
    assert_eq!(stream.close(), 2);
    let mut stream = DStream::new(&buf);
    assert_eq!(decode_field::<u16>("a", &mut stream), Ok(0x0102));
    assert_eq!(
        decode_field::<u32>("b", &mut stream),
        Err(FieldDecodeError {
            field: "b",
            error: GenericDecodeError::Leaf(Error::EndOfDStream { len: 2, ok_len: 4 })
        })
    );
}
