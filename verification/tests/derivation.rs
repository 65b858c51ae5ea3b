use librum::derive::{DataEnum, Fields, Variant};
use librum::discriminant::{AssignError, Discriminant, Discriminants};
use librum::repr::Attribute;
use librum::{decode_enum, Repr};
use proc_macro2::{Span, TokenStream};

const ALL: [Repr; 12] = [
    Repr::U8,
    Repr::I8,
    Repr::U16,
    Repr::I16,
    Repr::U32,
    Repr::I32,
    Repr::U64,
    Repr::I64,
    Repr::U128,
    Repr::I128,
    Repr::Usize,
    Repr::Isize,
];

const NAMES: [&str; 12] = [
    "u8", "i8", "u16", "i16", "u32", "i32", "u64", "i64", "u128", "i128", "usize", "isize",
];

fn attribute(path: &str, arguments: &[&str]) -> Attribute {
    Attribute {
        path: path.to_string(),
        arguments: arguments.iter().map(|name| name.to_string()).collect(),
    }
}

fn numbers(table: &Discriminants) -> Vec<Discriminant> {
    (0..table.len()).map(|place| table.get(place)).collect()
}

#[test]
fn every_kind_has_the_name_of_its_type() {
    for (repr, name) in ALL.iter().zip(NAMES) {
        assert_eq!(repr.to_str(), name);
    }
}

#[test]
fn every_kind_is_found_by_its_name() {
    for (repr, name) in ALL.iter().zip(NAMES) {
        assert_eq!(Repr::from_name(name), Some(*repr));
        assert_eq!(Repr::from_name(repr.to_str()), Some(*repr));
    }
}

#[test]
fn other_names_are_no_kinds() {
    for name in ["", "C", "u", "u7", "U8", "u8 ", "f32", "bool", "align", "usiz", "isizes"] {
        assert_eq!(Repr::from_name(name), None);
    }
}

#[test]
fn the_default_kind_is_the_signed_size() {
    assert_eq!(Repr::default(), Repr::Isize);
}

#[test]
fn kinds_know_their_width_and_sign() {
    let widths = [1usize, 1, 2, 2, 4, 4, 8, 8, 16, 16, 2, 2];
    for ((repr, width), place) in ALL.iter().zip(widths).zip(0..) {
        assert_eq!(repr.width(), width);
        assert_eq!(repr.is_signed(), place % 2 == 1);
    }
    assert_eq!(Repr::U8.max(), 255);
    assert_eq!(Repr::I8.max(), 127);
    assert_eq!(Repr::U128.max(), u128::MAX);
    assert_eq!(Repr::I128.max(), i128::MAX as u128);
    assert_eq!(Repr::Usize.max(), usize::MAX as u128);
    assert_eq!(Repr::Isize.max(), isize::MAX as u128);
}

#[test]
fn a_kind_becomes_an_identifier_a_path_and_a_type() {
    for (repr, name) in ALL.iter().zip(NAMES) {
        assert_eq!(repr.to_ident(Span::call_site()).to_string(), name);
        let path = repr.to_path(Span::call_site());
        assert!(path.is_ident(name));
        assert!(path.leading_colon.is_none());
        assert_eq!(path.segments.len(), 1);
        match repr.to_type(Span::call_site()) {
            syn::Type::Path(ty) => {
                assert!(ty.qself.is_none());
                assert!(ty.path.is_ident(name));
            }
            _ => panic!("a kind is a path type"),
        }
    }
}

#[test]
fn no_attribute_chooses_no_kind() {
    assert_eq!(Repr::get(&[]), None);
    assert_eq!(Repr::get(&[attribute("derive", &["Debug"]), attribute("doc", &[])]), None);
    assert_eq!(Repr::get(&[attribute("repr", &[])]), None);
}

#[test]
fn the_repr_attribute_chooses_the_kind() {
    assert_eq!(Repr::get(&[attribute("repr", &["u8"])]), Some(Repr::U8));
    assert_eq!(
        Repr::get(&[attribute("derive", &["Clone"]), attribute("repr", &["i64"])]),
        Some(Repr::I64)
    );
}

#[test]
fn the_last_name_counts() {
    assert_eq!(Repr::get(&[attribute("repr", &["u8", "i16"])]), Some(Repr::I16));
    assert_eq!(
        Repr::get(&[attribute("repr", &["u8"]), attribute("repr", &["usize"])]),
        Some(Repr::Usize)
    );
    assert_eq!(
        Repr::get(&[attribute("repr", &["u32"]), attribute("repr", &[]), attribute("x", &["C"])]),
        Some(Repr::U32)
    );
}

#[test]
fn a_name_that_is_no_kind_is_found() {
    assert_eq!(Repr::offending(&[attribute("repr", &["u8"])]), None);
    assert_eq!(Repr::offending(&[attribute("other", &["C"])]), None);
    assert_eq!(Repr::offending(&[attribute("repr", &["C"])]), Some((0, 0)));
    assert_eq!(
        Repr::offending(&[
            attribute("derive", &["Debug"]),
            attribute("repr", &["u8", "packed", "align"]),
            attribute("repr", &["C"]),
        ]),
        Some((1, 1))
    );
}

#[test]
fn variants_count_up_from_zero() {
    let table = Discriminants::new(&[None, None, None], Repr::U8).unwrap();
    assert_eq!(
        numbers(&table),
        [Discriminant::Natural(0), Discriminant::Natural(1), Discriminant::Natural(2)]
    );
    assert_eq!(Discriminants::new(&[], Repr::U8).unwrap().len(), 0);
}

#[test]
fn counting_goes_on_from_a_named_value() {
    let explicit = [None, Some(Discriminant::Natural(5)), None, Some(Discriminant::Natural(2)), None];
    let table = Discriminants::new(&explicit, Repr::Isize).unwrap();
    assert_eq!(
        numbers(&table),
        [0u128, 5, 6, 2, 3].map(Discriminant::Natural)
    );
}

#[test]
fn counting_goes_up_through_zero() {
    let explicit = [Some(Discriminant::from_i128(-2)), None, None, None];
    let table = Discriminants::new(&explicit, Repr::I8).unwrap();
    assert_eq!(
        numbers(&table),
        [
            Discriminant::Negative(1),
            Discriminant::Negative(0),
            Discriminant::Natural(0),
            Discriminant::Natural(1)
        ]
    );
    assert_eq!(table.find(Discriminant::from_i128(-1)), Some(1));
    assert_eq!(table.find(Discriminant::from_i128(0)), Some(2));
    assert_eq!(table.find(Discriminant::from_i128(2)), None);
}

#[test]
fn two_variants_with_one_value_are_refused() {
    let explicit = [None, None, Some(Discriminant::Natural(1))];
    assert_eq!(
        Discriminants::new(&explicit, Repr::U8).unwrap_err(),
        AssignError::Duplicate { variant: 2, earlier: 1 }
    );
    let explicit = [Some(Discriminant::Natural(1)), Some(Discriminant::Natural(0)), None];
    assert_eq!(
        Discriminants::new(&explicit, Repr::U8).unwrap_err(),
        AssignError::Duplicate { variant: 2, earlier: 0 }
    );
}

#[test]
fn a_value_out_of_the_kind_is_refused() {
    let explicit = [Some(Discriminant::Natural(255)), None];
    assert_eq!(
        Discriminants::new(&explicit, Repr::U8).unwrap_err(),
        AssignError::OutOfRange { variant: 1 }
    );
    assert!(Discriminants::new(&explicit, Repr::U16).is_ok());
    assert_eq!(
        Discriminants::new(&[Some(Discriminant::from_i128(-1))], Repr::U64).unwrap_err(),
        AssignError::OutOfRange { variant: 0 }
    );
    assert_eq!(
        Discriminants::new(&[None, Some(Discriminant::from_i128(-129))], Repr::I8).unwrap_err(),
        AssignError::OutOfRange { variant: 1 }
    );
    assert!(Discriminants::new(&[Some(Discriminant::from_i128(-128))], Repr::I8).is_ok());
    assert_eq!(
        Discriminants::new(&[Some(Discriminant::from_u128(u128::MAX)), None], Repr::U128)
            .unwrap_err(),
        AssignError::OutOfRange { variant: 1 }
    );
}

#[test]
fn values_know_what_they_fit() {
    assert!(Discriminant::from_u128(u128::MAX).fits(Repr::U128));
    assert!(!Discriminant::from_u128(u128::MAX).fits(Repr::I128));
    assert!(Discriminant::from_i128(i128::MIN).fits(Repr::I128));
    assert!(!Discriminant::from_i128(i128::MIN).fits(Repr::I64));
    assert!(Discriminant::from_i128(32767).fits(Repr::I16));
    assert!(!Discriminant::from_i128(32768).fits(Repr::I16));
    assert_eq!(Discriminant::from_i128(-1).successor(), Some(Discriminant::Natural(0)));
    assert_eq!(Discriminant::from_i128(-9).successor(), Some(Discriminant::from_i128(-8)));
    assert_eq!(Discriminant::from_u128(u128::MAX).successor(), None);
}

#[test]
fn values_turn_their_sign() {
    assert_eq!(Discriminant::Natural(0).negated(), Some(Discriminant::Natural(0)));
    assert_eq!(Discriminant::Natural(1).negated(), Some(Discriminant::Negative(0)));
    assert_eq!(Discriminant::Natural(7).negated(), Some(Discriminant::from_i128(-7)));
    assert_eq!(Discriminant::from_i128(-7).negated(), Some(Discriminant::Natural(7)));
    assert_eq!(
        Discriminant::from_u128(u128::MAX).negated(),
        Some(Discriminant::Negative(u128::MAX - 1))
    );
    assert_eq!(
        Discriminant::Negative(u128::MAX - 1).negated(),
        Some(Discriminant::Natural(u128::MAX))
    );
    assert_eq!(Discriminant::Negative(u128::MAX).negated(), None);
}

#[test]
fn values_are_spelt_in_decimal() {
    assert_eq!(Discriminant::from_u128(0).to_text(), "0");
    assert_eq!(Discriminant::from_u128(7).to_text(), "7");
    assert_eq!(Discriminant::from_u128(10).to_text(), "10");
    assert_eq!(Discriminant::from_u128(1_234_567_890).to_text(), "1234567890");
    assert_eq!(Discriminant::from_u128(u128::MAX).to_text(), u128::MAX.to_string());
    assert_eq!(Discriminant::from_i128(-1).to_text(), "-1");
    assert_eq!(Discriminant::from_i128(-9).to_text(), "-9");
    assert_eq!(Discriminant::from_i128(-10).to_text(), "-10");
    assert_eq!(Discriminant::from_i128(-100).to_text(), "-100");
    assert_eq!(Discriminant::from_i128(-1099).to_text(), "-1099");
    assert_eq!(Discriminant::from_i128(i128::MIN).to_text(), i128::MIN.to_string());
    assert_eq!(
        Discriminant::Negative(u128::MAX).to_text(),
        "-340282366920938463463374607431768211456"
    );
}

const COMMAND: &str = "::librum::Decode::decode(stream).map_err(::core::convert::Into::<::librum::error::GenericDecodeError>::into).map_err(::librum::error::EnumDecodeError::Field)?";

fn shapes() -> DataEnum {
    DataEnum {
        variants: vec![
            Variant { ident: "Point".to_string(), fields: Fields::Unit, discriminant: None },
            Variant {
                ident: "Circle".to_string(),
                fields: Fields::Unnamed(1),
                discriminant: Some(Discriminant::from_i128(-7)),
            },
            Variant {
                ident: "Rect".to_string(),
                fields: Fields::Named(vec!["width".to_string(), "height".to_string()]),
                discriminant: None,
            },
        ],
    }
}

#[test]
fn the_derived_reader_is_spelt_out() {
    let expected = format!(
        "type Error = ::librum::error::EnumDecodeError<i16, ::librum::error::GenericDecodeError>; \
         type Model = Self; \
         #[inline] fn decode(stream: &mut ::librum::DStream) -> ::core::result::Result<Self, Self::Error> {{ \
         let discriminant = <i16 as ::librum::Decode>::decode(stream).map_err(::librum::error::EnumDecodeError::InvalidDiscriminant)?; \
         let this = match discriminant {{ \
         0 => Self::Point, \
         -7 => Self::Circle ({c}, ), \
         -6 => Self::Rect {{ width: {c}, height: {c}, }}, \
         value => return ::core::result::Result::Err(::librum::error::EnumDecodeError::UnassignedDiscriminant {{ value }}), \
         }}; \
         ::core::result::Result::Ok(this) }}",
        c = COMMAND
    );
    assert_eq!(decode_enum(&shapes(), Repr::I16), expected);
}

#[test]
fn the_derived_reader_of_an_empty_enumeration_has_no_arms() {
    let code = decode_enum(&DataEnum { variants: vec![] }, Repr::U8);
    assert!(code.contains("let this = match discriminant { value => return"));
    assert!(code.starts_with("type Error = ::librum::error::EnumDecodeError<u8, "));
    assert!(code.contains("<u8 as ::librum::Decode>::decode(stream)"));
}

#[test]
fn the_derived_reader_is_made_of_tokens() {
    for repr in ALL {
        let mut data = shapes();
        if !repr.is_signed() {
            data.variants[1].discriminant = Some(Discriminant::Natural(7));
        }
        let explicit: Vec<_> = data.variants.iter().map(|variant| variant.discriminant).collect();
        assert!(Discriminants::new(&explicit, repr).is_ok());
        let code = decode_enum(&data, repr);
        assert!(code.parse::<TokenStream>().is_ok());
    }
}

#[test]
fn a_variant_without_names_reads_as_many_fields_as_it_has() {
    let data = DataEnum {
        variants: vec![Variant {
            ident: "Triple".to_string(),
            fields: Fields::Unnamed(3),
            discriminant: Some(Discriminant::Natural(200)),
        }],
    };
    let code = decode_enum(&data, Repr::U8);
    let arm = format!("200 => Self::Triple ({c}, {c}, {c}, ), ", c = COMMAND);
    assert!(code.contains(&arm));
    assert_eq!(code.matches(COMMAND).count(), 3);
}
