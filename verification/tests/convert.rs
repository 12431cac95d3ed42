use oiio::typedesc::bytes::read_le;
use oiio::typedesc::bytes::write_le;
use oiio::typedesc::text::integer_from_text;
use oiio::typedesc::text::integer_to_text;
use oiio::typedesc::text::is_decimal_literal;
use oiio::typedesc::text::unsigned_from_text;
use oiio::typedesc::Aggregate;
use oiio::typedesc::BaseType;
use oiio::typedesc::Conversion;
use oiio::typedesc::Decimals;
use oiio::typedesc::TypeDesc;
use oiio::typedesc::Values;
use oiio::typedesc::VecSemantics;

fn nothing() -> Decimals {
    Decimals { texts: vec![], floats: vec![] }
}

fn convert(srctype: TypeDesc, src: &[u8], dsttype: TypeDesc, dst: &mut [u8], n: i32) -> bool {
    let from = Values::Bytes(src.to_vec());
    let mut into = Values::Bytes(dst.to_vec());
    let ok = TypeDesc::convert_type(srctype, &from, dsttype, &mut into, n, &nothing());
    match into {
        Values::Bytes(after) => {
            assert_eq!(after.len(), dst.len());
            if !ok {
                assert_eq!(&after[..], &dst[..]);
            }
            dst.copy_from_slice(&after);
        },
        Values::Texts(_) => panic!("bytes became texts"),
    }
    ok
}

fn texts(all: &[&str]) -> Values {
    Values::Texts(all.iter().map(|t| t.to_string()).collect())
}

fn strings(all: &[&str]) -> Vec<String> {
    all.iter().map(|t| t.to_string()).collect()
}

fn plain(b: BaseType) -> TypeDesc {
    TypeDesc::new(b, Aggregate::Scalar, VecSemantics::NoSemantics, 0)
}

#[test]
fn the_rule_goes_by_the_destination() {
    let int = plain(BaseType::Int32);
    assert_eq!(TypeDesc::conversion_rule(int, int), Conversion::Copy);
    assert_eq!(
        TypeDesc::conversion_rule(
            TypeDesc::new(BaseType::Float, Aggregate::Vec3, VecSemantics::Point, 2),
            TypeDesc::new(BaseType::Float, Aggregate::Vec3, VecSemantics::Color, 2)
        ),
        Conversion::Copy
    );
    assert_eq!(
        TypeDesc::conversion_rule(plain(BaseType::String), plain(BaseType::String)),
        Conversion::Copy
    );
    assert_eq!(TypeDesc::conversion_rule(int, plain(BaseType::String)), Conversion::Text);
    assert_eq!(
        TypeDesc::conversion_rule(plain(BaseType::LastBase), plain(BaseType::String)),
        Conversion::Text
    );
    assert_eq!(TypeDesc::conversion_rule(plain(BaseType::Float), int), Conversion::Integer);
    assert_eq!(
        TypeDesc::conversion_rule(plain(BaseType::String), plain(BaseType::UInt32)),
        Conversion::Integer
    );
    assert_eq!(
        TypeDesc::conversion_rule(TypeDesc::from_basetype_arraylen(BaseType::Int32, 2), int),
        Conversion::Integer
    );
    assert_eq!(TypeDesc::conversion_rule(int, plain(BaseType::Float)), Conversion::Float);
    assert_eq!(
        TypeDesc::conversion_rule(plain(BaseType::String), plain(BaseType::Float)),
        Conversion::Float
    );
    for other in [
        BaseType::Unknown,
        BaseType::Void,
        BaseType::UInt8,
        BaseType::Int8,
        BaseType::UInt16,
        BaseType::Int16,
        BaseType::UInt64,
        BaseType::Int64,
        BaseType::Half,
        BaseType::Double,
        BaseType::Ptr,
        BaseType::UStringHash,
        BaseType::LastBase,
    ] {
        assert_eq!(TypeDesc::conversion_rule(int, plain(other)), Conversion::Unsupported);
    }
}

#[test]
fn equivalent_types_are_copied() {
    let src_type = TypeDesc::new(BaseType::Float, Aggregate::Vec3, VecSemantics::Point, 0);
    let dst_type = TypeDesc::new(BaseType::Float, Aggregate::Vec3, VecSemantics::Normal, 0);
    let src: Vec<u8> = (1..=30).collect();
    let mut dst = vec![0xaau8; 28];
    assert!(convert(src_type, &src, dst_type, &mut dst, 2));
    assert_eq!(&dst[..24], &src[..24]);
    assert_eq!(&dst[24..], &[0xaa; 4]);
}

#[test]
fn a_copy_of_kinds_without_bytes_writes_nothing() {
    let unknown = plain(BaseType::Unknown);
    let mut dst = vec![7u8; 3];
    assert!(convert(unknown, &[], unknown, &mut dst, 1000));
    assert_eq!(dst, vec![7u8; 3]);
}

#[test]
fn pointers_are_copied_word_by_word() {
    let word = std::mem::size_of::<usize>();
    let pointer = plain(BaseType::Ptr);
    let src: Vec<u8> = (0..(2 * word as u8)).collect();
    let mut dst = vec![0u8; 2 * word];
    assert!(convert(pointer, &src, pointer, &mut dst, 2));
    assert_eq!(dst, src);
    let mut short = vec![0u8; 2 * word - 1];
    assert!(!convert(pointer, &src, pointer, &mut short, 2));
}

#[test]
fn strings_do_not_lie_in_bytes() {
    let string = plain(BaseType::String);
    let mut dst = vec![0u8; 16];
    assert!(!convert(string, &[0u8; 16], string, &mut dst, 1));
    assert!(!convert(string, &[0u8; 16], plain(BaseType::Int32), &mut dst, 1));
    assert!(!convert(plain(BaseType::Int32), &[0u8; 16], string, &mut dst, 1));
    let mut into = texts(&["a"]);
    assert!(!TypeDesc::convert_type(
        plain(BaseType::Int32),
        &texts(&["5"]),
        string,
        &mut into,
        1,
        &nothing()
    ));
    assert!(!TypeDesc::convert_type(
        plain(BaseType::Int32),
        &Values::Bytes(vec![0; 4]),
        plain(BaseType::Int32),
        &mut into,
        1,
        &nothing()
    ));
    assert_eq!(into, texts(&["a"]));
}

#[test]
fn no_elements_is_no_work() {
    let mut dst = [9u8; 4];
    assert!(convert(plain(BaseType::Int16), &[], plain(BaseType::Int32), &mut dst, 0));
    assert_eq!(dst, [9u8; 4]);
}

#[test]
fn a_negative_count_is_refused() {
    let int = plain(BaseType::Int32);
    let mut dst = [9u8; 8];
    assert!(!convert(int, &[0; 8], int, &mut dst, -1));
    assert!(!convert(int, &[0; 8], int, &mut dst, i32::MIN));
    assert_eq!(dst, [9u8; 8]);
}

#[test]
fn a_short_buffer_is_refused() {
    let int = plain(BaseType::Int32);
    let mut dst = [9u8; 8];
    assert!(!convert(int, &[0; 7], int, &mut dst, 2));
    assert!(!convert(int, &[0; 8], int, &mut dst, 3));
    assert!(!convert(int, &[0; 800], int, &mut dst, 3));
    assert!(!convert(int, &[0; 8], int, &mut dst, i32::MAX));
    assert!(!convert(plain(BaseType::Int8), &[0; 3], int, &mut dst, 3));
    assert_eq!(dst, [9u8; 8]);
    assert!(convert(plain(BaseType::Int8), &[0; 2], int, &mut dst, 2));
    assert_eq!(dst, [0u8; 8]);
}

#[test]
fn the_sentinel_kind_is_not_copied() {
    let last = plain(BaseType::LastBase);
    let mut dst = [9u8; 8];
    assert!(!convert(last, &[0; 8], last, &mut dst, 1));
    assert!(!convert(last, &[0; 8], last, &mut dst, 0));
    assert_eq!(dst, [9u8; 8]);
}

fn cast(kind: BaseType, src: &[u8], to: BaseType, n: i32) -> Option<Vec<u8>> {
    let mut dst = vec![0x55u8; 4 * n as usize + 2];
    if convert(plain(kind), src, plain(to), &mut dst, n) {
        assert_eq!(&dst[4 * n as usize..], &[0x55, 0x55]);
        dst.truncate(4 * n as usize);
        Some(dst)
    } else {
        assert_eq!(dst, vec![0x55u8; 4 * n as usize + 2]);
        None
    }
}

#[test]
fn integers_become_integers_of_32_bits() {
    for to in [BaseType::Int32, BaseType::UInt32] {
        for v in [0u8, 1, 127, 128, 255] {
            assert_eq!(cast(BaseType::UInt8, &[v], to, 1), Some((v as i32).to_le_bytes().to_vec()));
            assert_eq!(
                cast(BaseType::Int8, &[v], to, 1),
                Some((v as i8 as i32).to_le_bytes().to_vec())
            );
        }
        for v in [0u16, 1, 255, 256, 0x7fff, 0x8000, 0xfffe, 0xffff] {
            assert_eq!(
                cast(BaseType::UInt16, &v.to_le_bytes(), to, 1),
                Some((v as i32).to_le_bytes().to_vec())
            );
            assert_eq!(
                cast(BaseType::Int16, &v.to_le_bytes(), to, 1),
                Some((v as i16 as i32).to_le_bytes().to_vec())
            );
        }
        for v in [0u32, 5, 0x7fff_ffff, 0x8000_0000, 0xffff_ffff, 0x1234_5678] {
            assert_eq!(
                cast(BaseType::UInt32, &v.to_le_bytes(), BaseType::Int32, 1),
                Some((v as i32).to_le_bytes().to_vec())
            );
            assert_eq!(
                cast(BaseType::Int32, &v.to_le_bytes(), BaseType::UInt32, 1),
                Some(v.to_le_bytes().to_vec())
            );
        }
        for v in [
            0u64,
            5,
            0xffff_ffff,
            0x1_0000_0000,
            0x1234_5678_9abc_def0,
            0x7fff_ffff_ffff_ffff,
            0x8000_0000_0000_0000,
            0xffff_ffff_ffff_fffe,
            u64::MAX,
        ] {
            assert_eq!(
                cast(BaseType::UInt64, &v.to_le_bytes(), to, 1),
                Some((v as u32).to_le_bytes().to_vec())
            );
            assert_eq!(
                cast(BaseType::Int64, &v.to_le_bytes(), to, 1),
                Some((v as i64 as i32).to_le_bytes().to_vec())
            );
        }
    }
}

#[test]
fn a_negative_number_keeps_its_bits_as_an_unsigned_one() {
    assert_eq!(
        cast(BaseType::Int16, &(-2i16).to_le_bytes(), BaseType::UInt32, 1),
        Some(vec![0xfe, 0xff, 0xff, 0xff])
    );
    assert_eq!(
        cast(BaseType::Int8, &[0x80], BaseType::Int32, 1),
        Some((-128i32).to_le_bytes().to_vec())
    );
}

#[test]
fn every_element_is_cast_in_its_place() {
    let values: [i16; 5] = [-3, 2, i16::MIN, i16::MAX, 0];
    let src: Vec<u8> = values.iter().flat_map(|v| v.to_le_bytes()).collect();
    let expected: Vec<u8> = values.iter().flat_map(|v| (*v as i32).to_le_bytes()).collect();
    assert_eq!(cast(BaseType::Int16, &src, BaseType::Int32, 5), Some(expected));
}

#[test]
fn aggregates_are_cast_scalar_by_scalar() {
    let src_type = TypeDesc::new(BaseType::UInt8, Aggregate::Vec3, VecSemantics::Color, 0);
    let dst_type = TypeDesc::new(BaseType::Int32, Aggregate::Vec3, VecSemantics::NoSemantics, 7);
    let src = [1u8, 2, 3, 254, 255, 0];
    let mut dst = [0x55u8; 25];
    assert!(convert(src_type, &src, dst_type, &mut dst, 2));
    let expected: Vec<u8> =
        [1i32, 2, 3, 254, 255, 0].iter().flat_map(|v| v.to_le_bytes()).collect();
    assert_eq!(&dst[..24], &expected[..]);
    assert_eq!(dst[24], 0x55);
}

#[test]
fn aggregates_of_different_shape_are_not_cast() {
    let src_type = TypeDesc::new(BaseType::UInt8, Aggregate::Vec3, VecSemantics::Color, 0);
    let dst_type = plain(BaseType::Int32);
    let mut dst = [0x55u8; 24];
    assert!(!convert(src_type, &[0; 24], dst_type, &mut dst, 1));
    assert_eq!(dst, [0x55u8; 24]);
}

#[test]
fn kinds_without_a_rule_do_not_convert() {
    let mut dst = [0x55u8; 16];
    let src = [0u8; 16];
    for (from, to) in [
        (BaseType::Ptr, BaseType::Int32),
        (BaseType::Ptr, BaseType::Float),
        (BaseType::UStringHash, BaseType::UInt32),
        (BaseType::Void, BaseType::Int32),
        (BaseType::Unknown, BaseType::Float),
        (BaseType::LastBase, BaseType::Int32),
        (BaseType::Int32, BaseType::Int64),
        (BaseType::Int32, BaseType::Int16),
        (BaseType::Float, BaseType::Double),
        (BaseType::Float, BaseType::Half),
        (BaseType::UInt8, BaseType::Half),
        (BaseType::Int32, BaseType::Ptr),
        (BaseType::Int32, BaseType::Void),
    ] {
        assert!(!convert(plain(from), &src, plain(to), &mut dst, 1), "{:?} {:?}", from, to);
        assert_eq!(dst, [0x55u8; 16]);
    }
}

fn to_text(kind: BaseType, src: &[u8], supplied: &[&str]) -> Option<String> {
    let mut into = texts(&["before", "behind"]);
    let decimals = Decimals { texts: strings(supplied), floats: vec![] };
    let ok = TypeDesc::convert_type(
        plain(kind),
        &Values::Bytes(src.to_vec()),
        plain(BaseType::String),
        &mut into,
        1,
        &decimals,
    );
    match into {
        Values::Texts(after) => {
            assert_eq!(after.len(), 2);
            assert_eq!(after[1], "behind");
            if ok {
                Some(after[0].clone())
            } else {
                assert_eq!(after[0], "before");
                None
            }
        },
        Values::Bytes(_) => panic!("texts became bytes"),
    }
}

#[test]
fn a_float_becomes_the_text_that_was_supplied_for_it() {
    let value = 3.25f32;
    let supplied = value.to_string();
    assert_eq!(supplied, "3.25");
    assert_eq!(
        to_text(BaseType::Float, &value.to_le_bytes(), &[&supplied]),
        Some("3.25".to_string())
    );
    assert_eq!(
        to_text(BaseType::Double, &(-0.5f64).to_le_bytes(), &["-0.5", "more"]),
        Some("-0.5".to_string())
    );
    assert_eq!(to_text(BaseType::Half, &[0x00, 0x3c], &["1"]), Some("1".to_string()));
    assert_eq!(to_text(BaseType::Float, &value.to_le_bytes(), &[]), None);
    assert_eq!(to_text(BaseType::Float, &[0u8; 3], &["3.25"]), None);
}

#[test]
fn every_kind_with_a_size_becomes_text() {
    assert_eq!(to_text(BaseType::Int32, &5i32.to_le_bytes(), &[]), Some("5".to_string()));
    assert_eq!(to_text(BaseType::Int32, &(-5i32).to_le_bytes(), &[]), Some("-5".to_string()));
    assert_eq!(to_text(BaseType::Int32, &i32::MIN.to_le_bytes(), &[]), Some("-2147483648".to_string()));
    assert_eq!(to_text(BaseType::UInt32, &u32::MAX.to_le_bytes(), &[]), Some("4294967295".to_string()));
    assert_eq!(to_text(BaseType::UInt8, &[200], &[]), Some("200".to_string()));
    assert_eq!(to_text(BaseType::Int8, &[200], &[]), Some("-56".to_string()));
    assert_eq!(to_text(BaseType::UInt16, &[0xff, 0xff], &[]), Some("65535".to_string()));
    assert_eq!(to_text(BaseType::Int16, &[0xff, 0xff], &[]), Some("-1".to_string()));
    assert_eq!(
        to_text(BaseType::UInt64, &u64::MAX.to_le_bytes(), &[]),
        Some("18446744073709551615".to_string())
    );
    assert_eq!(
        to_text(BaseType::Int64, &i64::MIN.to_le_bytes(), &[]),
        Some("-9223372036854775808".to_string())
    );
    assert_eq!(to_text(BaseType::Int64, &0i64.to_le_bytes(), &[]), Some("0".to_string()));
    assert_eq!(
        to_text(BaseType::UStringHash, &77u64.to_le_bytes(), &[]),
        Some("77".to_string())
    );
    assert_eq!(
        to_text(BaseType::Ptr, &4096usize.to_le_bytes(), &[]),
        Some("4096".to_string())
    );
    assert_eq!(to_text(BaseType::Unknown, &[], &[]), Some(String::new()));
    assert_eq!(to_text(BaseType::Void, &[], &[]), Some(String::new()));
    assert_eq!(to_text(BaseType::LastBase, &[0; 8], &[]), None);
    assert_eq!(to_text(BaseType::Int32, &[0; 3], &[]), None);
}

#[test]
fn aggregates_become_texts_scalar_by_scalar() {
    let src_type = TypeDesc::new(BaseType::Int16, Aggregate::Vec3, VecSemantics::Color, 0);
    let dst_type = TypeDesc::new(BaseType::String, Aggregate::Vec3, VecSemantics::NoSemantics, 0);
    let values: [i16; 6] = [1, -2, 3, 32767, -32768, 0];
    let src = Values::Bytes(values.iter().flat_map(|v| v.to_le_bytes()).collect());
    let mut into = texts(&["a", "b", "c", "d", "e", "f", "g"]);
    assert!(TypeDesc::convert_type(src_type, &src, dst_type, &mut into, 2, &nothing()));
    assert_eq!(into, texts(&["1", "-2", "3", "32767", "-32768", "0", "g"]));
    let mut short = texts(&["a", "b", "c", "d", "e"]);
    assert!(!TypeDesc::convert_type(src_type, &src, dst_type, &mut short, 2, &nothing()));
    assert_eq!(short, texts(&["a", "b", "c", "d", "e"]));
}

#[test]
fn an_element_becomes_one_text_where_the_aggregates_differ() {
    let src_type = TypeDesc::new(BaseType::Int32, Aggregate::Vec3, VecSemantics::Color, 0);
    let src = Values::Bytes([1i32, -2, 3, 40, 50, 60].iter().flat_map(|v| v.to_le_bytes()).collect());
    let mut scalar = texts(&["a", "b", "c"]);
    assert!(TypeDesc::convert_type(
        src_type,
        &src,
        plain(BaseType::String),
        &mut scalar,
        1,
        &nothing()
    ));
    assert_eq!(scalar, texts(&["1, -2, 3", "b", "c"]));
    assert!(TypeDesc::convert_type(
        src_type,
        &src,
        plain(BaseType::String),
        &mut scalar,
        2,
        &nothing()
    ));
    assert_eq!(scalar, texts(&["1, -2, 3", "40, 50, 60", "c"]));
    let pair = TypeDesc::new(BaseType::String, Aggregate::Vec2, VecSemantics::NoSemantics, 0);
    let mut pairs = texts(&["a", "b", "c", "d", "e"]);
    assert!(TypeDesc::convert_type(src_type, &src, pair, &mut pairs, 2, &nothing()));
    assert_eq!(pairs, texts(&["1, -2, 3", "", "40, 50, 60", "", "e"]));
    let mut short = texts(&["a", "b", "c"]);
    assert!(!TypeDesc::convert_type(src_type, &src, pair, &mut short, 2, &nothing()));
    assert_eq!(short, texts(&["a", "b", "c"]));
    assert!(!TypeDesc::convert_type(src_type, &src, pair, &mut pairs, 3, &nothing()));
}

#[test]
fn a_scalar_becomes_the_first_string_of_a_wider_element() {
    let triple = TypeDesc::new(BaseType::String, Aggregate::Vec3, VecSemantics::NoSemantics, 0);
    let mut into = texts(&["a", "b", "c", "d"]);
    assert!(TypeDesc::convert_type(
        plain(BaseType::Int32),
        &Values::Bytes(5i32.to_le_bytes().to_vec()),
        triple,
        &mut into,
        1,
        &nothing()
    ));
    assert_eq!(into, texts(&["5", "", "", "d"]));
}

#[test]
fn floats_and_strings_of_an_element_are_joined_too() {
    let src_type = TypeDesc::new(BaseType::Float, Aggregate::Vec2, VecSemantics::NoSemantics, 0);
    let src = Values::Bytes([3.25f32, -1.0].iter().flat_map(|v| v.to_le_bytes()).collect());
    let decimals = Decimals { texts: strings(&["3.25", "-1"]), floats: vec![] };
    let mut into = texts(&["a"]);
    assert!(TypeDesc::convert_type(src_type, &src, plain(BaseType::String), &mut into, 1, &decimals));
    assert_eq!(into, texts(&["3.25, -1"]));
    let one = Decimals { texts: strings(&["3.25"]), floats: vec![] };
    assert!(!TypeDesc::convert_type(src_type, &src, plain(BaseType::String), &mut into, 1, &one));
    assert_eq!(into, texts(&["3.25, -1"]));
    let pair = TypeDesc::new(BaseType::String, Aggregate::Vec2, VecSemantics::NoSemantics, 0);
    let mut joined = texts(&["x", "y"]);
    assert!(TypeDesc::convert_type(
        pair,
        &texts(&["\u{e9}t\u{e9}", "b", "c", "d"]),
        plain(BaseType::String),
        &mut joined,
        2,
        &nothing()
    ));
    assert_eq!(joined, texts(&["\u{e9}t\u{e9}, b", "c, d"]));
    let nothing_in = TypeDesc::new(BaseType::Void, Aggregate::Vec3, VecSemantics::NoSemantics, 0);
    let mut empty = texts(&["x"]);
    assert!(TypeDesc::convert_type(
        nothing_in,
        &Values::Bytes(vec![]),
        plain(BaseType::String),
        &mut empty,
        1,
        &nothing()
    ));
    assert_eq!(empty, texts(&[", , "]));
}

#[test]
fn bytes_are_converted_without_values() {
    let mut out = [0x55u8; 9];
    assert!(TypeDesc::convert_bytes(
        plain(BaseType::Int16),
        &[0xfe, 0xff, 0x05, 0x00],
        plain(BaseType::Float),
        &mut out,
        2
    ));
    let expected: Vec<u8> = [-2.0f32, 5.0].iter().flat_map(|v| v.to_le_bytes()).collect();
    assert_eq!(&out[..8], &expected[..]);
    assert_eq!(out[8], 0x55);
    let int = plain(BaseType::Int32);
    assert!(TypeDesc::convert_bytes(int, &[1, 2, 3, 4], int, &mut out, 1));
    assert_eq!(&out[..4], &[1, 2, 3, 4]);
    let mut untouched = [0x55u8; 8];
    assert!(!TypeDesc::convert_bytes(int, &[1, 2, 3, 4], int, &mut untouched, 2));
    assert!(!TypeDesc::convert_bytes(int, &[1, 2, 3, 4], int, &mut untouched, -1));
    assert!(!TypeDesc::convert_bytes(int, &[1, 2, 3, 4], plain(BaseType::String), &mut untouched, 1));
    assert!(!TypeDesc::convert_bytes(int, &[1, 2, 3, 4], plain(BaseType::Int64), &mut untouched, 1));
    let string = plain(BaseType::String);
    assert!(!TypeDesc::convert_bytes(string, &[0; 8], string, &mut untouched, 1));
    assert!(!TypeDesc::convert_bytes(string, &[0; 8], int, &mut untouched, 1));
    assert_eq!(untouched, [0x55u8; 8]);
}

#[test]
fn strings_are_copied_to_strings() {
    let string = plain(BaseType::String);
    let mut into = texts(&["x", "y", "z"]);
    assert!(TypeDesc::convert_type(string, &texts(&["abc", "de"]), string, &mut into, 2, &nothing()));
    assert_eq!(into, texts(&["abc", "de", "z"]));
    let array = TypeDesc::from_basetype_arraylen(BaseType::String, 4);
    assert_eq!(TypeDesc::conversion_rule(array, string), Conversion::Text);
    let mut into = texts(&["x"]);
    assert!(TypeDesc::convert_type(array, &texts(&["q"]), string, &mut into, 1, &nothing()));
    assert_eq!(into, texts(&["q"]));
    assert!(!TypeDesc::convert_type(string, &texts(&["q"]), string, &mut into, 2, &nothing()));
    assert!(!TypeDesc::convert_type(string, &texts(&["q"]), string, &mut into, -1, &nothing()));
    assert!(TypeDesc::convert_type(string, &texts(&[]), string, &mut into, 0, &nothing()));
    assert_eq!(into, texts(&["q"]));
}

fn from_text(all: &[&str], to: BaseType, floats: &[Option<u32>]) -> Option<Vec<u8>> {
    let n = all.len();
    let mut into = Values::Bytes(vec![0x55u8; 4 * n + 1]);
    let decimals = Decimals { texts: vec![], floats: floats.to_vec() };
    let ok = TypeDesc::convert_type(
        plain(BaseType::String),
        &texts(all),
        plain(to),
        &mut into,
        n as i32,
        &decimals,
    );
    match into {
        Values::Bytes(mut after) => {
            assert_eq!(after.len(), 4 * n + 1);
            assert_eq!(after[4 * n], 0x55);
            if ok {
                after.truncate(4 * n);
                Some(after)
            } else {
                assert_eq!(after, vec![0x55u8; 4 * n + 1]);
                None
            }
        },
        Values::Texts(_) => panic!("bytes became texts"),
    }
}

#[test]
fn a_string_that_is_no_integer_does_not_convert() {
    assert_eq!(from_text(&["abc"], BaseType::Int32, &[]), None);
    assert_eq!(from_text(&["abc"], BaseType::UInt32, &[]), None);
    assert_eq!(from_text(&["5", "abc"], BaseType::Int32, &[]), None);
    assert_eq!(from_text(&["5", ""], BaseType::Int32, &[]), None);
    assert_eq!(from_text(&["5 "], BaseType::Int32, &[]), None);
    assert_eq!(from_text(&["3.25"], BaseType::Int32, &[]), None);
}

#[test]
fn strings_that_are_integers_convert() {
    assert_eq!(from_text(&["5"], BaseType::Int32, &[]), Some(5i32.to_le_bytes().to_vec()));
    assert_eq!(from_text(&["-5"], BaseType::Int32, &[]), Some((-5i32).to_le_bytes().to_vec()));
    assert_eq!(
        from_text(&["2147483647", "-2147483648", "+0", "007"], BaseType::Int32, &[]),
        Some([i32::MAX, i32::MIN, 0, 7].iter().flat_map(|v| v.to_le_bytes()).collect())
    );
    assert_eq!(from_text(&["2147483648"], BaseType::Int32, &[]), None);
    assert_eq!(from_text(&["-2147483649"], BaseType::Int32, &[]), None);
    assert_eq!(
        from_text(&["3000000000", "4294967295", "0"], BaseType::UInt32, &[]),
        Some([3000000000u32, u32::MAX, 0].iter().flat_map(|v| v.to_le_bytes()).collect())
    );
    assert_eq!(from_text(&["4294967296"], BaseType::UInt32, &[]), None);
    assert_eq!(from_text(&["-1"], BaseType::UInt32, &[]), None);
    assert_eq!(from_text(&["-0"], BaseType::UInt32, &[]), Some(vec![0, 0, 0, 0]));
    assert_eq!(from_text(&[], BaseType::Int32, &[]), Some(vec![]));
}

#[test]
fn strings_become_the_floats_that_were_supplied_for_them() {
    let bits = |t: &str| t.parse::<f32>().ok().map(|v| v.to_bits());
    assert_eq!(
        from_text(&["3.25", "-1e3"], BaseType::Float, &[bits("3.25"), bits("-1e3")]),
        Some([3.25f32, -1000.0].iter().flat_map(|v| v.to_le_bytes()).collect())
    );
    assert_eq!(from_text(&["3.25", "abc"], BaseType::Float, &[bits("3.25"), bits("abc")]), None);
    assert_eq!(from_text(&["3.25", "1"], BaseType::Float, &[bits("3.25")]), None);
    assert_eq!(from_text(&["abc"], BaseType::Float, &[None]), None);
    assert_eq!(from_text(&["abc"], BaseType::Float, &[Some(0x3f80_0000)]), None);
    assert_eq!(from_text(&["inf"], BaseType::Float, &[bits("inf")]), None);
    assert_eq!(from_text(&["1.5 "], BaseType::Float, &[Some(0x3fc0_0000)]), None);
    assert_eq!(
        from_text(&["1.5"], BaseType::Float, &[Some(0x3fc0_0000)]),
        Some(1.5f32.to_le_bytes().to_vec())
    );
    assert_eq!(from_text(&["5"], BaseType::Double, &[bits("5")]), None);
    assert_eq!(from_text(&["5"], BaseType::Int64, &[]), None);
}

#[test]
fn a_decimal_number_is_told_from_other_text() {
    for text in [
        "0", "5", "-5", "+5", "3.25", "-3.25", "1.", ".5", "-.5", "+1.", "1e5", "1E5", "1e+5",
        "1e-5", "1.5e10", ".5E-3", "007.500", "123456789012345678901234567890", "1e999",
    ] {
        assert!(is_decimal_literal(text.as_bytes()), "{:?}", text);
        assert!(text.parse::<f32>().is_ok(), "{:?}", text);
    }
    for text in [
        "", "-", "+", ".", "-.", "e5", ".e5", "1e", "1e+", "1e-", "1e5.", "1.5.2", "1..5",
        "--1", "+-1", "1e5e5", "1 ", " 1", "1x", "abc", "inf", "nan", "0x10", "1,5", "1e 5",
    ] {
        assert!(!is_decimal_literal(text.as_bytes()), "{:?}", text);
    }
}

#[test]
fn text_is_read_in_the_unsigned_range_too() {
    assert_eq!(unsigned_from_text("3000000000"), Some(3000000000));
    assert_eq!(unsigned_from_text("4294967295"), Some(u32::MAX));
    assert_eq!(unsigned_from_text("4294967296"), None);
    assert_eq!(unsigned_from_text("-1"), None);
    assert_eq!(unsigned_from_text("-0"), Some(0));
    assert_eq!(unsigned_from_text("+17"), Some(17));
    assert_eq!(unsigned_from_text("abc"), None);
    assert_eq!(unsigned_from_text(""), None);
    assert_eq!(integer_from_text("3000000000"), None);
}

fn samples() -> Vec<u64> {
    let mut all = vec![0u64, 1, 2, 5, 0x7f, 0x80, 0xff, 0x100, 0x7fff, 0x8000, 0xffff];
    for shift in 0..64 {
        let bit = 1u64 << shift;
        all.extend([bit, bit - 1, bit + 1, bit | (bit >> 1), bit | (bit >> 24), bit | (bit >> 25)]);
        all.extend([bit.wrapping_neg(), !bit, (bit | (bit >> 24)).wrapping_neg()]);
    }
    let mut state: u64 = 0x9e37_79b9_7f4a_7c15;
    for round in 0..20000 {
        state = state.wrapping_mul(6364136223846793005).wrapping_add(1442695040888963407);
        all.push(state >> (round % 64));
        all.push(state);
    }
    all
}

fn bits_of(kind: BaseType, src: &[u8], to: BaseType) -> u32 {
    let bytes = cast(kind, src, to, 1).unwrap();
    u32::from_le_bytes([bytes[0], bytes[1], bytes[2], bytes[3]])
}

#[test]
fn test_typedesc_convert_type_success() {
    for value_in in [0i32, 5, -5, 1, -1, 16777216, 16777217, 16777219, -16777217, i32::MAX, i32::MIN]
        .into_iter()
        .chain(samples().into_iter().map(|v| v as i32))
    {
        let mut value_out = 0.0f32.to_le_bytes();
        let src_type = plain(BaseType::Int32);
        let dst_type = plain(BaseType::Float);
        assert!(convert(
            src_type,
            &value_in.to_le_bytes(),
            dst_type,
            &mut value_out,
            1
        ));
        assert_eq!(f32::from_le_bytes(value_out), value_in as f32);
        assert_eq!(f32::from_le_bytes(value_out).to_bits(), (value_in as f32).to_bits());
    }
}

#[test]
fn five_becomes_five_point_zero() {
    let mut out = [0u8; 4];
    assert!(convert(
        plain(BaseType::Int32),
        &5i32.to_le_bytes(),
        plain(BaseType::Float),
        &mut out,
        1
    ));
    assert_eq!(f32::from_le_bytes(out), 5.0);
    assert_eq!(out, [0x00, 0x00, 0xa0, 0x40]);
}

#[test]
fn integers_of_every_kind_become_the_nearest_float() {
    for v in samples() {
        assert_eq!(bits_of(BaseType::UInt8, &[v as u8], BaseType::Float), (v as u8 as f32).to_bits());
        assert_eq!(bits_of(BaseType::Int8, &[v as u8], BaseType::Float), (v as i8 as f32).to_bits());
        assert_eq!(
            bits_of(BaseType::UInt16, &(v as u16).to_le_bytes(), BaseType::Float),
            (v as u16 as f32).to_bits()
        );
        assert_eq!(
            bits_of(BaseType::Int16, &(v as u16).to_le_bytes(), BaseType::Float),
            (v as i16 as f32).to_bits()
        );
        assert_eq!(
            bits_of(BaseType::UInt32, &(v as u32).to_le_bytes(), BaseType::Float),
            (v as u32 as f32).to_bits()
        );
        assert_eq!(
            bits_of(BaseType::UInt64, &v.to_le_bytes(), BaseType::Float),
            (v as f32).to_bits()
        );
        assert_eq!(
            bits_of(BaseType::Int64, &v.to_le_bytes(), BaseType::Float),
            (v as i64 as f32).to_bits()
        );
    }
}

#[test]
fn a_tie_between_two_floats_goes_to_the_even_one() {
    let float_of = |v: u32| f32::from_bits(bits_of(BaseType::UInt32, &v.to_le_bytes(), BaseType::Float));
    assert_eq!(float_of(16777216), 16777216.0);
    assert_eq!(float_of(16777217), 16777216.0);
    assert_eq!(float_of(16777218), 16777218.0);
    assert_eq!(float_of(16777219), 16777220.0);
    assert_eq!(float_of(u32::MAX), 4294967296.0);
    assert_eq!(
        f32::from_bits(bits_of(BaseType::UInt64, &u64::MAX.to_le_bytes(), BaseType::Float)),
        18446744073709551616.0
    );
}

fn double_samples() -> Vec<f64> {
    let mut all = vec![
        0.0f64,
        -0.0,
        1.0,
        -1.0,
        3.25,
        0.1,
        -0.1,
        1.0e38,
        3.4028234663852886e38,
        3.4028235677973366e38,
        3.4028235677973362e38,
        3.5e38,
        -3.5e38,
        1.0e300,
        1.1754943508222875e-38,
        1.1754942106924411e-38,
        1.401298464324817e-45,
        7.006492321624085e-46,
        7.006492321624087e-46,
        7.0e-46,
        2.1e-45,
        1.0e-50,
        5.0e-324,
        f64::MAX,
        f64::MIN_POSITIVE,
        f64::INFINITY,
        f64::NEG_INFINITY,
        2147483647.0,
        2147483648.0,
        -2147483648.0,
        -2147483649.0,
        4294967295.0,
        4294967296.0,
        4294967295.9,
        -0.9,
        0.9,
        1.5,
        -1.5,
        2.5,
        1.0000000596046448,
        1.0000001788139343,
        16777217.0,
    ];
    for v in samples() {
        all.push(f64::from_bits(v));
        all.push(v as f64);
        all.push(v as i64 as f64 / 1024.0);
        all.push(f32::from_bits(v as u32) as f64);
        all.push(f32::from_bits(v as u32) as f64 * 1.0000000001);
    }
    all
}

#[test]
fn doubles_become_the_nearest_float() {
    for v in double_samples() {
        let bits = bits_of(BaseType::Double, &v.to_le_bytes(), BaseType::Float);
        if v.is_nan() {
            assert!(f32::from_bits(bits).is_nan());
        } else {
            assert_eq!(bits, (v as f32).to_bits(), "{:e}", v);
        }
    }
    let nan = bits_of(BaseType::Double, &f64::NAN.to_le_bytes(), BaseType::Float);
    assert!(f32::from_bits(nan).is_nan());
    assert_eq!(nan, 0x7fc0_0000);
}

#[test]
fn halves_become_floats_unchanged_in_value() {
    for (half, expected) in [
        (0x0000u16, 0.0f32),
        (0x3c00, 1.0),
        (0xbc00, -1.0),
        (0x4000, 2.0),
        (0x3555, 0.33325195),
        (0x7bff, 65504.0),
        (0xfbff, -65504.0),
        (0x0400, 6.1035156e-5),
        (0x03ff, 6.097555e-5),
        (0x0001, 5.9604645e-8),
        (0x8001, -5.9604645e-8),
        (0x7c00, f32::INFINITY),
        (0xfc00, f32::NEG_INFINITY),
        (0x4248, 3.140625),
    ] {
        let bits = bits_of(BaseType::Half, &half.to_le_bytes(), BaseType::Float);
        assert_eq!(bits, expected.to_bits(), "{:#x}", half);
    }
    assert_eq!(bits_of(BaseType::Half, &0x8000u16.to_le_bytes(), BaseType::Float), 0x8000_0000);
    assert!(f32::from_bits(bits_of(BaseType::Half, &0x7e00u16.to_le_bytes(), BaseType::Float)).is_nan());
    assert!(f32::from_bits(bits_of(BaseType::Half, &0xfc01u16.to_le_bytes(), BaseType::Float)).is_nan());
    assert_eq!(bits_of(BaseType::Half, &0x3c00u16.to_le_bytes(), BaseType::Int32), 1);
    assert_eq!(bits_of(BaseType::Half, &0x7bffu16.to_le_bytes(), BaseType::UInt32), 65504);
    assert_eq!(bits_of(BaseType::Half, &0xfbffu16.to_le_bytes(), BaseType::Int32), -65504i32 as u32);
    assert_eq!(bits_of(BaseType::Half, &0xfbffu16.to_le_bytes(), BaseType::UInt32), 0);
    assert_eq!(bits_of(BaseType::Half, &0x7c00u16.to_le_bytes(), BaseType::Int32), i32::MAX as u32);
    assert_eq!(bits_of(BaseType::Half, &0x4248u16.to_le_bytes(), BaseType::Int32), 3);
}

#[test]
fn floats_become_floats_as_they_are() {
    let src_type = TypeDesc::from_basetype_arraylen(BaseType::Float, 4);
    let dst_type = plain(BaseType::Float);
    for bits in [0u32, 0x8000_0000, 0x3f80_0000, 0x7f80_0000, 0x7fc0_0001, 0xffff_ffff, 1, 0x0080_0000] {
        let mut out = [0u8; 4];
        assert!(convert(src_type, &bits.to_le_bytes(), dst_type, &mut out, 1));
        assert_eq!(out, bits.to_le_bytes());
    }
}

#[test]
fn floating_point_numbers_become_integers_without_their_fraction() {
    for v in double_samples() {
        assert_eq!(
            bits_of(BaseType::Double, &v.to_le_bytes(), BaseType::Int32),
            (v as i32) as u32,
            "{:e}",
            v
        );
        assert_eq!(bits_of(BaseType::Double, &v.to_le_bytes(), BaseType::UInt32), v as u32, "{:e}", v);
        let single = v as f32;
        assert_eq!(
            bits_of(BaseType::Float, &single.to_le_bytes(), BaseType::Int32),
            (single as i32) as u32,
            "{:e}",
            single
        );
        assert_eq!(
            bits_of(BaseType::Float, &single.to_le_bytes(), BaseType::UInt32),
            single as u32,
            "{:e}",
            single
        );
    }
    let int_of = |v: f32| bits_of(BaseType::Float, &v.to_le_bytes(), BaseType::Int32) as i32;
    assert_eq!(int_of(3.25), 3);
    assert_eq!(int_of(-3.99), -3);
    assert_eq!(int_of(0.999), 0);
    assert_eq!(int_of(f32::NAN), 0);
    assert_eq!(int_of(f32::INFINITY), i32::MAX);
    assert_eq!(int_of(f32::NEG_INFINITY), i32::MIN);
    assert_eq!(int_of(3.0e9), i32::MAX);
    assert_eq!(int_of(-3.0e9), i32::MIN);
    let uint_of = |v: f32| bits_of(BaseType::Float, &v.to_le_bytes(), BaseType::UInt32);
    assert_eq!(uint_of(3.0e9), 3000000000);
    assert_eq!(uint_of(-1.0), 0);
    assert_eq!(uint_of(5.0e9), u32::MAX);
    assert_eq!(uint_of(f32::NAN), 0);
}

#[test]
fn aggregates_of_numbers_are_cast_scalar_by_scalar() {
    let src_type = TypeDesc::new(BaseType::Int16, Aggregate::Vec3, VecSemantics::NoSemantics, 0);
    let dst_type = TypeDesc::new(BaseType::Float, Aggregate::Vec3, VecSemantics::Color, 0);
    let values: [i16; 6] = [1, -2, 3, 32767, -32768, 0];
    let src: Vec<u8> = values.iter().flat_map(|v| v.to_le_bytes()).collect();
    let mut dst = [0x55u8; 26];
    assert!(convert(src_type, &src, dst_type, &mut dst, 2));
    let expected: Vec<u8> = values.iter().flat_map(|v| (*v as f32).to_le_bytes()).collect();
    assert_eq!(&dst[..24], &expected[..]);
    assert_eq!(&dst[24..], &[0x55, 0x55]);
    assert!(!convert(src_type, &src, plain(BaseType::Float), &mut dst, 2));
}

#[test]
fn numbers_are_read_and_written_least_significant_byte_first() {
    let buffer = [0u8, 0x78, 0x56, 0x34, 0x12, 0xff, 0xff, 0xff, 0xff, 0xff];
    assert_eq!(read_le(&buffer, 1, 4), 0x1234_5678);
    assert_eq!(read_le(&buffer, 1, 2), 0x5678);
    assert_eq!(read_le(&buffer, 2, 8), 0xffff_ffff_ff12_3456);
    assert_eq!(read_le(&buffer, 3, 0), 0);
    let mut out = [0xeeu8; 6];
    write_le(&mut out, 1, 4, 0x1_0203_0405);
    assert_eq!(out, [0xee, 5, 4, 3, 2, 0xee]);
    write_le(&mut out, 0, 0, 77);
    assert_eq!(out, [0xee, 5, 4, 3, 2, 0xee]);
}

#[test]
fn a_string_converts_to_an_integer_where_all_of_it_is_one() {
    assert_eq!(integer_from_text("abc"), None);
    assert_eq!(integer_from_text("5"), Some(5));
    assert_eq!(integer_from_text("-5"), Some(-5));
    assert_eq!(integer_from_text("+5"), Some(5));
    assert_eq!(integer_from_text("0"), Some(0));
    assert_eq!(integer_from_text("-0"), Some(0));
    assert_eq!(integer_from_text("007"), Some(7));
    assert_eq!(integer_from_text("2147483647"), Some(i32::MAX));
    assert_eq!(integer_from_text("-2147483648"), Some(i32::MIN));
    assert_eq!(integer_from_text("2147483648"), None);
    assert_eq!(integer_from_text("-2147483649"), None);
    assert_eq!(integer_from_text("99999999999999999999999999"), None);
    for text in ["", "-", "+", "5 ", " 5", "5x", "x5", "--5", "+-5", "5-", "3.25", "1e3", "0x10", "٣"] {
        assert_eq!(integer_from_text(text), None, "{:?}", text);
    }
}

#[test]
fn an_integer_converts_to_its_decimal_text() {
    assert_eq!(integer_to_text(5), "5");
    assert_eq!(integer_to_text(0), "0");
    assert_eq!(integer_to_text(-1), "-1");
    assert_eq!(integer_to_text(1234567890), "1234567890");
    assert_eq!(integer_to_text(i64::MAX), "9223372036854775807");
    assert_eq!(integer_to_text(i64::MIN), "-9223372036854775808");
    for v in [-2147483648i64, -100, -10, -9, 9, 10, 99, 100, 101, 2147483647] {
        assert_eq!(integer_to_text(v), v.to_string());
        assert_eq!(integer_from_text(&integer_to_text(v)), Some(v as i32));
    }
}
