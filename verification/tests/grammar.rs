use oiio::typedesc::Aggregate;
use oiio::typedesc::BaseType;
use oiio::typedesc::TypeDesc;
use oiio::typedesc::VecSemantics;

fn keywords() -> Vec<(BaseType, &'static str)> {
    vec![
        (BaseType::Unknown, "unknown"),
        (BaseType::Void, "void"),
        (BaseType::UInt8, "uint8"),
        (BaseType::Int8, "int8"),
        (BaseType::UInt16, "uint16"),
        (BaseType::Int16, "int16"),
        (BaseType::UInt32, "uint"),
        (BaseType::Int32, "int"),
        (BaseType::UInt64, "uint64"),
        (BaseType::Int64, "int64"),
        (BaseType::Half, "half"),
        (BaseType::Float, "float"),
        (BaseType::Double, "double"),
        (BaseType::String, "string"),
        (BaseType::Ptr, "pointer"),
        (BaseType::UStringHash, "ustringhash"),
    ]
}

fn aliases() -> Vec<(TypeDesc, &'static str)> {
    vec![
        (TypeDesc::new(BaseType::Float, Aggregate::Vec3, VecSemantics::Color, 0), "color"),
        (TypeDesc::new(BaseType::Float, Aggregate::Vec3, VecSemantics::Point, 0), "point"),
        (TypeDesc::new(BaseType::Float, Aggregate::Vec3, VecSemantics::Vector, 0), "vector"),
        (TypeDesc::new(BaseType::Float, Aggregate::Vec3, VecSemantics::Normal, 0), "normal"),
        (TypeDesc::new(BaseType::Float, Aggregate::Matrix44, VecSemantics::NoSemantics, 0), "matrix"),
        (TypeDesc::new(BaseType::Float, Aggregate::Matrix33, VecSemantics::NoSemantics, 0), "matrix33"),
    ]
}

fn words() -> Vec<(TypeDesc, &'static str)> {
    let mut all: Vec<(TypeDesc, &'static str)> = keywords()
        .into_iter()
        .map(|(b, w)| (TypeDesc::from_basetype_arraylen(b, 0), w))
        .collect();
    all.extend(aliases());
    all
}

fn unknown() -> TypeDesc {
    TypeDesc::new(BaseType::Unknown, Aggregate::Scalar, VecSemantics::NoSemantics, 0)
}

#[test]
fn test_typedesc_from_string_success() {
    for (b, word) in keywords() {
        let expected = TypeDesc::from_basetype_arraylen(b, 0);
        let result = TypeDesc::from(word);
        assert_eq!(result.basetype, expected.basetype);
        assert_eq!(result.aggregate, expected.aggregate);
        assert_eq!(result.vecsemantics, expected.vecsemantics);
        assert_eq!(result.arraylen, expected.arraylen);
        assert_eq!(TypeDesc::from(word.to_string()), expected);
        assert_eq!(TypeDesc::from(&word.to_string()), expected);
    }
}

#[test]
fn test_typedesc_as_str_success() {
    for (b, word) in keywords() {
        let d = TypeDesc::from_basetype_arraylen(b, 0);
        assert_eq!(d.to_string(), Some(word.to_string()));
    }
}

#[test]
fn test_typedesc_fromstring_success() {
    for (b, word) in keywords() {
        for start in [
            TypeDesc::new(BaseType::Double, Aggregate::Vec4, VecSemantics::Box, 12),
            TypeDesc::new(BaseType::LastBase, Aggregate::Scalar, VecSemantics::NoSemantics, -1),
        ] {
            let mut d = start;
            let taken = d.set_from_string(word);
            assert_eq!(taken, word.len());
            assert_eq!(d.basetype, b);
            assert_eq!(d.aggregate, Aggregate::Scalar);
            assert_eq!(d.vecsemantics, VecSemantics::NoSemantics);
            assert_eq!(d.arraylen, 0);
        }
    }
}

#[test]
fn parse_of_the_examples() {
    assert_eq!(
        TypeDesc::from("int"),
        TypeDesc::new(BaseType::Int32, Aggregate::Scalar, VecSemantics::NoSemantics, 0)
    );
    assert_eq!(
        TypeDesc::from("float"),
        TypeDesc::new(BaseType::Float, Aggregate::Scalar, VecSemantics::NoSemantics, 0)
    );
    assert_eq!(
        TypeDesc::from("uint16"),
        TypeDesc::new(BaseType::UInt16, Aggregate::Scalar, VecSemantics::NoSemantics, 0)
    );
    assert_eq!(
        TypeDesc::from("point"),
        TypeDesc::new(BaseType::Float, Aggregate::Vec3, VecSemantics::Point, 0)
    );
    let d = TypeDesc::from("float[3]");
    assert_eq!(d, TypeDesc::new(BaseType::Float, Aggregate::Scalar, VecSemantics::NoSemantics, 3));
    assert_eq!(d.size(), Ok(12));
}

#[test]
fn every_word_round_trips_with_and_without_a_length() {
    for (d, word) in words() {
        for (len, suffix) in [
            (0, String::new()),
            (-1, "[]".to_string()),
            (1, "[1]".to_string()),
            (5, "[5]".to_string()),
            (10, "[10]".to_string()),
            (409, "[409]".to_string()),
            (i32::MAX, "[2147483647]".to_string()),
        ] {
            let text = format!("{}{}", word, suffix);
            let expected = TypeDesc::new(d.basetype, d.aggregate, d.vecsemantics, len);
            let (parsed, taken) = TypeDesc::scan(text.as_bytes());
            assert_eq!(parsed, expected);
            assert_eq!(taken, text.len());
            assert_eq!(parsed.to_string(), Some(text.clone()));
            assert_eq!(TypeDesc::from(text.as_str()), expected);
            let mut inplace = unknown();
            assert_eq!(inplace.set_from_string(&text), text.len());
            assert_eq!(inplace, expected);
        }
    }
}

#[test]
fn the_longest_word_is_taken() {
    assert_eq!(TypeDesc::from("uint16").basetype, BaseType::UInt16);
    assert_eq!(TypeDesc::from("uint64").basetype, BaseType::UInt64);
    assert_eq!(TypeDesc::from("uint8").basetype, BaseType::UInt8);
    assert_eq!(TypeDesc::from("uint").basetype, BaseType::UInt32);
    assert_eq!(TypeDesc::from("int64").basetype, BaseType::Int64);
    assert_eq!(TypeDesc::from("matrix33").aggregate, Aggregate::Matrix33);
    assert_eq!(TypeDesc::from("matrix").aggregate, Aggregate::Matrix44);
    assert_eq!(TypeDesc::scan(b"uint16"), (TypeDesc::from_basetype_arraylen(BaseType::UInt16, 0), 6));
}

#[test]
fn a_word_is_matched_whole() {
    for text in ["intx", "int9", "uint1", "uint160", "floats", "int_", "Int", "FLOAT", "matrix4", "matrix44"] {
        assert_eq!(TypeDesc::scan(text.as_bytes()), (unknown(), 0), "{}", text);
        assert_eq!(TypeDesc::from(text), unknown());
    }
}

#[test]
fn what_follows_the_name_is_left_alone() {
    assert_eq!(
        TypeDesc::scan(b"int foo"),
        (TypeDesc::from_basetype_arraylen(BaseType::Int32, 0), 3)
    );
    assert_eq!(
        TypeDesc::scan(b"float[3] x"),
        (TypeDesc::from_basetype_arraylen(BaseType::Float, 3), 8)
    );
    assert_eq!(
        TypeDesc::scan(b"point[][4]"),
        (TypeDesc::new(BaseType::Float, Aggregate::Vec3, VecSemantics::Point, -1), 7)
    );
    assert_eq!(
        TypeDesc::scan(b"half,half"),
        (TypeDesc::from_basetype_arraylen(BaseType::Half, 0), 4)
    );
    assert_eq!(
        TypeDesc::scan("int\u{e9}".as_bytes()),
        (TypeDesc::from_basetype_arraylen(BaseType::Int32, 0), 3)
    );
}

#[test]
fn text_without_a_name_gives_unknown_and_zero() {
    for text in ["", " ", " int", "[3]", "foo", "3", "\u{e9}int", "unknow", "_"] {
        assert_eq!(TypeDesc::scan(text.as_bytes()), (unknown(), 0), "{:?}", text);
    }
}

#[test]
fn a_malformed_length_gives_unknown_and_zero() {
    for text in [
        "int[", "int[3", "int[x]", "int[3x]", "int[ 3]", "int[3 ]", "int[-1]", "int[+1]", "int[0]",
        "int[00]", "int[2147483648]", "int[99999999999999999999999]", "int[[3]]", "int[3[",
    ] {
        assert_eq!(TypeDesc::scan(text.as_bytes()), (unknown(), 0), "{}", text);
    }
}

#[test]
fn leading_zeros_are_read_and_not_written() {
    let (d, taken) = TypeDesc::scan(b"int[007]");
    assert_eq!(d, TypeDesc::from_basetype_arraylen(BaseType::Int32, 7));
    assert_eq!(taken, 8);
    assert_eq!(d.to_string(), Some("int[7]".to_string()));
    let (d, taken) = TypeDesc::scan(b"int[0000000000000000000000012]");
    assert_eq!(d.arraylen, 12);
    assert_eq!(taken, 30);
}

#[test]
fn the_word_unknown_is_read_as_a_name() {
    assert_eq!(TypeDesc::scan(b"unknown"), (unknown(), 7));
    assert_eq!(
        TypeDesc::scan(b"unknown[2]"),
        (TypeDesc::from_basetype_arraylen(BaseType::Unknown, 2), 10)
    );
}

#[test]
fn set_from_string_leaves_the_descriptor_alone_where_it_reads_nothing() {
    let start = TypeDesc::new(BaseType::Double, Aggregate::Vec4, VecSemantics::Box, 12);
    for text in ["", "foo", "int[", "intx", "int[0]"] {
        let mut d = start;
        assert_eq!(d.set_from_string(text), 0);
        assert_eq!(d, start);
    }
    let mut d = start;
    assert_eq!(d.set_from_string("normal[2] rest"), 9);
    assert_eq!(d, TypeDesc::new(BaseType::Float, Aggregate::Vec3, VecSemantics::Normal, 2));
}

#[test]
fn names_of_arrays() {
    assert_eq!(
        TypeDesc::from_basetype_arraylen(BaseType::Int32, 5).to_string(),
        Some("int[5]".to_string())
    );
    assert_eq!(
        TypeDesc::from_basetype_arraylen(BaseType::Int32, -1).to_string(),
        Some("int[]".to_string())
    );
    assert_eq!(
        TypeDesc::from_basetype_arraylen(BaseType::Int32, -7).to_string(),
        Some("int[]".to_string())
    );
    assert_eq!(
        TypeDesc::from_basetype_arraylen(BaseType::UStringHash, i32::MAX).to_string(),
        Some("ustringhash[2147483647]".to_string())
    );
    assert_eq!(
        TypeDesc::new(BaseType::Float, Aggregate::Vec3, VecSemantics::Normal, 0).to_string(),
        Some("normal".to_string())
    );
    assert_eq!(
        TypeDesc::new(BaseType::Float, Aggregate::Matrix44, VecSemantics::NoSemantics, 100)
            .to_string(),
        Some("matrix[100]".to_string())
    );
}

#[test]
fn names_of_aggregates_without_a_word_of_their_own() {
    assert_eq!(
        TypeDesc::new(BaseType::Int32, Aggregate::Vec3, VecSemantics::NoSemantics, 0).to_string(),
        Some("int[3]".to_string())
    );
    assert_eq!(
        TypeDesc::new(BaseType::Float, Aggregate::Vec3, VecSemantics::NoSemantics, 0).to_string(),
        Some("float[3]".to_string())
    );
    assert_eq!(
        TypeDesc::new(BaseType::Float, Aggregate::Matrix44, VecSemantics::Color, 0).to_string(),
        Some("float[16]".to_string())
    );
    assert_eq!(
        TypeDesc::new(BaseType::Double, Aggregate::Matrix33, VecSemantics::NoSemantics, 4)
            .to_string(),
        Some("double[9][4]".to_string())
    );
    assert_eq!(
        TypeDesc::new(BaseType::Half, Aggregate::Vec2, VecSemantics::Box, -1).to_string(),
        Some("half[2][]".to_string())
    );
    assert_eq!(
        TypeDesc::new(BaseType::Int32, Aggregate::Scalar, VecSemantics::Timecode, 2).to_string(),
        Some("int[2]".to_string())
    );
}

#[test]
fn the_sentinel_kind_has_no_name() {
    for a in [Aggregate::Scalar, Aggregate::Vec3] {
        for len in [-1, 0, 3] {
            let d = TypeDesc::new(BaseType::LastBase, a, VecSemantics::Point, len);
            assert_eq!(d.to_string(), None);
        }
    }
}

#[test]
fn what_was_read_is_written_and_read_again_the_same() {
    for text in ["int[007]", "point[] and more", "uint64[12]x", "matrix33", "void[]"] {
        let (d, taken) = TypeDesc::scan(text.as_bytes());
        assert!(taken > 0);
        let name = d.to_string().unwrap();
        assert_eq!(TypeDesc::scan(name.as_bytes()), (d, name.len()));
    }
}
