use oiio::typedesc::Aggregate;
use oiio::typedesc::BaseType;
use oiio::typedesc::TypeDesc;
use oiio::typedesc::VecSemantics;

fn kinds() -> Vec<BaseType> {
    vec![
        BaseType::Unknown,
        BaseType::Void,
        BaseType::UInt8,
        BaseType::Int8,
        BaseType::UInt16,
        BaseType::Int16,
        BaseType::UInt32,
        BaseType::Int32,
        BaseType::UInt64,
        BaseType::Int64,
        BaseType::Half,
        BaseType::Float,
        BaseType::Double,
        BaseType::String,
        BaseType::Ptr,
        BaseType::UStringHash,
        BaseType::LastBase,
    ]
}

fn size_of(b: BaseType) -> usize {
    TypeDesc::new(b, Aggregate::Scalar, VecSemantics::NoSemantics, 0).size().unwrap_or(0)
}

fn expected_merge(a: BaseType, b: BaseType) -> BaseType {
    let (mut a, mut b) = (a, b);
    if a == b {
        return a;
    }
    if a == BaseType::Unknown {
        return b;
    }
    if b == BaseType::Unknown {
        return a;
    }
    if size_of(a) < size_of(b) {
        std::mem::swap(&mut a, &mut b);
    }
    if a == BaseType::Double || a == BaseType::Float {
        a
    } else if a == BaseType::UInt32 && (b == BaseType::UInt16 || b == BaseType::UInt8) {
        a
    } else if a == BaseType::Int32
        && (b == BaseType::Int16
            || b == BaseType::Int8
            || b == BaseType::UInt16
            || b == BaseType::UInt8)
    {
        a
    } else if (a == BaseType::UInt16 || a == BaseType::Half) && b == BaseType::UInt8 {
        a
    } else if (a == BaseType::Int16 || a == BaseType::Half)
        && (b == BaseType::Int8 || b == BaseType::UInt8)
    {
        a
    } else {
        BaseType::Float
    }
}

#[test]
fn test_typedesc_basetype_merge_success() {
    for a in kinds() {
        for b in kinds() {
            let da = TypeDesc::new(a, Aggregate::Vec3, VecSemantics::Color, 4);
            let db = TypeDesc::new(b, Aggregate::Scalar, VecSemantics::NoSemantics, -1);
            assert_eq!(TypeDesc::basetype_merge(da, db), expected_merge(a, b), "{:?} {:?}", a, b);
            assert_eq!(a.merged(b), expected_merge(a, b));
        }
    }
}

#[test]
fn test_typedesc_basetype_merge_3_success() {
    for a in kinds() {
        for b in kinds() {
            for c in kinds() {
                let da = TypeDesc::new(a, Aggregate::Vec3, VecSemantics::Color, 4);
                let db = TypeDesc::new(b, Aggregate::Scalar, VecSemantics::NoSemantics, -1);
                let dc = TypeDesc::new(c, Aggregate::Matrix33, VecSemantics::Box, 0);
                let inner = TypeDesc::basetype_merge(da, db);
                assert_eq!(TypeDesc::basetype_merge_3(da, db, dc), expected_merge(inner, c));
            }
        }
    }
}

#[test]
fn merge_of_the_examples() {
    assert_eq!(BaseType::UInt8.merged(BaseType::UInt8), BaseType::UInt8);
    assert_eq!(BaseType::Unknown.merged(BaseType::Float), BaseType::Float);
    assert_eq!(BaseType::Float.merged(BaseType::Unknown), BaseType::Float);
    assert_eq!(BaseType::UInt16.merged(BaseType::UInt8), BaseType::UInt16);
    assert_eq!(BaseType::UInt8.merged(BaseType::UInt16), BaseType::UInt16);
    assert_eq!(BaseType::Int8.merged(BaseType::UInt16), BaseType::Float);
}

#[test]
fn merge_rule_by_rule() {
    assert_eq!(BaseType::Double.merged(BaseType::Int64), BaseType::Double);
    assert_eq!(BaseType::UInt64.merged(BaseType::Double), BaseType::Float);
    assert_eq!(BaseType::Int8.merged(BaseType::Double), BaseType::Double);
    assert_eq!(BaseType::Float.merged(BaseType::Int32), BaseType::Float);
    assert_eq!(BaseType::UInt32.merged(BaseType::UInt16), BaseType::UInt32);
    assert_eq!(BaseType::UInt32.merged(BaseType::Int16), BaseType::Float);
    assert_eq!(BaseType::Int32.merged(BaseType::UInt16), BaseType::Int32);
    assert_eq!(BaseType::Int32.merged(BaseType::Int8), BaseType::Int32);
    assert_eq!(BaseType::Int32.merged(BaseType::UInt32), BaseType::Float);
    assert_eq!(BaseType::UInt32.merged(BaseType::Int32), BaseType::Float);
    assert_eq!(BaseType::Half.merged(BaseType::UInt8), BaseType::Half);
    assert_eq!(BaseType::Half.merged(BaseType::Int8), BaseType::Half);
    assert_eq!(BaseType::Int16.merged(BaseType::UInt8), BaseType::Int16);
    assert_eq!(BaseType::UInt16.merged(BaseType::Int8), BaseType::Float);
    assert_eq!(BaseType::Half.merged(BaseType::UInt16), BaseType::Float);
    assert_eq!(BaseType::UInt16.merged(BaseType::Half), BaseType::Float);
    assert_eq!(BaseType::Int64.merged(BaseType::Int32), BaseType::Float);
    assert_eq!(BaseType::Void.merged(BaseType::UInt8), BaseType::Float);
    assert_eq!(BaseType::String.merged(BaseType::Ptr), BaseType::Float);
}

#[test]
fn with_equal_sizes_the_first_kind_is_the_candidate() {
    assert_eq!(BaseType::Double.merged(BaseType::Int64), BaseType::Double);
    assert_eq!(BaseType::Int64.merged(BaseType::Double), BaseType::Float);
    assert_eq!(BaseType::Float.merged(BaseType::UInt32), BaseType::Float);
    assert_eq!(BaseType::UInt32.merged(BaseType::Float), BaseType::Float);
}

#[test]
fn the_sentinel_kind_weighs_nothing_in_a_merge() {
    assert_eq!(BaseType::LastBase.merged(BaseType::LastBase), BaseType::LastBase);
    assert_eq!(BaseType::LastBase.merged(BaseType::Unknown), BaseType::LastBase);
    assert_eq!(BaseType::LastBase.merged(BaseType::Double), BaseType::Double);
    assert_eq!(BaseType::Double.merged(BaseType::LastBase), BaseType::Double);
    assert_eq!(BaseType::LastBase.merged(BaseType::Int32), BaseType::Float);
}

#[test]
fn merge_of_three_goes_from_the_left() {
    let d = |b| TypeDesc::new(b, Aggregate::Scalar, VecSemantics::NoSemantics, 0);
    assert_eq!(
        TypeDesc::basetype_merge_3(d(BaseType::UInt8), d(BaseType::UInt16), d(BaseType::UInt32)),
        BaseType::UInt32
    );
    assert_eq!(
        TypeDesc::basetype_merge_3(d(BaseType::UInt8), d(BaseType::Int8), d(BaseType::Int16)),
        BaseType::Float
    );
    assert_eq!(
        TypeDesc::basetype_merge_3(d(BaseType::Unknown), d(BaseType::Unknown), d(BaseType::Half)),
        BaseType::Half
    );
    assert_eq!(
        TypeDesc::basetype_merge_3(d(BaseType::Int64), d(BaseType::Double), d(BaseType::Double)),
        BaseType::Double
    );
}
