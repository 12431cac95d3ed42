use oiio::typedesc::Aggregate;
use oiio::typedesc::BaseType;
use oiio::typedesc::TypeDesc;
use oiio::typedesc::VecSemantics;
use std::cmp::Ordering;

fn kinds() -> Vec<BaseType> {
    vec![
        BaseType::Unknown,
        BaseType::Void,
        BaseType::UInt8,
        BaseType::Int8,
        BaseType::UInt16,
        BaseType::Int16,
        BaseType::UInt32,
        BaseType::Int32,
        BaseType::UInt64,
        BaseType::Int64,
        BaseType::Half,
        BaseType::Float,
        BaseType::Double,
        BaseType::String,
        BaseType::Ptr,
        BaseType::UStringHash,
        BaseType::LastBase,
    ]
}

fn sample() -> Vec<TypeDesc> {
    let mut all = Vec::new();
    for b in [BaseType::Unknown, BaseType::UInt8, BaseType::Float, BaseType::LastBase] {
        for a in [Aggregate::Scalar, Aggregate::Vec3, Aggregate::Matrix44] {
            for s in [VecSemantics::NoSemantics, VecSemantics::Point, VecSemantics::Box] {
                for len in [i32::MIN, -1, 0, 1, i32::MAX] {
                    all.push(TypeDesc::new(b, a, s, len));
                }
            }
        }
    }
    all
}

#[test]
fn test_typedesc_eq_success() {
    for a in sample() {
        for b in sample() {
            let same = a.basetype == b.basetype
                && a.aggregate == b.aggregate
                && a.vecsemantics == b.vecsemantics
                && a.arraylen == b.arraylen;
            assert_eq!(a == b, same);
        }
    }
}

#[test]
fn test_typedesc_ne_success() {
    for a in sample() {
        for b in sample() {
            let same = a.basetype == b.basetype
                && a.aggregate == b.aggregate
                && a.vecsemantics == b.vecsemantics
                && a.arraylen == b.arraylen;
            assert_eq!(a != b, !same);
        }
    }
}

#[test]
fn test_typedesc_eq_basetype_success() {
    for b in kinds() {
        for other in kinds() {
            for agg in [Aggregate::Scalar, Aggregate::Vec2] {
                for s in [VecSemantics::NoSemantics, VecSemantics::Color] {
                    for len in -2..2 {
                        let d = TypeDesc::new(b, agg, s, len);
                        let expected = b == other && agg == Aggregate::Scalar && !d.is_array();
                        assert_eq!(d == other, expected);
                        assert_eq!(other == d, expected);
                    }
                }
            }
        }
    }
}

#[test]
fn test_typedesc_ne_basetype_success() {
    for b in kinds() {
        for other in kinds() {
            for agg in [Aggregate::Scalar, Aggregate::Vec2] {
                for len in -2..2 {
                    let d = TypeDesc::new(b, agg, VecSemantics::NoSemantics, len);
                    let expected = b == other && agg == Aggregate::Scalar && !d.is_array();
                    assert_eq!(d != other, !expected);
                    assert_eq!(other != d, !expected);
                }
            }
        }
    }
}

#[test]
fn test_typedesc_equivalent_success() {
    for a in sample() {
        for b in sample() {
            let expected = a.basetype == b.basetype
                && a.aggregate == b.aggregate
                && a.arraylen == b.arraylen;
            assert_eq!(a.equivalent(&b), expected);
        }
    }
}

#[test]
fn descriptors_that_differ_in_the_hint_alone_are_equivalent_and_not_equal() {
    let a = TypeDesc::new(BaseType::Float, Aggregate::Vec3, VecSemantics::Point, 0);
    let b = TypeDesc::new(BaseType::Float, Aggregate::Vec3, VecSemantics::Normal, 0);
    assert!(a.equivalent(&b));
    assert!(b.equivalent(&a));
    assert!(a != b);
    assert!(a.equivalent(&a));
    let c = TypeDesc::new(BaseType::Float, Aggregate::Vec3, VecSemantics::Point, 2);
    assert!(!a.equivalent(&c));
}

#[test]
fn equivalence_is_an_equivalence_on_the_sample() {
    let all = sample();
    for a in &all {
        assert!(a.equivalent(a));
        for b in &all {
            assert_eq!(a.equivalent(b), b.equivalent(a));
            if a == b {
                assert!(a.equivalent(b));
            }
        }
    }
    let few: Vec<TypeDesc> = all.iter().copied().step_by(7).collect();
    for a in &few {
        for b in &few {
            for c in &few {
                if a.equivalent(b) && b.equivalent(c) {
                    assert!(a.equivalent(c));
                }
            }
        }
    }
}

#[test]
fn test_typedesc_lt_success() {
    for a in sample() {
        for b in sample() {
            let expected = if a.basetype != b.basetype {
                a.basetype < b.basetype
            } else if a.aggregate != b.aggregate {
                a.aggregate < b.aggregate
            } else if a.arraylen != b.arraylen {
                a.arraylen < b.arraylen
            } else if a.vecsemantics != b.vecsemantics {
                a.vecsemantics < b.vecsemantics
            } else {
                false
            };
            assert_eq!(a < b, expected);
        }
    }
}

#[test]
fn the_array_length_weighs_more_than_the_hint() {
    let short = TypeDesc::new(BaseType::Float, Aggregate::Vec3, VecSemantics::Box, 1);
    let long = TypeDesc::new(BaseType::Float, Aggregate::Vec3, VecSemantics::NoSemantics, 2);
    assert!(short < long);
    assert!(!(long < short));
    assert_eq!(short.partial_cmp(&long), Some(Ordering::Less));
    assert_eq!(short.cmp(&long), Ordering::Less);
    let kind = TypeDesc::new(BaseType::UInt8, Aggregate::Matrix44, VecSemantics::Box, 9);
    let later = TypeDesc::new(BaseType::Int8, Aggregate::Scalar, VecSemantics::NoSemantics, -1);
    assert!(kind < later);
}

#[test]
fn the_order_is_strict_and_total_on_the_sample() {
    let all = sample();
    for a in &all {
        assert!(!(a < a));
        for b in &all {
            assert!(!(a < b && b < a));
            assert!(a == b || a < b || b < a);
            assert_eq!(a.partial_cmp(b), Some(a.cmp(b)));
            assert_eq!(a > b, b < a);
            assert_eq!(a <= b, !(b < a));
        }
    }
    let few: Vec<TypeDesc> = all.iter().copied().step_by(5).collect();
    for a in &few {
        for b in &few {
            for c in &few {
                if a < b && b < c {
                    assert!(a < c);
                }
            }
        }
    }
}

#[test]
fn sorting_goes_by_kind_then_aggregate_then_length_then_hint() {
    let mut all = vec![
        TypeDesc::new(BaseType::Float, Aggregate::Vec3, VecSemantics::Point, 0),
        TypeDesc::new(BaseType::Float, Aggregate::Vec3, VecSemantics::Color, 0),
        TypeDesc::new(BaseType::Float, Aggregate::Vec3, VecSemantics::Box, -1),
        TypeDesc::new(BaseType::Float, Aggregate::Scalar, VecSemantics::Box, 5),
        TypeDesc::new(BaseType::UInt8, Aggregate::Matrix44, VecSemantics::Box, 5),
    ];
    all.sort();
    assert_eq!(
        all,
        vec![
            TypeDesc::new(BaseType::UInt8, Aggregate::Matrix44, VecSemantics::Box, 5),
            TypeDesc::new(BaseType::Float, Aggregate::Scalar, VecSemantics::Box, 5),
            TypeDesc::new(BaseType::Float, Aggregate::Vec3, VecSemantics::Box, -1),
            TypeDesc::new(BaseType::Float, Aggregate::Vec3, VecSemantics::Color, 0),
            TypeDesc::new(BaseType::Float, Aggregate::Vec3, VecSemantics::Point, 0),
        ]
    );
}

#[test]
fn the_enumerations_are_ordered_by_their_codes() {
    let all = kinds();
    for a in &all {
        for b in &all {
            assert_eq!(a < b, u32::from(*a) < u32::from(*b));
            assert_eq!(a.partial_cmp(b), Some(a.cmp(b)));
        }
    }
    assert!(Aggregate::Vec4 < Aggregate::Matrix33);
    assert!(Aggregate::Matrix33 < Aggregate::Matrix44);
    assert_eq!(Aggregate::Vec2.partial_cmp(&Aggregate::Vec2), Some(Ordering::Equal));
    assert_eq!(Aggregate::Vec2.cmp(&Aggregate::Scalar), Ordering::Greater);
    assert!(VecSemantics::NoSemantics < VecSemantics::Color);
    assert!(VecSemantics::Rational < VecSemantics::Box);
    assert_eq!(VecSemantics::Box.cmp(&VecSemantics::Box), Ordering::Equal);
}
