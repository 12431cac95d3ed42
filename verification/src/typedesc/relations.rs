//! Equality, equivalence and order of descriptors.
//!
//! Two descriptors are equal when all four fields are. They are equivalent
//! when they are equal but for the hint. A descriptor equals a bare kind
//! when it is a single scalar of that kind. Descriptors are ordered by kind,
//! then aggregate, then array length, then hint.

use vstd::prelude::*;
use vstd::std_specs::cmp::PartialEqSpec;
use vstd::std_specs::cmp::PartialEqSpecImpl;
use vstd::std_specs::cmp::PartialOrdSpecImpl;
use core::cmp::Ordering;
use crate::typedesc::desc::TypeDesc;
use crate::typedesc::kinds::Aggregate;
use crate::typedesc::kinds::BaseType;
use crate::typedesc::kinds::VecSemantics;

verus! {

/// How two codes compare.
fn order_of_codes(a: u8, b: u8) -> (r: Ordering)
    ensures
        r == (if a < b {
            Ordering::Less
        } else if a > b {
            Ordering::Greater
        } else {
            Ordering::Equal
        }),
{
    if a < b {
        Ordering::Less
    } else if a > b {
        Ordering::Greater
    } else {
        Ordering::Equal
    }
}

impl PartialOrd for BaseType {
    /// Kinds are ordered by their codes.
    fn partial_cmp(&self, other: &BaseType) -> (r: Option<Ordering>) {
        Some(order_of_codes(self.to_code(), other.to_code()))
    }
}

impl PartialOrdSpecImpl for BaseType {
    open spec fn obeys_partial_cmp_spec() -> bool {
        true
    }

    open spec fn partial_cmp_spec(&self, other: &BaseType) -> Option<Ordering> {
        if self.code() < other.code() {
            Some(Ordering::Less)
        } else if self.code() > other.code() {
            Some(Ordering::Greater)
        } else {
            Some(Ordering::Equal)
        }
    }
}

impl PartialOrd for Aggregate {
    /// Aggregates are ordered by their codes.
    fn partial_cmp(&self, other: &Aggregate) -> (r: Option<Ordering>) {
        Some(order_of_codes(self.to_code(), other.to_code()))
    }
}

impl PartialOrdSpecImpl for Aggregate {
    open spec fn obeys_partial_cmp_spec() -> bool {
        true
    }

    open spec fn partial_cmp_spec(&self, other: &Aggregate) -> Option<Ordering> {
        if self.code() < other.code() {
            Some(Ordering::Less)
        } else if self.code() > other.code() {
            Some(Ordering::Greater)
        } else {
            Some(Ordering::Equal)
        }
    }
}

impl PartialOrd for VecSemantics {
    /// Hints are ordered by their codes.
    fn partial_cmp(&self, other: &VecSemantics) -> (r: Option<Ordering>) {
        Some(order_of_codes(self.to_code(), other.to_code()))
    }
}

impl PartialOrdSpecImpl for VecSemantics {
    open spec fn obeys_partial_cmp_spec() -> bool {
        true
    }

    open spec fn partial_cmp_spec(&self, other: &VecSemantics) -> Option<Ordering> {
        if self.code() < other.code() {
            Some(Ordering::Less)
        } else if self.code() > other.code() {
            Some(Ordering::Greater)
        } else {
            Some(Ordering::Equal)
        }
    }
}

impl TypeDesc {
    /// Strictly before in the order of descriptors: the kinds decide; where
    /// they are equal the aggregates decide, then the array lengths, then
    /// the hints.
    pub open spec fn precedes(self, other: TypeDesc) -> bool {
        if self.basetype != other.basetype {
            self.basetype.code() < other.basetype.code()
        } else if self.aggregate != other.aggregate {
            self.aggregate.code() < other.aggregate.code()
        } else if self.arraylen != other.arraylen {
            self.arraylen < other.arraylen
        } else {
            self.vecsemantics.code() < other.vecsemantics.code()
        }
    }

    /// Equal but for the hint.
    pub open spec fn equivalent_to(self, other: TypeDesc) -> bool {
        &&& self.basetype == other.basetype
        &&& self.aggregate == other.aggregate
        &&& self.arraylen == other.arraylen
    }

    /// A single scalar of the given kind, whatever its hint.
    pub open spec fn is_plain(self, b: BaseType) -> bool {
        &&& self.basetype == b
        &&& self.aggregate == Aggregate::Scalar
        &&& self.arraylen == 0
    }

    /// Are the two descriptors equal, or different in their hints only?
    pub fn equivalent(&self, b: &TypeDesc) -> (r: bool)
        ensures
            r == self.equivalent_to(*b),
    {
        self.basetype == b.basetype && self.aggregate == b.aggregate && self.arraylen
            == b.arraylen
    }
}

impl PartialEq for TypeDesc {
    /// Descriptors are equal when all four fields are.
    fn eq(&self, other: &TypeDesc) -> (r: bool) {
        self.basetype == other.basetype && self.aggregate == other.aggregate && self.arraylen
            == other.arraylen && self.vecsemantics == other.vecsemantics
    }
}

impl PartialEqSpecImpl for TypeDesc {
    open spec fn obeys_eq_spec() -> bool {
        true
    }

    open spec fn eq_spec(&self, other: &TypeDesc) -> bool {
        *self == *other
    }
}

impl PartialEq<BaseType> for TypeDesc {
    /// A descriptor equals a bare kind when it is a single scalar of that
    /// kind.
    fn eq(&self, other: &BaseType) -> (r: bool) {
        self.basetype == *other && self.aggregate == Aggregate::Scalar && self.arraylen == 0
    }
}

impl PartialEqSpecImpl<BaseType> for TypeDesc {
    open spec fn obeys_eq_spec() -> bool {
        true
    }

    open spec fn eq_spec(&self, other: &BaseType) -> bool {
        self.is_plain(*other)
    }
}

impl PartialEq<TypeDesc> for BaseType {
    /// A bare kind equals a descriptor when the descriptor is a single
    /// scalar of that kind.
    fn eq(&self, other: &TypeDesc) -> (r: bool) {
        other.basetype == *self && other.aggregate == Aggregate::Scalar && other.arraylen == 0
    }
}

impl PartialEqSpecImpl<TypeDesc> for BaseType {
    open spec fn obeys_eq_spec() -> bool {
        true
    }

    open spec fn eq_spec(&self, other: &TypeDesc) -> bool {
        other.is_plain(*self)
    }
}

impl PartialOrd for TypeDesc {
    /// Descriptors are ordered by kind, then aggregate, then array length,
    /// then hint.
    fn partial_cmp(&self, other: &TypeDesc) -> (r: Option<Ordering>) {
        if self.basetype != other.basetype {
            Some(order_of_codes(self.basetype.to_code(), other.basetype.to_code()))
        } else if self.aggregate != other.aggregate {
            Some(order_of_codes(self.aggregate.to_code(), other.aggregate.to_code()))
        } else if self.arraylen < other.arraylen {
            Some(Ordering::Less)
        } else if self.arraylen > other.arraylen {
            Some(Ordering::Greater)
        } else {
            Some(order_of_codes(self.vecsemantics.to_code(), other.vecsemantics.to_code()))
        }
    }
}

impl PartialOrdSpecImpl for TypeDesc {
    open spec fn obeys_partial_cmp_spec() -> bool {
        true
    }

    open spec fn partial_cmp_spec(&self, other: &TypeDesc) -> Option<Ordering> {
        if *self == *other {
            Some(Ordering::Equal)
        } else if self.precedes(*other) {
            Some(Ordering::Less)
        } else {
            Some(Ordering::Greater)
        }
    }
}

/// No descriptor comes before itself.
pub proof fn lemma_order_irreflexive(a: TypeDesc)
    ensures
        !a.precedes(a),
{
}

/// Two descriptors never come before each other.
pub proof fn lemma_order_antisymmetric(a: TypeDesc, b: TypeDesc)
    ensures
        !(a.precedes(b) && b.precedes(a)),
{
}

/// What comes before a descriptor comes before everything after it.
pub proof fn lemma_order_transitive(a: TypeDesc, b: TypeDesc, c: TypeDesc)
    requires
        a.precedes(b),
        b.precedes(c),
    ensures
        a.precedes(c),
{
}

/// Of two different descriptors one comes before the other: exactly one of
/// "before", "equal" and "after" holds.
pub proof fn lemma_order_total(a: TypeDesc, b: TypeDesc)
    ensures
        a == b || a.precedes(b) || b.precedes(a),
        a == b ==> !a.precedes(b) && !b.precedes(a),
{
    if a.basetype == b.basetype && a.aggregate == b.aggregate && a.arraylen == b.arraylen {
        a.vecsemantics.lemma_code_round_trip();
        b.vecsemantics.lemma_code_round_trip();
    }
    a.basetype.lemma_code_round_trip();
    b.basetype.lemma_code_round_trip();
    a.aggregate.lemma_code_round_trip();
    b.aggregate.lemma_code_round_trip();
}

/// The first field in which two descriptors differ decides their order, the
/// fields taken as kind, aggregate, array length, hint, and each enumeration
/// by its codes.
pub proof fn lemma_order_by_first_difference(a: TypeDesc, b: TypeDesc)
    ensures
        a.basetype != b.basetype ==> (a.precedes(b) <==> a.basetype.code() < b.basetype.code()),
        a.basetype == b.basetype && a.aggregate != b.aggregate ==> (a.precedes(b)
            <==> a.aggregate.code() < b.aggregate.code()),
        a.basetype == b.basetype && a.aggregate == b.aggregate && a.arraylen != b.arraylen ==> (
        a.precedes(b) <==> a.arraylen < b.arraylen),
        a.basetype == b.basetype && a.aggregate == b.aggregate && a.arraylen == b.arraylen ==> (
        a.precedes(b) <==> a.vecsemantics.code() < b.vecsemantics.code()),
{
}

/// Every descriptor is equivalent to itself.
pub proof fn lemma_equivalent_reflexive(a: TypeDesc)
    ensures
        a.equivalent_to(a),
{
}

/// Equivalence does not depend on the side a descriptor stands on.
pub proof fn lemma_equivalent_symmetric(a: TypeDesc, b: TypeDesc)
    ensures
        a.equivalent_to(b) == b.equivalent_to(a),
{
}

/// Two descriptors equivalent to a third are equivalent to each other.
pub proof fn lemma_equivalent_transitive(a: TypeDesc, b: TypeDesc, c: TypeDesc)
    requires
        a.equivalent_to(b),
        b.equivalent_to(c),
    ensures
        a.equivalent_to(c),
{
}

/// Equal descriptors are equivalent, and equivalent descriptors are equal
/// exactly when their hints are: two descriptors that differ in the hint
/// alone are equivalent and not equal.
pub proof fn lemma_equivalent_weaker_than_equal(a: TypeDesc, b: TypeDesc)
    ensures
        a == b ==> a.equivalent_to(b),
        a.equivalent_to(b) ==> (a == b <==> a.vecsemantics == b.vecsemantics),
        a.equivalent_to(b) && a.vecsemantics != b.vecsemantics ==> a != b,
{
}

/// A descriptor equals a bare kind exactly when the bare kind equals the
/// descriptor.
pub proof fn lemma_kind_equality_symmetric(a: TypeDesc, b: BaseType)
    ensures
        PartialEqSpec::eq_spec(&a, &b) == PartialEqSpec::eq_spec(&b, &a),
{
}

} // verus!
