//! Merging kinds: a kind that can take the values of two or three others.

use vstd::prelude::*;
use crate::typedesc::desc::TypeDesc;
use crate::typedesc::kinds::BaseType;

verus! {

impl BaseType {
    /// The size by which two kinds are weighed against each other when they
    /// are merged: the size of a scalar in bytes, and 0 for `LastBase`,
    /// which has none.
    pub open spec fn merge_weight(self) -> nat {
        match self.byte_size() {
            Some(n) => n,
            None => 0,
        }
    }

    /// A kind that holds the values of both kinds without loss, as far as
    /// there is one, and `Float` where there is none.
    ///
    /// Equal kinds merge to themselves, and `Unknown` gives way to the other
    /// kind. Otherwise the larger of the two is the candidate, the first
    /// where they are of one size. Every kind merges into `Double` and
    /// `Float`; the unsigned integers of 8 and 16 bits into `UInt32`; all
    /// integers of 8 and 16 bits into `Int32`; `UInt8` into `UInt16` and
    /// `Half`; `Int8` and `UInt8` into `Int16` and `Half`. In every other
    /// case the result is `Float`.
    pub open spec fn merge(self, other: BaseType) -> BaseType {
        if self == other {
            self
        } else if self == BaseType::Unknown {
            other
        } else if other == BaseType::Unknown {
            self
        } else if self.merge_weight() < other.merge_weight() {
            BaseType::absorb(other, self)
        } else {
            BaseType::absorb(self, other)
        }
    }

    /// The larger kind where it can take every value of the smaller, else
    /// `Float`.
    pub open spec fn absorb(large: BaseType, small: BaseType) -> BaseType {
        if large == BaseType::Double || large == BaseType::Float {
            large
        } else if large == BaseType::UInt32 && (small == BaseType::UInt16 || small
            == BaseType::UInt8) {
            large
        } else if large == BaseType::Int32 && (small == BaseType::Int16 || small == BaseType::Int8
            || small == BaseType::UInt16 || small == BaseType::UInt8) {
            large
        } else if (large == BaseType::UInt16 || large == BaseType::Half) && small
            == BaseType::UInt8 {
            large
        } else if (large == BaseType::Int16 || large == BaseType::Half) && (small
            == BaseType::Int8 || small == BaseType::UInt8) {
            large
        } else {
            BaseType::Float
        }
    }

    fn weight(self) -> (r: usize)
        ensures
            r == self.merge_weight(),
    {
        broadcast use vstd::layout::layout_of_primitives;

        match self {
            BaseType::Unknown | BaseType::Void | BaseType::LastBase => 0,
            BaseType::UInt8 | BaseType::Int8 => 1,
            BaseType::UInt16 | BaseType::Int16 | BaseType::Half => 2,
            BaseType::UInt32 | BaseType::Int32 | BaseType::Float => 4,
            BaseType::UInt64 | BaseType::Int64 | BaseType::Double | BaseType::UStringHash => 8,
            BaseType::String | BaseType::Ptr => core::mem::size_of::<usize>(),
        }
    }

    fn absorbed(large: BaseType, small: BaseType) -> (r: BaseType)
        ensures
            r == BaseType::absorb(large, small),
    {
        match large {
            BaseType::Double | BaseType::Float => large,
            BaseType::UInt32 => match small {
                BaseType::UInt16 | BaseType::UInt8 => large,
                _ => BaseType::Float,
            },
            BaseType::Int32 => match small {
                BaseType::Int16 | BaseType::Int8 | BaseType::UInt16 | BaseType::UInt8 => large,
                _ => BaseType::Float,
            },
            BaseType::UInt16 => match small {
                BaseType::UInt8 => large,
                _ => BaseType::Float,
            },
            BaseType::Int16 | BaseType::Half => match small {
                BaseType::Int8 | BaseType::UInt8 => large,
                _ => BaseType::Float,
            },
            _ => BaseType::Float,
        }
    }

    /// The merge of two kinds.
    pub fn merged(self, other: BaseType) -> (r: BaseType)
        ensures
            r == self.merge(other),
    {
        if self == other {
            self
        } else if self == BaseType::Unknown {
            other
        } else if other == BaseType::Unknown {
            self
        } else if self.weight() < other.weight() {
            BaseType::absorbed(other, self)
        } else {
            BaseType::absorbed(self, other)
        }
    }
}

impl TypeDesc {
    /// A kind that can take the values of both descriptors' kinds: the
    /// merge of the two kinds. Aggregates, lengths and hints play no part.
    pub fn basetype_merge(a: TypeDesc, b: TypeDesc) -> (r: BaseType)
        ensures
            r == a.basetype.merge(b.basetype),
    {
        a.basetype.merged(b.basetype)
    }

    /// A kind that can take the values of all three descriptors' kinds: the
    /// first two are merged, and the result is merged with the third.
    pub fn basetype_merge_3(a: TypeDesc, b: TypeDesc, c: TypeDesc) -> (r: BaseType)
        ensures
            r == a.basetype.merge(b.basetype).merge(c.basetype),
    {
        a.basetype.merged(b.basetype).merged(c.basetype)
    }
}

/// Merging gives one of the two kinds or `Float`, and never `Unknown` unless
/// both kinds are.
pub proof fn lemma_merge_picks(a: BaseType, b: BaseType)
    ensures
        a.merge(b) == a || a.merge(b) == b || a.merge(b) == BaseType::Float,
        a.merge(b) == BaseType::Unknown ==> a == BaseType::Unknown && b == BaseType::Unknown,
{
}

/// Merging a kind with itself or with `Unknown` changes nothing.
pub proof fn lemma_merge_neutral(a: BaseType)
    ensures
        a.merge(a) == a,
        a.merge(BaseType::Unknown) == a,
        BaseType::Unknown.merge(a) == a,
{
}

} // verus!
