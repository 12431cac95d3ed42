//! The descriptor itself: four fields, stored as given.

use vstd::prelude::*;
use crate::typedesc::kinds::Aggregate;
use crate::typedesc::kinds::BaseType;
use crate::typedesc::kinds::VecSemantics;

verus! {

/// A description of a simple data type: a scalar kind, possibly grouped into
/// a small aggregate, possibly repeated as an array, with a hint about what
/// the data stands for.
///
/// A descriptor is a plain value. Its fields are stored as given and no
/// combination of them is refused. The fields are declared in the order in
/// which descriptors are compared: the hint weighs least.
#[derive(Debug, Clone, Copy, Eq, Hash, Ord)]
pub struct TypeDesc {
    /// the scalar kind at the heart of the type
    pub basetype: BaseType,
    /// how many scalars make up one value
    pub aggregate: Aggregate,
    /// 0 for a value that is no array, a positive length for an array of
    /// that many elements, a negative number (by convention -1) for an
    /// array of unspecified length
    pub arraylen: i32,
    /// what the value stands for
    pub vecsemantics: VecSemantics,
}

impl TypeDesc {
    /// A descriptor with exactly the given fields.
    pub fn new(btype: BaseType, agg: Aggregate, semantics: VecSemantics, arraylen: i32) -> (r:
        TypeDesc)
        ensures
            r == (TypeDesc {
                basetype: btype,
                aggregate: agg,
                arraylen: arraylen,
                vecsemantics: semantics,
            }),
    {
        TypeDesc { basetype: btype, aggregate: agg, arraylen: arraylen, vecsemantics: semantics }
    }

    /// A scalar of the given kind, or an array of such scalars, without a hint.
    pub fn from_basetype_arraylen(btype: BaseType, arraylen: i32) -> (r: TypeDesc)
        ensures
            r == (TypeDesc {
                basetype: btype,
                aggregate: Aggregate::Scalar,
                arraylen: arraylen,
                vecsemantics: VecSemantics::NoSemantics,
            }),
    {
        TypeDesc {
            basetype: btype,
            aggregate: Aggregate::Scalar,
            arraylen: arraylen,
            vecsemantics: VecSemantics::NoSemantics,
        }
    }

    /// An aggregate of the given kind, or an array of such aggregates,
    /// without a hint.
    pub fn from_basetype_aggregate_arraylen(btype: BaseType, agg: Aggregate, arraylen: i32) -> (r:
        TypeDesc)
        ensures
            r == (TypeDesc {
                basetype: btype,
                aggregate: agg,
                arraylen: arraylen,
                vecsemantics: VecSemantics::NoSemantics,
            }),
    {
        TypeDesc {
            basetype: btype,
            aggregate: agg,
            arraylen: arraylen,
            vecsemantics: VecSemantics::NoSemantics,
        }
    }

    /// Does the descriptor describe an array?
    pub fn is_array(&self) -> (r: bool)
        ensures
            r == (self.arraylen != 0),
    {
        self.arraylen != 0
    }

    /// Does the descriptor describe an array whose length is not given?
    pub fn is_unsized_array(&self) -> (r: bool)
        ensures
            r == (self.arraylen < 0),
    {
        self.arraylen < 0
    }

    /// Does the descriptor describe an array whose length is given?
    pub fn is_sized_array(&self) -> (r: bool)
        ensures
            r == (self.arraylen > 0),
    {
        self.arraylen > 0
    }

    /// The type of one element: the same descriptor, no longer an array.
    pub fn elementtype(&self) -> (r: TypeDesc)
        ensures
            r == (TypeDesc { arraylen: 0, ..*self }),
            r.arraylen == 0,
    {
        TypeDesc {
            basetype: self.basetype,
            aggregate: self.aggregate,
            arraylen: 0,
            vecsemantics: self.vecsemantics,
        }
    }

    /// The scalar underneath: the same kind, no longer an aggregate or an
    /// array, and without its hint.
    pub fn scalartype(&self) -> (r: TypeDesc)
        ensures
            r == (TypeDesc {
                basetype: self.basetype,
                aggregate: Aggregate::Scalar,
                arraylen: 0,
                vecsemantics: VecSemantics::NoSemantics,
            }),
            r.aggregate == Aggregate::Scalar,
    {
        TypeDesc {
            basetype: self.basetype,
            aggregate: Aggregate::Scalar,
            arraylen: 0,
            vecsemantics: VecSemantics::NoSemantics,
        }
    }

    /// Makes the descriptor a non-array. Nothing else changes.
    pub fn unarray(&mut self)
        ensures
            *final(self) == (TypeDesc { arraylen: 0, ..*old(self) }),
    {
        self.arraylen = 0;
    }

    /// Is the kind one of the three floating-point kinds?
    pub fn is_floating_point(&self) -> (r: bool)
        ensures
            r == (self.basetype == BaseType::Half || self.basetype == BaseType::Float
                || self.basetype == BaseType::Double),
    {
        match self.basetype {
            BaseType::Half | BaseType::Float | BaseType::Double => true,
            _ => false,
        }
    }

    /// Is the kind one of the four signed integer kinds? Every other kind,
    /// the floating-point kinds among them, answers no.
    pub fn is_signed(&self) -> (r: bool)
        ensures
            r == (self.basetype == BaseType::Int8 || self.basetype == BaseType::Int16
                || self.basetype == BaseType::Int32 || self.basetype == BaseType::Int64),
    {
        match self.basetype {
            BaseType::Int8 | BaseType::Int16 | BaseType::Int32 | BaseType::Int64 => true,
            _ => false,
        }
    }

    /// Is the kind `Unknown`?
    pub fn is_unknown(&self) -> (r: bool)
        ensures
            r == (self.basetype == BaseType::Unknown),
    {
        match self.basetype {
            BaseType::Unknown => true,
            _ => false,
        }
    }

    /// Is this a single 2-vector of the given kind?
    pub fn is_vec2(&self, b: BaseType) -> (r: bool)
        ensures
            r == (self.aggregate == Aggregate::Vec2 && self.basetype == b && self.arraylen == 0),
    {
        self.aggregate == Aggregate::Vec2 && self.basetype == b && self.arraylen == 0
    }

    /// Is this a single 3-vector of the given kind?
    pub fn is_vec3(&self, b: BaseType) -> (r: bool)
        ensures
            r == (self.aggregate == Aggregate::Vec3 && self.basetype == b && self.arraylen == 0),
    {
        self.aggregate == Aggregate::Vec3 && self.basetype == b && self.arraylen == 0
    }

    /// Is this a single 4-vector of the given kind?
    pub fn is_vec4(&self, b: BaseType) -> (r: bool)
        ensures
            r == (self.aggregate == Aggregate::Vec4 && self.basetype == b && self.arraylen == 0),
    {
        self.aggregate == Aggregate::Vec4 && self.basetype == b && self.arraylen == 0
    }

    /// Is this a 2D bounding box of the given kind: an array of two
    /// 2-vectors that carries the `Box` hint?
    pub fn is_box2(&self, b: BaseType) -> (r: bool)
        ensures
            r == (self.aggregate == Aggregate::Vec2 && self.basetype == b && self.vecsemantics
                == VecSemantics::Box && self.arraylen == 2),
    {
        self.aggregate == Aggregate::Vec2 && self.basetype == b && self.vecsemantics
            == VecSemantics::Box && self.arraylen == 2
    }

    /// Is this a 3D bounding box of the given kind: an array of two
    /// 3-vectors that carries the `Box` hint?
    pub fn is_box3(&self, b: BaseType) -> (r: bool)
        ensures
            r == (self.aggregate == Aggregate::Vec3 && self.basetype == b && self.vecsemantics
                == VecSemantics::Box && self.arraylen == 2),
    {
        self.aggregate == Aggregate::Vec3 && self.basetype == b && self.vecsemantics
            == VecSemantics::Box && self.arraylen == 2
    }
}

} // verus!
