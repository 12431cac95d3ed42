//! The three closed enumerations a descriptor is built from, each with the
//! fixed numeric code under which it is stored and exchanged.

use vstd::prelude::*;
use vstd::std_specs::convert::FromSpecImpl;

verus! {

/// The scalar storage kind at the heart of a descriptor.
///
/// The variants are declared in the order of their codes, from `Unknown`
/// with code 0 to `LastBase` with code 16. The codes are part of the
/// interchange format and the order of descriptors goes by them.
#[derive(Debug, Clone, Copy, PartialEq, Eq, Structural, Hash, Ord)]
pub enum BaseType {
    /// unknown type
    Unknown,
    /// void, no type
    Void,
    /// 8-bit unsigned integer, 0 to 255
    UInt8,
    /// 8-bit signed integer, -128 to 127
    Int8,
    /// 16-bit unsigned integer, 0 to 65535
    UInt16,
    /// 16-bit signed integer, -32768 to 32767
    Int16,
    /// 32-bit unsigned integer
    UInt32,
    /// 32-bit signed integer
    Int32,
    /// 64-bit unsigned integer
    UInt64,
    /// 64-bit signed integer
    Int64,
    /// 16-bit IEEE floating point
    Half,
    /// 32-bit IEEE floating point
    Float,
    /// 64-bit IEEE floating point
    Double,
    /// character string
    String,
    /// a pointer value
    Ptr,
    /// a 64-bit hash of a string
    UStringHash,
    /// the number of kinds above; it describes no data
    LastBase,
}

impl BaseType {
    /// The numeric code of the variant.
    pub open spec fn code(self) -> nat {
        match self {
            BaseType::Unknown => 0,
            BaseType::Void => 1,
            BaseType::UInt8 => 2,
            BaseType::Int8 => 3,
            BaseType::UInt16 => 4,
            BaseType::Int16 => 5,
            BaseType::UInt32 => 6,
            BaseType::Int32 => 7,
            BaseType::UInt64 => 8,
            BaseType::Int64 => 9,
            BaseType::Half => 10,
            BaseType::Float => 11,
            BaseType::Double => 12,
            BaseType::String => 13,
            BaseType::Ptr => 14,
            BaseType::UStringHash => 15,
            BaseType::LastBase => 16,
        }
    }

    /// The variant that has the given code, if there is one.
    pub open spec fn decode(code: nat) -> Option<BaseType> {
        if code == 0 {
            Some(BaseType::Unknown)
        } else if code == 1 {
            Some(BaseType::Void)
        } else if code == 2 {
            Some(BaseType::UInt8)
        } else if code == 3 {
            Some(BaseType::Int8)
        } else if code == 4 {
            Some(BaseType::UInt16)
        } else if code == 5 {
            Some(BaseType::Int16)
        } else if code == 6 {
            Some(BaseType::UInt32)
        } else if code == 7 {
            Some(BaseType::Int32)
        } else if code == 8 {
            Some(BaseType::UInt64)
        } else if code == 9 {
            Some(BaseType::Int64)
        } else if code == 10 {
            Some(BaseType::Half)
        } else if code == 11 {
            Some(BaseType::Float)
        } else if code == 12 {
            Some(BaseType::Double)
        } else if code == 13 {
            Some(BaseType::String)
        } else if code == 14 {
            Some(BaseType::Ptr)
        } else if code == 15 {
            Some(BaseType::UStringHash)
        } else if code == 16 {
            Some(BaseType::LastBase)
        } else {
            None
        }
    }

    /// The numeric code of the variant, as the byte under which it is stored.
    pub fn to_code(self) -> (c: u8)
        ensures
            c == self.code(),
    {
        match self {
            BaseType::Unknown => 0,
            BaseType::Void => 1,
            BaseType::UInt8 => 2,
            BaseType::Int8 => 3,
            BaseType::UInt16 => 4,
            BaseType::Int16 => 5,
            BaseType::UInt32 => 6,
            BaseType::Int32 => 7,
            BaseType::UInt64 => 8,
            BaseType::Int64 => 9,
            BaseType::Half => 10,
            BaseType::Float => 11,
            BaseType::Double => 12,
            BaseType::String => 13,
            BaseType::Ptr => 14,
            BaseType::UStringHash => 15,
            BaseType::LastBase => 16,
        }
    }

    /// Reads a numeric code back. `None` comes exactly for a number that is
    /// the code of no variant.
    pub fn from_code(code: u32) -> (r: Option<BaseType>)
        ensures
            r == BaseType::decode(code as nat),
    {
        match code {
            0 => Some(BaseType::Unknown),
            1 => Some(BaseType::Void),
            2 => Some(BaseType::UInt8),
            3 => Some(BaseType::Int8),
            4 => Some(BaseType::UInt16),
            5 => Some(BaseType::Int16),
            6 => Some(BaseType::UInt32),
            7 => Some(BaseType::Int32),
            8 => Some(BaseType::UInt64),
            9 => Some(BaseType::Int64),
            10 => Some(BaseType::Half),
            11 => Some(BaseType::Float),
            12 => Some(BaseType::Double),
            13 => Some(BaseType::String),
            14 => Some(BaseType::Ptr),
            15 => Some(BaseType::UStringHash),
            16 => Some(BaseType::LastBase),
            _ => None,
        }
    }

    /// A code that was written by `to_code` is read back as the same variant,
    /// and no two variants share a code.
    pub proof fn lemma_code_round_trip(self)
        ensures
            BaseType::decode(self.code()) == Some(self),
    {
    }
}

impl From<BaseType> for u32 {
    fn from(value: BaseType) -> (r: u32) {
        let c: u8 = value.to_code();
        c.into()
    }
}

impl FromSpecImpl<BaseType> for u32 {
    open spec fn obeys_from_spec() -> bool {
        true
    }

    open spec fn from_spec(value: BaseType) -> u32 {
        value.code() as u32
    }
}

impl Default for BaseType {
    fn default() -> (r: BaseType)
        ensures
            r == BaseType::Unknown,
    {
        BaseType::Unknown
    }
}

/// Whether a value is a single scalar or one of a few small fixed aggregates.
///
/// The code of an aggregate is the number of scalars it is made of. An
/// aggregate is not an array: a `Vec3` of floats is one value of three
/// components, while an array of three floats is three values.
#[derive(Debug, Clone, Copy, PartialEq, Eq, Structural, Hash, Ord)]
pub enum Aggregate {
    /// a single value
    Scalar,
    /// 2 values: a 2D vector
    Vec2,
    /// 3 values: a 3D vector
    Vec3,
    /// 4 values: a 4D vector
    Vec4,
    /// 9 values: a 3x3 matrix
    Matrix33,
    /// 16 values: a 4x4 matrix
    Matrix44,
}

impl Aggregate {
    /// The numeric code of the variant.
    pub open spec fn code(self) -> nat {
        match self {
            Aggregate::Scalar => 1,
            Aggregate::Vec2 => 2,
            Aggregate::Vec3 => 3,
            Aggregate::Vec4 => 4,
            Aggregate::Matrix33 => 9,
            Aggregate::Matrix44 => 16,
        }
    }

    /// The variant that has the given code, if there is one.
    pub open spec fn decode(code: nat) -> Option<Aggregate> {
        if code == 1 {
            Some(Aggregate::Scalar)
        } else if code == 2 {
            Some(Aggregate::Vec2)
        } else if code == 3 {
            Some(Aggregate::Vec3)
        } else if code == 4 {
            Some(Aggregate::Vec4)
        } else if code == 9 {
            Some(Aggregate::Matrix33)
        } else if code == 16 {
            Some(Aggregate::Matrix44)
        } else {
            None
        }
    }

    /// The numeric code of the variant, as the byte under which it is stored.
    pub fn to_code(self) -> (c: u8)
        ensures
            c == self.code(),
    {
        match self {
            Aggregate::Scalar => 1,
            Aggregate::Vec2 => 2,
            Aggregate::Vec3 => 3,
            Aggregate::Vec4 => 4,
            Aggregate::Matrix33 => 9,
            Aggregate::Matrix44 => 16,
        }
    }

    /// Reads a numeric code back. `None` comes exactly for a number that is
    /// the code of no variant.
    pub fn from_code(code: u32) -> (r: Option<Aggregate>)
        ensures
            r == Aggregate::decode(code as nat),
    {
        match code {
            1 => Some(Aggregate::Scalar),
            2 => Some(Aggregate::Vec2),
            3 => Some(Aggregate::Vec3),
            4 => Some(Aggregate::Vec4),
            9 => Some(Aggregate::Matrix33),
            16 => Some(Aggregate::Matrix44),
            _ => None,
        }
    }

    /// A code that was written by `to_code` is read back as the same variant,
    /// and no two variants share a code.
    pub proof fn lemma_code_round_trip(self)
        ensures
            Aggregate::decode(self.code()) == Some(self),
    {
    }
}

impl From<Aggregate> for u32 {
    fn from(value: Aggregate) -> (r: u32) {
        let c: u8 = value.to_code();
        c.into()
    }
}

impl FromSpecImpl<Aggregate> for u32 {
    open spec fn obeys_from_spec() -> bool {
        true
    }

    open spec fn from_spec(value: Aggregate) -> u32 {
        value.code() as u32
    }
}

/// A hint about what the data stands for. It changes nothing about how the
/// data is laid out.
#[derive(Debug, Clone, Copy, PartialEq, Eq, Structural, Hash, Ord)]
pub enum VecSemantics {
    /// no hint
    NoSemantics,
    /// a color
    Color,
    /// a spatial location
    Point,
    /// a spatial direction
    Vector,
    /// a surface normal
    Normal,
    /// an `int[2]` holding an SMPTE timecode
    Timecode,
    /// an `int[7]` holding an SMPTE keycode
    Keycode,
    /// a `Vec2` holding the rational number `val[0] / val[1]`
    Rational,
    /// a `Vec2[2]` or `Vec3[2]` holding the two corners of a bounding box
    Box,
}

impl VecSemantics {
    /// The numeric code of the variant.
    pub open spec fn code(self) -> nat {
        match self {
            VecSemantics::NoSemantics => 0,
            VecSemantics::Color => 1,
            VecSemantics::Point => 2,
            VecSemantics::Vector => 3,
            VecSemantics::Normal => 4,
            VecSemantics::Timecode => 5,
            VecSemantics::Keycode => 6,
            VecSemantics::Rational => 7,
            VecSemantics::Box => 8,
        }
    }

    /// The variant that has the given code, if there is one.
    pub open spec fn decode(code: nat) -> Option<VecSemantics> {
        if code == 0 {
            Some(VecSemantics::NoSemantics)
        } else if code == 1 {
            Some(VecSemantics::Color)
        } else if code == 2 {
            Some(VecSemantics::Point)
        } else if code == 3 {
            Some(VecSemantics::Vector)
        } else if code == 4 {
            Some(VecSemantics::Normal)
        } else if code == 5 {
            Some(VecSemantics::Timecode)
        } else if code == 6 {
            Some(VecSemantics::Keycode)
        } else if code == 7 {
            Some(VecSemantics::Rational)
        } else if code == 8 {
            Some(VecSemantics::Box)
        } else {
            None
        }
    }

    /// The numeric code of the variant, as the byte under which it is stored.
    pub fn to_code(self) -> (c: u8)
        ensures
            c == self.code(),
    {
        match self {
            VecSemantics::NoSemantics => 0,
            VecSemantics::Color => 1,
            VecSemantics::Point => 2,
            VecSemantics::Vector => 3,
            VecSemantics::Normal => 4,
            VecSemantics::Timecode => 5,
            VecSemantics::Keycode => 6,
            VecSemantics::Rational => 7,
            VecSemantics::Box => 8,
        }
    }

    /// Reads a numeric code back. `None` comes exactly for a number that is
    /// the code of no variant.
    pub fn from_code(code: u32) -> (r: Option<VecSemantics>)
        ensures
            r == VecSemantics::decode(code as nat),
    {
        match code {
            0 => Some(VecSemantics::NoSemantics),
            1 => Some(VecSemantics::Color),
            2 => Some(VecSemantics::Point),
            3 => Some(VecSemantics::Vector),
            4 => Some(VecSemantics::Normal),
            5 => Some(VecSemantics::Timecode),
            6 => Some(VecSemantics::Keycode),
            7 => Some(VecSemantics::Rational),
            8 => Some(VecSemantics::Box),
            _ => None,
        }
    }

    /// A code that was written by `to_code` is read back as the same variant,
    /// and no two variants share a code.
    pub proof fn lemma_code_round_trip(self)
        ensures
            VecSemantics::decode(self.code()) == Some(self),
    {
    }
}

impl From<VecSemantics> for u32 {
    fn from(value: VecSemantics) -> (r: u32) {
        let c: u8 = value.to_code();
        c.into()
    }
}

impl FromSpecImpl<VecSemantics> for u32 {
    open spec fn obeys_from_spec() -> bool {
        true
    }

    open spec fn from_spec(value: VecSemantics) -> u32 {
        value.code() as u32
    }
}

impl Default for VecSemantics {
    fn default() -> (r: VecSemantics)
        ensures
            r == VecSemantics::NoSemantics,
    {
        VecSemantics::NoSemantics
    }
}
} // verus!
