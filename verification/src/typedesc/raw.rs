//! The descriptor as it is exchanged: three codes of one byte each, one
//! byte that is kept free, and the array length.

use vstd::prelude::*;
use vstd::std_specs::convert::FromSpecImpl;
use crate::typedesc::desc::TypeDesc;
use crate::typedesc::kinds::Aggregate;
use crate::typedesc::kinds::BaseType;
use crate::typedesc::kinds::VecSemantics;

verus! {

/// A descriptor in its exchange form. Any bytes can stand in it: whether
/// they are codes is found out when it is read.
#[derive(Debug, Clone, Copy, PartialEq, Eq, Structural, Hash)]
pub struct RawTypeDesc {
    /// the code of the kind
    pub basetype: u8,
    /// the code of the aggregate
    pub aggregate: u8,
    /// the code of the hint
    pub vecsemantics: u8,
    /// kept free; written as 0 and not read
    pub reserved: u8,
    /// the array length
    pub arraylen: i32,
}

impl TypeDesc {
    /// The exchange form of the descriptor.
    pub open spec fn raw(self) -> RawTypeDesc {
        RawTypeDesc {
            basetype: self.basetype.code() as u8,
            aggregate: self.aggregate.code() as u8,
            vecsemantics: self.vecsemantics.code() as u8,
            reserved: 0,
            arraylen: self.arraylen,
        }
    }

    /// The descriptor that an exchange form stands for, if its three codes
    /// are codes.
    pub open spec fn of_raw(raw: RawTypeDesc) -> Option<TypeDesc> {
        match (
            BaseType::decode(raw.basetype as nat),
            Aggregate::decode(raw.aggregate as nat),
            VecSemantics::decode(raw.vecsemantics as nat),
        ) {
            (Some(b), Some(a), Some(s)) => Some(
                TypeDesc { basetype: b, aggregate: a, arraylen: raw.arraylen, vecsemantics: s },
            ),
            _ => None,
        }
    }

    /// Reads a descriptor from its exchange form. `None` comes exactly
    /// where one of the three codes is the code of nothing.
    pub fn from_raw(raw: RawTypeDesc) -> (r: Option<TypeDesc>)
        ensures
            r == TypeDesc::of_raw(raw),
    {
        let b = match BaseType::from_code(u32_of(raw.basetype)) {
            Some(b) => b,
            None => {
                return None;
            },
        };
        let a = match Aggregate::from_code(u32_of(raw.aggregate)) {
            Some(a) => a,
            None => {
                return None;
            },
        };
        let s = match VecSemantics::from_code(u32_of(raw.vecsemantics)) {
            Some(s) => s,
            None => {
                return None;
            },
        };
        Some(TypeDesc { basetype: b, aggregate: a, arraylen: raw.arraylen, vecsemantics: s })
    }
}

fn u32_of(code: u8) -> (r: u32)
    ensures
        r == code,
{
    code as u32
}

impl From<TypeDesc> for RawTypeDesc {
    /// The exchange form of a descriptor.
    fn from(value: TypeDesc) -> (r: RawTypeDesc) {
        RawTypeDesc {
            basetype: value.basetype.to_code(),
            aggregate: value.aggregate.to_code(),
            vecsemantics: value.vecsemantics.to_code(),
            reserved: 0,
            arraylen: value.arraylen,
        }
    }
}

impl FromSpecImpl<TypeDesc> for RawTypeDesc {
    open spec fn obeys_from_spec() -> bool {
        true
    }

    open spec fn from_spec(value: TypeDesc) -> RawTypeDesc {
        value.raw()
    }
}

/// The exchange form of a descriptor is read back as that descriptor.
pub proof fn lemma_raw_round_trip(d: TypeDesc)
    ensures
        TypeDesc::of_raw(d.raw()) == Some(d),
{
    d.basetype.lemma_code_round_trip();
    d.aggregate.lemma_code_round_trip();
    d.vecsemantics.lemma_code_round_trip();
}

} // verus!
