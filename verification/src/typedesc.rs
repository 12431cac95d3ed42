//! The descriptor, its parts, and everything that can be asked of it.

pub mod bytes;
pub mod convert;
pub mod desc;
pub mod digits;
pub mod grammar;
pub mod kinds;
pub mod layout;
pub mod merge;
pub mod numbers;
pub mod raw;
pub mod relations;
pub mod text;
pub mod values;

pub use self::desc::TypeDesc;
pub use self::kinds::Aggregate;
pub use self::kinds::BaseType;
pub use self::kinds::VecSemantics;
pub use self::layout::LayoutError;
pub use self::convert::Conversion;
pub use self::raw::RawTypeDesc;
pub use self::values::Decimals;
pub use self::values::Values;
