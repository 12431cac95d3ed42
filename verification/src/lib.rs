//! Type descriptors for blobs of binary data: what scalar a value is made
//! of, whether it is a small fixed aggregate, what it is meant to represent,
//! and whether it repeats as an array.

pub mod typedesc;
