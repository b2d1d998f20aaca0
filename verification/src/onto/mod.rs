//! The object model's plain value types.

pub mod datatype;
