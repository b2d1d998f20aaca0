//! Query-side plain types and helpers.

pub mod common;
