//! Rust code generation for records with variants known at build time: record definitions are
//! built variant after variant, each variant being laid out in memory like the fields of a
//! structure, and the generator derives what the generated types are made of.

pub mod generator;
pub mod record;
pub mod runtime;
pub mod text;
