//! Record related structures.

pub mod definition;
pub mod naming;
pub mod type_resolver;
