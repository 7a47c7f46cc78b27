//! Compiles a relationship-based access control (ReBAC) schema — type
//! definitions carrying relations and permission expressions — into structured
//! inference rules for a downstream deductive evaluation engine.

pub mod schema;
pub mod rule;
pub mod validate;
pub mod compile;
pub mod laws;
