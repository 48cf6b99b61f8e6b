//! Attribute-metadata front end for derive-style tools.
//!
//! The crate turns the raw, loosely typed text of nested annotations such as
//! `#[sim(ode_solver(algo = "eula", steps = "10"))]` into a well-formed,
//! queryable value tree, while collecting every malformed item in a
//! diagnostics context instead of stopping at the first.

pub mod ast;
pub mod ctxt;
pub mod laws;
pub mod parse;
pub mod symbol;
pub mod syn_conv;
pub mod tokens;
pub mod walk;
