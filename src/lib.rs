//! Binding of declared program inputs to the formal inputs of an entry point,
//! and flattening of the public ones into field elements.

pub mod declaration;
pub mod error;
pub mod inputs;
pub mod value;
pub mod public;
pub mod theorems;
