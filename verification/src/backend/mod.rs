//! Code generation backends.
pub mod c;
