//! Validation of dictionary-like data that comes from Python objects or from parsed JSON.

pub mod build_tools;
pub mod errors;
pub mod input;
pub mod python;
pub mod type_validators;
pub mod validators;
