//! Validators that are found by the name of a type.
use crate::errors::{ErrorView, ValResult};
use crate::python::handle_object;
use pyo3::types::{PyAny, PyDict};
use pyo3::{Py, PyErr, Python};
use vstd::prelude::*;

pub mod none;

verus! {

/// A validator for one type.
pub trait TypeValidator {
    /// What the validator makes of an object.
    spec fn verdict(&self, obj: PyAny) -> Result<PyAny, ErrorView>;

    /// Whether the validator is the one for a schema of that type.
    fn is_match(type_: &str, dict: &PyDict) -> bool where Self: Sized;

    /// Makes the validator that the schema describes.
    fn build(dict: &PyDict) -> Result<Self, PyErr> where Self: Sized;

    /// Accepts the object or says what is wrong with it.
    fn validate<'a>(&self, py: Python<'a>, obj: &'a PyAny) -> (output: ValResult<'a, Py<PyAny>>)
        ensures
            (match output {
                Ok(handle) => Ok(handle_object(handle)),
                Err(error) => Err(error@),
            }) == self.verdict(*obj),
    ;
}

/// A validator of whichever type.
pub struct DynTypeValidator(pub Box<dyn TypeValidator>);

} // verus!
