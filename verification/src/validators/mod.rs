//! Validators.
use crate::errors::{ErrorView, ValResult};
use crate::input::{Input, InputView};
use crate::python::handle_object;
use pyo3::types::{PyAny, PyDict};
use pyo3::{Py, PyErr, Python};
use vstd::prelude::*;

pub mod dict;
pub mod dict_laws;
pub mod dict_outcomes;

verus! {

/// What holds for a validation as a whole.
#[derive(Debug, Clone, Copy)]
pub struct Extra {
    /// Whether the validation is strict. Where nothing is said, each validator decides.
    pub strict: Option<bool>,
}

/// The model of what a validator gives.
pub open spec fn output_view(output: ValResult<Py<PyAny>>) -> Result<PyAny, ErrorView> {
    match output {
        Ok(handle) => Ok(handle_object(handle)),
        Err(error) => Err(error@),
    }
}

/// The model of the name of a validator.
pub type NameView = Seq<char>;

/// Something that accepts an input and gives a Python object for it, or says what is wrong.
pub trait Validator {
    /// What is carried along to notice that a validation has come back to where it already is.
    type Guard;

    /// Whether the validator may give `output` for the input and leave the guard as `after`.
    spec fn answers(
        &self,
        input: InputView,
        extra: Extra,
        before: Self::Guard,
        output: Result<PyAny, ErrorView>,
        after: Self::Guard,
    ) -> bool;

    /// Whether the validator accepts other inputs when it is strict.
    spec fn strict_differs(&self, ultra_strict: bool) -> bool;

    /// The name of the validator.
    spec fn name(&self) -> NameView;

    /// Validates the input.
    fn validate<'data, I: Input<'data>>(
        &self,
        py: Python<'data>,
        input: &'data I,
        extra: &Extra,
        recursion_guard: &mut Self::Guard,
    ) -> (output: ValResult<'data, Py<PyAny>>)
        ensures
            self.answers(
                input.as_view(),
                *extra,
                *old(recursion_guard),
                output_view(output),
                *final(recursion_guard),
            ),
    ;

    /// Whether the validator accepts other inputs when it is strict.
    fn different_strict_behavior(&self, ultra_strict: bool) -> (differs: bool)
        ensures
            differs == self.strict_differs(ultra_strict),
    ;

    /// The name of the validator.
    fn get_name(&self) -> (name: &str)
        ensures
            name@ == self.name(),
    ;
}

/// The validators that a schema can name.
pub trait CombinedValidator: Validator + Sized {
    /// What is gathered while the validators of a schema are made.
    type Definitions;

    /// Whether making the validator that a schema describes may give `validator`.
    spec fn built(
        schema: PyAny,
        config: Option<&PyDict>,
        before: Self::Definitions,
        validator: Result<Self, PyErr>,
        after: Self::Definitions,
    ) -> bool;

    /// Whether making the validator that accepts anything may give `validator`.
    spec fn any_built(
        schema: PyDict,
        config: Option<&PyDict>,
        before: Self::Definitions,
        validator: Result<Self, PyErr>,
        after: Self::Definitions,
    ) -> bool;

    /// Makes the validator that the schema describes.
    fn build_validator(
        schema: &PyAny,
        config: Option<&PyDict>,
        definitions: &mut Self::Definitions,
    ) -> (validator: Result<Self, PyErr>)
        ensures
            Self::built(*schema, config, *old(definitions), validator, *final(definitions)),
    ;

    /// Makes the validator that accepts anything.
    fn build_any(
        schema: &PyDict,
        config: Option<&PyDict>,
        definitions: &mut Self::Definitions,
    ) -> (validator: Result<Self, PyErr>)
        ensures
            Self::any_built(*schema, config, *old(definitions), validator, *final(definitions)),
    ;
}

} // verus!
