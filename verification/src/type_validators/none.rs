//! The validator for `None`.
use crate::errors::{single_error, ErrorType, ErrorTypeView, ErrorView, ValError, ValResult};
use crate::input::InputView;
use crate::python::{handle_object, is_none, object_handle, object_is_none};
use crate::type_validators::{DynTypeValidator, TypeValidator};
use pyo3::types::{PyAny, PyDict};
use pyo3::{Py, PyErr, Python};
use vstd::prelude::*;

verus! {

/// Accepts `None` and nothing else.
#[derive(Debug)]
pub struct NoneValidator;

impl Clone for NoneValidator {
    fn clone(&self) -> (copy: Self)
        ensures
            copy == *self,
    {
        NoneValidator
    }
}

impl TypeValidator for NoneValidator {
    open spec fn verdict(&self, obj: PyAny) -> Result<PyAny, ErrorView> {
        if is_none(obj) {
            Ok(obj)
        } else {
            Err(single_error(ErrorTypeView::NoneRequired, InputView::PyAny(obj)))
        }
    }

    fn is_match(type_: &str, _dict: &PyDict) -> (matched: bool)
        ensures
            matched == (type_@ == "null"@),
    {
        type_.to_owned() == "null".to_owned()
    }

    fn build(_dict: &PyDict) -> (validator: Result<Self, PyErr>)
        ensures
            validator == Ok::<NoneValidator, PyErr>(NoneValidator),
    {
        Ok(NoneValidator)
    }

    fn validate<'a>(&self, py: Python<'a>, obj: &'a PyAny) -> (output: ValResult<'a, Py<PyAny>>)
        ensures
            output is Ok <==> is_none(*obj),
            output matches Ok(handle) ==> handle_object(handle) == *obj,
            output matches Err(error) ==> (error@ matches ErrorView::LineErrors(lines) && {
                &&& lines.len() == 1
                &&& lines[0].error_type == ErrorTypeView::NoneRequired
                &&& lines[0].location.len() == 0
                &&& lines[0].input_value == InputView::PyAny(*obj)
            }),
    {
        if object_is_none(obj) {
            Ok(object_handle(obj, py))
        } else {
            Err(ValError::new(ErrorType::NoneRequired, obj))
        }
    }
}

impl NoneValidator {
    /// A copy of the validator as one of whichever type.
    pub fn clone_dyn(&self) -> (copy: DynTypeValidator)
        ensures
            forall|obj: PyAny| #[trigger] copy.0.verdict(obj) == self.verdict(obj),
    {
        DynTypeValidator(Box::new(self.clone()))
    }
}

/// The validator gives an object exactly when it is `None`, and then gives that object itself. Any
/// other object has the one fault that `None` is required there, in the object as a whole.
pub proof fn law_none_alone(validator: NoneValidator, obj: PyAny)
    ensures
        validator.verdict(obj) is Ok <==> is_none(obj),
        validator.verdict(obj) matches Ok(output) ==> output == obj,
        !is_none(obj) ==> (validator.verdict(obj) matches Err(ErrorView::LineErrors(lines)) && {
            &&& lines.len() == 1
            &&& lines[0].error_type == ErrorTypeView::NoneRequired
            &&& lines[0].location.len() == 0
            &&& lines[0].input_value == InputView::PyAny(obj)
        }),
{
}

} // verus!
