//! The data that is validated.
use crate::errors::{
    single_error, ErrorType, ErrorTypeView, ErrorView, LocItem, LocView, ValError, ValResult,
};
use crate::python::{
    as_dict, as_string, class_name_answered, downcast_dict, downcast_mapping, downcast_string,
    extract_int, int_answered, int_read, int_value, lossy_text, mapping_check_answered,
    mapping_object, object_class_name, object_repr, repr_answered, string_points, string_to_lossy,
};
use pyo3::types::{PyAny, PyDict, PyMapping, PyString};
use pyo3::PyErr;
use vstd::prelude::*;

pub mod parse_json;
pub mod return_enums;

use parse_json::{lemma_object_view, JsonInput, JsonView};
use return_enums::{GenericMapping, MappingView};

verus! {

/// A value of the input, as an error refers to it.
#[derive(Debug, Clone, Copy)]
pub enum InputValue<'a> {
    PyAny(&'a PyAny),
    JsonInput(&'a JsonInput),
    String(&'a str),
}

/// The model of an input value.
pub enum InputView {
    PyAny(PyAny),
    JsonInput(JsonView),
    String(Seq<char>),
}

impl<'a> View for InputValue<'a> {
    type V = InputView;

    open spec fn view(&self) -> InputView {
        match self {
            InputValue::PyAny(object) => InputView::PyAny(**object),
            InputValue::JsonInput(json) => InputView::JsonInput(json@),
            InputValue::String(text) => InputView::String(text@),
        }
    }
}

/// A kind of data that can be validated.
pub trait Input<'a> {
    /// The value that the input is.
    spec fn as_view(&self) -> InputView;

    /// The input as an error refers to it.
    fn as_error_value(&'a self) -> (value: InputValue<'a>)
        ensures
            value@ == self.as_view(),
    ;

    /// The input as a mapping. Where it is not one, the error says that a dictionary is wanted.
    fn validate_dict(&'a self, strict: bool) -> (mapping: ValResult<'a, GenericMapping<'a>>)
        ensures
            dict_answered(self.as_view(), strict, mapping_result_view(mapping)),
    ;
}

/// A kind of data that can be a key of a mapping.
pub trait KeyInput<'a>: Input<'a> {
    /// The key as a step of a location.
    fn as_loc_item(&self) -> (loc_item: LocItem)
        ensures
            loc_answered(self.as_view(), loc_item@),
    ;
}

/// The model of what an input gives where a mapping is wanted.
pub open spec fn mapping_result_view(mapping: ValResult<GenericMapping>) -> Result<
    MappingView,
    ErrorView,
> {
    match mapping {
        Ok(mapping) => Ok(mapping@),
        Err(error) => Err(error@),
    }
}

/// What an input may be taken for where a mapping is wanted.
///
/// A JSON value is a mapping when it is an object, and text is none. A Python object is a mapping
/// when it is a `dict`; unless the validation is strict, so is an object that passes for a mapping.
pub open spec fn dict_answered(
    input: InputView,
    strict: bool,
    answer: Result<MappingView, ErrorView>,
) -> bool {
    let refusal = Err::<MappingView, ErrorView>(single_error(ErrorTypeView::DictType, input));
    match input {
        InputView::String(_) => answer == refusal,
        InputView::JsonInput(json) => match json {
            JsonView::Object(members) => answer == Ok::<_, ErrorView>(
                MappingView::JsonObject(members),
            ),
            _ => answer == refusal,
        },
        InputView::PyAny(object) => match as_dict(object) {
            Some(dict) => answer == Ok::<_, ErrorView>(MappingView::PyDict(dict)),
            None => if strict {
                answer == refusal
            } else {
                exists|check: Option<&PyMapping>|
                    {
                        &&& #[trigger] mapping_check_answered(object, check)
                        &&& match check {
                            Some(mapping) => {
                                &&& mapping_object(*mapping) == object
                                &&& answer == Ok::<_, ErrorView>(MappingView::PyMapping(*mapping))
                            },
                            None => answer == refusal,
                        }
                    }
            },
        },
    }
}

/// The text for an object whose `repr` is given, or, where that has failed, for an object of the
/// given class.
pub open spec fn repr_text(repr: Option<Seq<char>>, class_name: Option<Seq<char>>) -> Seq<char> {
    match repr {
        Some(text) => text,
        None => match class_name {
            Some(name) => "<unprintable "@ + name + " object>"@,
            None => "<unprintable object>"@,
        },
    }
}

/// Whether the text is what has been found to stand for an object that cannot be shown.
pub open spec fn unprintable_described(object: PyAny, text: Seq<char>) -> bool {
    exists|name: Result<Seq<char>, PyErr>|
        {
            &&& #[trigger] class_name_answered(object, name)
            &&& text == repr_text(
                None,
                match name {
                    Ok(name) => Some(name),
                    Err(_) => None,
                },
            )
        }
}

/// Whether the text is what has been found to show the object.
pub open spec fn repr_described(object: PyAny, text: Seq<char>) -> bool {
    exists|repr: Result<&PyString, PyErr>|
        {
            &&& #[trigger] repr_answered(object, repr)
            &&& match repr {
                Ok(string) => text == repr_text(Some(lossy_text(string_points(*string))), None),
                Err(_) => unprintable_described(object, text),
            }
        }
}

/// What a key may become as a step of a location: text stands for itself, a Python integer for
/// itself, and any other Python object for what it shows itself as. No JSON value but text is a
/// key.
pub open spec fn loc_answered(key: InputView, loc: LocView) -> bool {
    match key {
        InputView::String(text) => loc == LocView::S(text),
        InputView::JsonInput(_) => false,
        InputView::PyAny(object) => match as_string(object) {
            Some(string) => loc == LocView::S(lossy_text(string_points(string))),
            None => exists|read: Result<i64, PyErr>|
                {
                    &&& #[trigger] int_read(object, read)
                    &&& match read {
                        Ok(index) => loc == LocView::I(index as int),
                        Err(_) => loc is S && repr_described(object, loc->S_0),
                    }
                },
        },
    }
}

/// Shows an object by its `repr`, or by its class where that fails.
pub fn safe_repr(object: &PyAny) -> (text: String)
    ensures
        repr_described(*object, text@),
{
    match object_repr(object) {
        Ok(string) => string_to_lossy(string),
        Err(_) => unprintable_text(
            match object_class_name(object) {
                Ok(name) => Some(name),
                Err(_) => None,
            },
        ),
    }
}

/// The text for an object that cannot be shown.
pub fn unprintable_text(class_name: Option<&str>) -> (text: String)
    ensures
        text@ == repr_text(
            None,
            match class_name {
                Some(name) => Some(name@),
                None => None,
            },
        ),
{
    match class_name {
        Some(name) => {
            let mut text = "<unprintable ".to_owned();
            text.append(name);
            text.append(" object>");
            text
        },
        None => "<unprintable object>".to_owned(),
    }
}

impl<'a> Input<'a> for PyAny {
    open spec fn as_view(&self) -> InputView {
        InputView::PyAny(*self)
    }

    fn as_error_value(&'a self) -> (value: InputValue<'a>) {
        InputValue::PyAny(self)
    }

    fn validate_dict(&'a self, strict: bool) -> (mapping: ValResult<'a, GenericMapping<'a>>) {
        if let Some(dict) = downcast_dict(self) {
            return Ok(GenericMapping::from(dict));
        }
        if !strict {
            if let Some(mapping) = downcast_mapping(self) {
                return Ok(GenericMapping::from(mapping));
            }
        }
        Err(ValError::new_custom_input(ErrorType::DictType, InputValue::PyAny(self)))
    }
}

impl<'a> KeyInput<'a> for PyAny {
    fn as_loc_item(&self) -> (loc_item: LocItem) {
        match downcast_string(self) {
            Ok(string) => LocItem::S(string_to_lossy(string)),
            Err(_) => match extract_int(self) {
                Ok(index) => LocItem::I(index),
                Err(_) => LocItem::S(safe_repr(self)),
            },
        }
    }
}

impl<'a> Input<'a> for JsonInput {
    open spec fn as_view(&self) -> InputView {
        InputView::JsonInput(self@)
    }

    fn as_error_value(&'a self) -> (value: InputValue<'a>) {
        InputValue::JsonInput(self)
    }

    fn validate_dict(&'a self, _strict: bool) -> (mapping: ValResult<'a, GenericMapping<'a>>) {
        match self {
            JsonInput::Object(members) => {
                proof {
                    lemma_object_view(*members);
                }
                Ok(GenericMapping::from(members))
            },
            _ => Err(ValError::new_custom_input(ErrorType::DictType, InputValue::JsonInput(self))),
        }
    }
}

impl<'a> Input<'a> for String {
    open spec fn as_view(&self) -> InputView {
        InputView::String(self@)
    }

    fn as_error_value(&'a self) -> (value: InputValue<'a>) {
        InputValue::String(self.as_str())
    }

    fn validate_dict(&'a self, _strict: bool) -> (mapping: ValResult<'a, GenericMapping<'a>>) {
        Err(ValError::new_custom_input(ErrorType::DictType, InputValue::String(self.as_str())))
    }
}

impl<'a> KeyInput<'a> for String {
    fn as_loc_item(&self) -> (loc_item: LocItem) {
        LocItem::S(self.clone())
    }
}

/// What passes for a mapping in a strict validation also does in one that is not, and for the same
/// mapping.
pub proof fn law_strict_is_narrower(input: InputView, mapping: MappingView)
    requires
        dict_answered(input, true, Ok(mapping)),
    ensures
        dict_answered(input, false, Ok(mapping)),
{
}

/// Being strict makes no difference to JSON, to text, or to a Python `dict`.
pub proof fn law_strictness_leaves_dicts_and_json(
    input: InputView,
    answer: Result<MappingView, ErrorView>,
)
    requires
        input matches InputView::PyAny(object) ==> as_dict(object) is Some,
    ensures
        dict_answered(input, true, answer) <==> dict_answered(input, false, answer),
{
}

/// An input is never taken for a mapping of attributes, and is refused only as something that is
/// not a dictionary.
pub proof fn law_mapping_kinds(
    input: InputView,
    strict: bool,
    answer: Result<MappingView, ErrorView>,
)
    requires
        dict_answered(input, strict, answer),
    ensures
        answer matches Ok(mapping) ==> !(mapping is PyGetAttr),
        answer matches Err(error) ==> error == single_error(ErrorTypeView::DictType, input),
{
}

/// A value is modelled as what it is: a Python object as that object, JSON as its model, and text
/// as its characters. An input is modelled as the value that errors refer to.
pub proof fn law_input_view(object: PyAny, json: JsonInput, text: String, other: &str)
    ensures
        InputValue::PyAny(&object)@ == InputView::PyAny(object),
        InputValue::JsonInput(&json)@ == InputView::JsonInput(json@),
        InputValue::String(other)@ == InputView::String(other@),
        object.as_view() == InputView::PyAny(object),
        json.as_view() == InputView::JsonInput(json@),
        text.as_view() == InputView::String(text@),
{
}

/// The model of what an input gives where a mapping is wanted keeps apart what was given and the
/// error.
pub proof fn law_mapping_result_view(mapping: GenericMapping<'_>, error: ValError<'_>)
    ensures
        mapping_result_view(Ok(mapping)) == Ok::<MappingView, ErrorView>(mapping@),
        mapping_result_view(Err(error)) == Err::<MappingView, ErrorView>(error@),
{
}

/// Whether the answer is the one fault that a dictionary is wanted, in the input as a whole.
pub open spec fn wants_dict(input: InputView, answer: Result<MappingView, ErrorView>) -> bool {
    answer matches Err(ErrorView::LineErrors(lines)) && {
        &&& lines.len() == 1
        &&& lines[0].error_type == ErrorTypeView::DictType
        &&& lines[0].location.len() == 0
        &&& lines[0].input_value == input
    }
}

/// A Python `dict` is always taken for itself, and a JSON object for its members.
pub proof fn law_dictionaries_are_taken(
    object: PyAny,
    dict: PyDict,
    members: Seq<parse_json::MemberView>,
    strict: bool,
    answer: Result<MappingView, ErrorView>,
)
    ensures
        as_dict(object) == Some(dict) ==> (dict_answered(InputView::PyAny(object), strict, answer)
            <==> answer == Ok::<MappingView, ErrorView>(MappingView::PyDict(dict))),
        dict_answered(InputView::JsonInput(JsonView::Object(members)), strict, answer) <==> answer
            == Ok::<MappingView, ErrorView>(MappingView::JsonObject(members)),
{
}

/// What is no mapping is refused as something that is not a dictionary: text, a JSON value that is
/// no object, and a Python object that is no `dict`, where the validation is strict or where the
/// object does not pass for a mapping.
pub proof fn law_others_are_refused(
    input: InputView,
    strict: bool,
    answer: Result<MappingView, ErrorView>,
)
    requires
        dict_answered(input, strict, answer),
    ensures
        input is String ==> wants_dict(input, answer),
        input matches InputView::JsonInput(json) ==> !(json is Object) ==> wants_dict(
            input,
            answer,
        ),
        input matches InputView::PyAny(object) ==> as_dict(object) is None && strict ==> wants_dict(
            input,
            answer,
        ),
        input matches InputView::PyAny(object) ==> as_dict(object) is None && (forall|
            check: Option<&PyMapping>,
        | #[trigger]
            mapping_check_answered(object, check) ==> check is None) ==> wants_dict(input, answer),
{
}

/// A Python object that is no `dict` but passes for a mapping is taken for that mapping, which is
/// the object itself, unless the validation is strict.
pub proof fn law_mappings_are_taken(
    object: PyAny,
    mapping: PyMapping,
    answer: Result<MappingView, ErrorView>,
)
    requires
        as_dict(object) is None,
        forall|check: Option<&PyMapping>| #[trigger]
            mapping_check_answered(object, check) ==> check == Some(&mapping),
        dict_answered(InputView::PyAny(object), false, answer),
    ensures
        answer == Ok::<MappingView, ErrorView>(MappingView::PyMapping(mapping)),
        mapping_object(mapping) == object,
{
}

/// A text is the step of a location that it is, whether it is a Python string or not.
pub proof fn law_text_steps(key: InputView, loc: LocView)
    requires
        loc_answered(key, loc),
    ensures
        key matches InputView::String(text) ==> loc == LocView::S(text),
        key matches InputView::PyAny(object) ==> (as_string(object) matches Some(string) ==> loc
            == LocView::S(lossy_text(string_points(string)))),
{
}

/// A Python integer is the step of a location that it is, where it fits.
pub proof fn law_number_steps(object: PyAny, value: int, loc: LocView)
    requires
        as_string(object) is None,
        int_value(object) == Some(value),
        i64::MIN <= value <= i64::MAX,
        loc_answered(InputView::PyAny(object), loc),
    ensures
        loc == LocView::I(value),
{
}

/// Any other Python object is the number that it reads as, or else the text that it shows itself
/// as, or else a text that names its class.
pub proof fn law_other_steps(object: PyAny, loc: LocView)
    requires
        as_string(object) is None,
        loc_answered(InputView::PyAny(object), loc),
    ensures
        match loc {
            LocView::I(index) => exists|read: i64| #[trigger]
                int_answered(object, Ok(read)) && index == read,
            LocView::S(text) => {
                &&& exists|exception: PyErr| #[trigger] int_answered(object, Err(exception))
                &&& {
                    ||| exists|shown: PyString|
                        {
                            &&& #[trigger] repr_answered(object, Ok(&shown))
                            &&& text == lossy_text(string_points(shown))
                        }
                    ||| {
                        &&& exists|exception: PyErr| #[trigger]
                            repr_answered(object, Err(exception))
                        &&& {
                            ||| exists|name: Seq<char>|
                                {
                                    &&& #[trigger] class_name_answered(object, Ok(name))
                                    &&& text == "<unprintable "@ + name + " object>"@
                                }
                            ||| {
                                &&& exists|exception: PyErr| #[trigger]
                                    class_name_answered(object, Err(exception))
                                &&& text == "<unprintable object>"@
                            }
                        }
                    }
                }
            },
        },
{
    let read = choose|read: Result<i64, PyErr>|
        {
            &&& #[trigger] int_read(object, read)
            &&& match read {
                Ok(index) => loc == LocView::I(index as int),
                Err(_) => loc is S && repr_described(object, loc->S_0),
            }
        };
    match read {
        Ok(index) => {
            assert(int_answered(object, Ok(index)));
        },
        Err(exception) => {
            assert(int_answered(object, Err(exception)));
            law_object_shown(object, loc->S_0);
        },
    }
}

/// An object is shown by its `repr`, or, where that fails, by a text that names its class, or,
/// where that fails too, by one that names nothing.
pub proof fn law_object_shown(object: PyAny, text: Seq<char>)
    requires
        repr_described(object, text),
    ensures
        ({
            ||| exists|shown: PyString|
                {
                    &&& #[trigger] repr_answered(object, Ok(&shown))
                    &&& text == lossy_text(string_points(shown))
                }
            ||| {
                &&& exists|exception: PyErr| #[trigger] repr_answered(object, Err(exception))
                &&& {
                    ||| exists|name: Seq<char>|
                        {
                            &&& #[trigger] class_name_answered(object, Ok(name))
                            &&& text == "<unprintable "@ + name + " object>"@
                        }
                    ||| {
                        &&& exists|exception: PyErr| #[trigger]
                            class_name_answered(object, Err(exception))
                        &&& text == "<unprintable object>"@
                    }
                }
            }
        }),
{
    let repr = choose|repr: Result<&PyString, PyErr>|
        {
            &&& #[trigger] repr_answered(object, repr)
            &&& match repr {
                Ok(string) => text == repr_text(Some(lossy_text(string_points(*string))), None),
                Err(_) => unprintable_described(object, text),
            }
        };
    match repr {
        Ok(string) => {
            assert(repr_answered(object, Ok(&*string)));
        },
        Err(exception) => {
            assert(repr_answered(object, Err(exception)));
            let name = choose|name: Result<Seq<char>, PyErr>|
                {
                    &&& #[trigger] class_name_answered(object, name)
                    &&& text == repr_text(
                        None,
                        match name {
                            Ok(name) => Some(name),
                            Err(_) => None,
                        },
                    )
                };
            match name {
                Ok(name) => {
                    assert(class_name_answered(object, Ok(name)));
                },
                Err(exception) => {
                    assert(class_name_answered(object, Err(exception)));
                },
            }
        },
    }
}

/// The text for an object that cannot be shown names its class where it is known.
pub proof fn law_unprintable_text(name: Seq<char>)
    ensures
        repr_text(None, Some(name)) == "<unprintable "@ + name + " object>"@,
        repr_text(None, None) == "<unprintable object>"@,
{
}

} // verus!
