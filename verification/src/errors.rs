//! What a failed validation reports.
use crate::input::{Input, InputValue, InputView};
use crate::python::{
    class_name_answered, error_object, error_value, lossy_text, object_class_name, object_str,
    str_answered, string_points, string_to_lossy,
};
use pyo3::types::PyString;
use pyo3::{PyErr, Python};
use vstd::prelude::*;

verus! {

/// One step of the way from the input as a whole to the part of it that is at fault.
#[derive(Debug, PartialEq, Eq)]
pub enum LocItem {
    S(String),
    I(i64),
}

/// The model of a [`LocItem`].
pub enum LocView {
    S(Seq<char>),
    I(int),
}

impl View for LocItem {
    type V = LocView;

    open spec fn view(&self) -> LocView {
        match self {
            LocItem::S(name) => LocView::S(name@),
            LocItem::I(index) => LocView::I(*index as int),
        }
    }
}

/// The way to the part of the input that is at fault.
///
/// The items are kept innermost first, so that stepping outwards is a push.
#[derive(Debug, PartialEq, Eq)]
pub enum Location {
    Empty,
    List(Vec<LocItem>),
}

impl View for Location {
    type V = Seq<LocView>;

    /// The steps from the outermost to the innermost.
    open spec fn view(&self) -> Seq<LocView> {
        match self {
            Location::Empty => Seq::empty(),
            Location::List(items) => Seq::new(
                items@.len(),
                |i: int| items@[items@.len() - 1 - i]@,
            ),
        }
    }
}

impl Location {
    /// Puts one more step in front of the way.
    pub fn with_outer(self, loc_item: LocItem) -> (location: Location)
        ensures
            location@ == seq![loc_item@] + self@,
    {
        match self {
            Location::Empty => {
                let mut items: Vec<LocItem> = Vec::new();
                items.push(loc_item);
                let location = Location::List(items);
                assert(location@ =~= seq![loc_item@] + self@);
                location
            },
            Location::List(list) => {
                let mut items = list;
                items.push(loc_item);
                let location = Location::List(items);
                assert(location@ =~= seq![loc_item@] + self@);
                location
            },
        }
    }
}

/// What is wrong with a part of the input.
#[derive(Debug, PartialEq, Eq)]
pub enum ErrorType {
    DictType,
    MappingType { error: String },
    StringUnicode,
    NoneRequired,
    TooShort { field_type: String, min_length: usize, actual_length: usize },
    TooLong { field_type: String, max_length: usize, actual_length: usize },
}

/// The model of an [`ErrorType`].
pub enum ErrorTypeView {
    DictType,
    MappingType { error: Seq<char> },
    StringUnicode,
    NoneRequired,
    TooShort { field_type: Seq<char>, min_length: int, actual_length: int },
    TooLong { field_type: Seq<char>, max_length: int, actual_length: int },
}

impl View for ErrorType {
    type V = ErrorTypeView;

    open spec fn view(&self) -> ErrorTypeView {
        match self {
            ErrorType::DictType => ErrorTypeView::DictType,
            ErrorType::MappingType { error } => ErrorTypeView::MappingType { error: error@ },
            ErrorType::StringUnicode => ErrorTypeView::StringUnicode,
            ErrorType::NoneRequired => ErrorTypeView::NoneRequired,
            ErrorType::TooShort { field_type, min_length, actual_length } => {
                ErrorTypeView::TooShort {
                    field_type: field_type@,
                    min_length: *min_length as int,
                    actual_length: *actual_length as int,
                }
            },
            ErrorType::TooLong { field_type, max_length, actual_length } => {
                ErrorTypeView::TooLong {
                    field_type: field_type@,
                    max_length: *max_length as int,
                    actual_length: *actual_length as int,
                }
            },
        }
    }
}

/// One fault: what is wrong, where, and with which value.
#[derive(Debug)]
pub struct ValLineError<'a> {
    pub error_type: ErrorType,
    pub location: Location,
    pub input_value: InputValue<'a>,
}

/// The model of a [`ValLineError`].
#[verifier::ext_equal]
pub struct LineView {
    pub error_type: ErrorTypeView,
    pub location: Seq<LocView>,
    pub input_value: InputView,
}

impl<'a> View for ValLineError<'a> {
    type V = LineView;

    open spec fn view(&self) -> LineView {
        LineView {
            error_type: self.error_type@,
            location: self.location@,
            input_value: self.input_value@,
        }
    }
}

impl<'a> ValLineError<'a> {
    /// A fault of the value itself, with nothing around it yet.
    pub fn new_custom_input(error_type: ErrorType, input_value: InputValue<'a>) -> (line:
        ValLineError<'a>)
        ensures
            line@ == (LineView {
                error_type: error_type@,
                location: Seq::empty(),
                input_value: input_value@,
            }),
    {
        ValLineError { error_type, location: Location::Empty, input_value }
    }

    /// Reports the fault from one step further out.
    pub fn with_outer_location(self, loc_item: LocItem) -> (line: ValLineError<'a>)
        ensures
            line@ == self@.within(loc_item@),
    {
        ValLineError {
            error_type: self.error_type,
            location: self.location.with_outer(loc_item),
            input_value: self.input_value,
        }
    }
}

impl LineView {
    /// The same fault, seen from one step further out.
    pub open spec fn within(self, outer: LocView) -> LineView {
        LineView { location: seq![outer] + self.location, ..self }
    }
}

/// Why a validation gave no value.
#[derive(Debug)]
pub enum ValError<'a> {
    /// The input is at fault.
    LineErrors(Vec<ValLineError<'a>>),
    /// The interpreter raised an exception.
    InternalErr(PyErr),
    /// The value is to be left out of what it belongs to.
    Omit,
}

/// The model of a [`ValError`].
pub enum ErrorView {
    LineErrors(Seq<LineView>),
    InternalErr(PyErr),
    Omit,
}

/// The models of the faults in a list.
pub open spec fn line_views(lines: Seq<ValLineError>) -> Seq<LineView> {
    Seq::new(lines.len(), |i: int| lines[i]@)
}

impl<'a> View for ValError<'a> {
    type V = ErrorView;

    open spec fn view(&self) -> ErrorView {
        match self {
            ValError::LineErrors(lines) => ErrorView::LineErrors(line_views(lines@)),
            ValError::InternalErr(error) => ErrorView::InternalErr(*error),
            ValError::Omit => ErrorView::Omit,
        }
    }
}

pub type ValResult<'a, T> = Result<T, ValError<'a>>;

/// The error that reports one fault of one value.
pub open spec fn single_error(error_type: ErrorTypeView, input_value: InputView) -> ErrorView {
    ErrorView::LineErrors(
        seq![LineView { error_type, location: Seq::empty(), input_value }],
    )
}

impl<'a> ValError<'a> {
    /// The error that reports one fault of the given input.
    pub fn new<I: Input<'a>>(error_type: ErrorType, input: &'a I) -> (error: ValError<'a>)
        ensures
            error@ == single_error(error_type@, input.as_view()),
    {
        Self::new_custom_input(error_type, input.as_error_value())
    }

    /// The error that reports one fault of the given value.
    pub fn new_custom_input(error_type: ErrorType, input_value: InputValue<'a>) -> (error: ValError<
        'a,
    >)
        ensures
            error@ == single_error(error_type@, input_value@),
    {
        let mut lines: Vec<ValLineError<'a>> = Vec::new();
        let line = ValLineError::new_custom_input(error_type, input_value);
        lines.push(line);
        proof {
            assert(line_views(lines@) =~= seq![line@]);
        }
        ValError::LineErrors(lines)
    }
}

/// The text for an exception of the named type with the given message. The name or the message is
/// missing where reading it has raised an exception in turn.
pub open spec fn error_text(
    class_name: Option<Seq<char>>,
    message: Option<Seq<char>>,
) -> Seq<char> {
    match class_name {
        None => "Unknown Error"@,
        Some(name) => match message {
            None => name + ": <exception str() failed>"@,
            Some(text) => if text.len() == 0 {
                name
            } else {
                name + ": "@ + text
            },
        },
    }
}

/// Whether the text is what has been found to describe the exception.
pub open spec fn error_described(error: PyErr, text: Seq<char>) -> bool {
    exists|name: Result<Seq<char>, PyErr>|
        {
            &&& #[trigger] class_name_answered(error_value(error), name)
            &&& match name {
                Err(_) => text == error_text(None, None),
                Ok(name) => message_described(error, name, text),
            }
        }
}

/// Whether the text is what has been found to describe the exception of the named type.
pub open spec fn message_described(error: PyErr, name: Seq<char>, text: Seq<char>) -> bool {
    exists|message: Result<&PyString, PyErr>|
        {
            &&& #[trigger] str_answered(error_value(error), message)
            &&& text == error_text(
                Some(name),
                match message {
                    Ok(string) => Some(lossy_text(string_points(*string))),
                    Err(_) => None,
                },
            )
        }
}

/// Puts the name of an exception's type and its message together.
pub fn describe_error(class_name: Option<&str>, message: Option<&str>) -> (text: String)
    ensures
        text@ == error_text(
            match class_name {
                Some(name) => Some(name@),
                None => None,
            },
            match message {
                Some(text) => Some(text@),
                None => None,
            },
        ),
{
    match class_name {
        None => "Unknown Error".to_owned(),
        Some(name) => {
            let mut description = name.to_owned();
            match message {
                None => {
                    description.append(": <exception str() failed>");
                },
                Some(text) => {
                    if !text.is_empty() {
                        description.append(": ");
                        description.append(text);
                    }
                },
            }
            description
        },
    }
}

/// Describes an exception by its type and its message.
pub fn py_err_string(py: Python<'_>, err: PyErr) -> (text: String)
    ensures
        error_described(err, text@),
{
    let value = error_object(&err, py);
    match object_class_name(value) {
        Err(_) => describe_error(None, None),
        Ok(name) => match object_str(value) {
            Err(_) => describe_error(Some(name), None),
            Ok(string) => {
                let message = string_to_lossy(string);
                describe_error(Some(name), Some(message.as_str()))
            },
        },
    }
}

/// Why a length is not accepted, if it is not.
pub open spec fn length_error(
    field_type: Seq<char>,
    min_length: Option<usize>,
    max_length: Option<usize>,
    actual_length: int,
) -> Option<ErrorTypeView> {
    if min_length matches Some(min) && actual_length < min {
        Some(
            ErrorTypeView::TooShort { field_type, min_length: min_length->0 as int, actual_length },
        )
    } else if max_length matches Some(max) && actual_length > max {
        Some(ErrorTypeView::TooLong { field_type, max_length: max_length->0 as int, actual_length })
    } else {
        None
    }
}

/// Holds a length to its bounds. The lower bound is looked at first.
pub fn length_check<'a, I: Input<'a>>(
    input: &'a I,
    field_type: &str,
    min_length: Option<usize>,
    max_length: Option<usize>,
    actual_length: usize,
) -> (checked: ValResult<'a, ()>)
    ensures
        match length_error(field_type@, min_length, max_length, actual_length as int) {
            None => checked is Ok,
            Some(error_type) => checked matches Err(error) && error@ == single_error(
                error_type,
                input.as_view(),
            ),
        },
{
    if let Some(min) = min_length {
        if actual_length < min {
            return Err(
                ValError::new(
                    ErrorType::TooShort {
                        field_type: field_type.to_owned(),
                        min_length: min,
                        actual_length,
                    },
                    input,
                ),
            );
        }
    }
    if let Some(max) = max_length {
        if actual_length > max {
            return Err(
                ValError::new(
                    ErrorType::TooLong {
                        field_type: field_type.to_owned(),
                        max_length: max,
                        actual_length,
                    },
                    input,
                ),
            );
        }
    }
    Ok(())
}

/// A length passes exactly when it is neither below the lower bound nor above the upper one.
pub proof fn law_length_bounds(
    field_type: Seq<char>,
    min_length: Option<usize>,
    max_length: Option<usize>,
    actual_length: int,
)
    ensures
        length_error(field_type, min_length, max_length, actual_length) is None <==> {
            &&& min_length matches Some(min) ==> min <= actual_length
            &&& max_length matches Some(max) ==> actual_length <= max
        },
{
}

/// A fault that is reported from two steps further out has the outer step first and is otherwise
/// the same fault.
pub proof fn law_location_order(line: LineView, inner: LocView, outer: LocView)
    ensures
        line.within(inner).within(outer).location == seq![outer, inner] + line.location,
        line.within(inner).within(outer).error_type == line.error_type,
        line.within(inner).within(outer).input_value == line.input_value,
{
    assert(line.within(inner).within(outer).location =~= seq![outer, inner] + line.location);
}

/// A step of a location that is a text is told by the text, and one that is a number by the number,
/// so that two steps are modelled alike exactly when they are the same step.
pub proof fn law_loc_item_view(item: LocItem, other: LocItem)
    ensures
        item matches LocItem::S(name) ==> item@ == LocView::S(name@),
        item matches LocItem::I(index) ==> item@ == LocView::I(index as int),
        item@ == other@ <==> match (item, other) {
            (LocItem::S(name), LocItem::S(other_name)) => name@ == other_name@,
            (LocItem::I(index), LocItem::I(other_index)) => index == other_index,
            _ => false,
        },
{
}

/// A location has as many steps as it holds, and the one that was put in front last comes first.
pub proof fn law_location_view(items: Vec<LocItem>)
    ensures
        Location::Empty@.len() == 0,
        Location::List(items)@.len() == items@.len(),
        forall|i: int|
            0 <= i < items@.len() ==> #[trigger] Location::List(items)@[i] == items@[items@.len()
                - 1 - i]@,
{
}

/// What is wrong is told with all that belongs to it: two of them are modelled alike exactly when
/// they are of the same kind and hold the same texts and numbers.
pub proof fn law_error_type_view(error: ErrorType, other: ErrorType)
    ensures
        error@ == other@ <==> match (error, other) {
            (ErrorType::DictType, ErrorType::DictType) => true,
            (
                ErrorType::MappingType { error: text },
                ErrorType::MappingType { error: other_text },
            ) => text@ == other_text@,
            (ErrorType::StringUnicode, ErrorType::StringUnicode) => true,
            (ErrorType::NoneRequired, ErrorType::NoneRequired) => true,
            (
                ErrorType::TooShort { field_type, min_length, actual_length },
                ErrorType::TooShort {
                    field_type: other_type,
                    min_length: other_min,
                    actual_length: other_length,
                },
            ) => {
                &&& field_type@ == other_type@
                &&& min_length == other_min
                &&& actual_length == other_length
            },
            (
                ErrorType::TooLong { field_type, max_length, actual_length },
                ErrorType::TooLong {
                    field_type: other_type,
                    max_length: other_max,
                    actual_length: other_length,
                },
            ) => {
                &&& field_type@ == other_type@
                &&& max_length == other_max
                &&& actual_length == other_length
            },
            _ => false,
        },
{
}

/// Each kind of fault is modelled as that kind, with its texts and numbers.
pub proof fn law_error_type_kinds(error: ErrorType)
    ensures
        error is DictType <==> error@ == ErrorTypeView::DictType,
        error is StringUnicode <==> error@ == ErrorTypeView::StringUnicode,
        error is NoneRequired <==> error@ == ErrorTypeView::NoneRequired,
        error matches ErrorType::MappingType { error: text } ==> error@ == (
        ErrorTypeView::MappingType { error: text@ }),
        error matches ErrorType::TooShort { field_type, min_length, actual_length } ==> error@ == (
        ErrorTypeView::TooShort {
            field_type: field_type@,
            min_length: min_length as int,
            actual_length: actual_length as int,
        }),
        error matches ErrorType::TooLong { field_type, max_length, actual_length } ==> error@ == (
        ErrorTypeView::TooLong {
            field_type: field_type@,
            max_length: max_length as int,
            actual_length: actual_length as int,
        }),
{
}

/// A fault is told by what is wrong, where, and with which value, and a list of faults holds all of
/// them in their order.
pub proof fn law_fault_view(lines: Vec<ValLineError<'_>>, exception: PyErr)
    ensures
        ValError::LineErrors(lines)@ matches ErrorView::LineErrors(views) && {
            &&& views.len() == lines@.len()
            &&& forall|i: int|
                0 <= i < lines@.len() ==> {
                    &&& (#[trigger] views[i]).error_type == lines@[i].error_type@
                    &&& views[i].location == lines@[i].location@
                    &&& views[i].input_value == lines@[i].input_value@
                }
        },
        ValError::InternalErr(exception)@ == ErrorView::InternalErr(exception),
        ValError::Omit@ == ErrorView::Omit,
{
}

/// The error for one fault holds that fault alone, at no place inside the value.
pub proof fn law_single_error(error_type: ErrorTypeView, input_value: InputView)
    ensures
        single_error(error_type, input_value) matches ErrorView::LineErrors(lines) && {
            &&& lines.len() == 1
            &&& lines[0].error_type == error_type
            &&& lines[0].location.len() == 0
            &&& lines[0].input_value == input_value
        },
{
}

/// Seen from one step further out, a fault has that step in front of the whole way that it had, and
/// is otherwise the same fault.
pub proof fn law_step_outwards(line: LineView, outer: LocView)
    ensures
        line.within(outer).location.len() == line.location.len() + 1,
        line.within(outer).location[0] == outer,
        forall|i: int|
            0 <= i < line.location.len() ==> #[trigger] line.within(outer).location[i + 1]
                == line.location[i],
        line.within(outer).error_type == line.error_type,
        line.within(outer).input_value == line.input_value,
{
}

/// Which length is at fault and why: one below the lower bound is too short, whatever the upper
/// bound is; one above the upper bound, and not below the lower, is too long. The report names the
/// field, the bound that is broken and the length.
pub proof fn law_length_error(
    field_type: Seq<char>,
    min_length: Option<usize>,
    max_length: Option<usize>,
    actual_length: int,
)
    ensures
        min_length matches Some(min) ==> actual_length < min ==> length_error(
            field_type,
            min_length,
            max_length,
            actual_length,
        ) == Some(
            ErrorTypeView::TooShort { field_type, min_length: min as int, actual_length },
        ),
        max_length matches Some(max) ==> actual_length > max && (min_length matches Some(min)
            ==> min <= actual_length) ==> length_error(
            field_type,
            min_length,
            max_length,
            actual_length,
        ) == Some(
            ErrorTypeView::TooLong { field_type, max_length: max as int, actual_length },
        ),
{
}

/// The description of an exception: the name of its type, and behind a colon its message, unless
/// that is empty. A message that cannot be had is said to be missing, and without a name nothing is
/// said but that the error is unknown.
pub proof fn law_error_text(name: Seq<char>, message: Seq<char>, any: Option<Seq<char>>)
    ensures
        error_text(Some(name), Some(Seq::empty())) == name,
        message.len() > 0 ==> error_text(Some(name), Some(message)) == name + seq![':', ' ']
            + message,
        error_text(Some(name), None) == name + ": <exception str() failed>"@,
        error_text(None, any) == "Unknown Error"@,
{
    reveal_strlit(": ");
    assert(": "@ =~= seq![':', ' ']);
}

/// An exception whose type answers with one name, and which answers with one message, is described
/// by that name and that message.
pub proof fn law_error_described(
    error: PyErr,
    name: Seq<char>,
    message: PyString,
    text: Seq<char>,
)
    requires
        forall|answer: Result<Seq<char>, PyErr>| #[trigger]
            class_name_answered(error_value(error), answer) ==> answer == Ok::<Seq<char>, PyErr>(
                name,
            ),
        forall|answer: Result<&PyString, PyErr>| #[trigger]
            str_answered(error_value(error), answer) ==> answer == Ok::<&PyString, PyErr>(&message),
        error_described(error, text),
    ensures
        ({
            let said = lossy_text(string_points(message));
            text == if said.len() == 0 {
                name
            } else {
                name + seq![':', ' '] + said
            }
        }),
{
    reveal_strlit(": ");
    assert(": "@ =~= seq![':', ' ']);
}

/// An exception whose type cannot be named is an unknown error, and one whose message cannot be had
/// is described by the name of its type.
pub proof fn law_error_undescribed(error: PyErr, text: Seq<char>)
    requires
        error_described(error, text),
    ensures
        (forall|answer: Result<Seq<char>, PyErr>| #[trigger]
            class_name_answered(error_value(error), answer) ==> answer is Err) ==> text
            == "Unknown Error"@,
        (forall|answer: Result<&PyString, PyErr>| #[trigger]
            str_answered(error_value(error), answer) ==> answer is Err) ==> {
            ||| text == "Unknown Error"@
            ||| exists|name: Seq<char>|
                {
                    &&& #[trigger] class_name_answered(error_value(error), Ok(name))
                    &&& text == name + ": <exception str() failed>"@
                }
        },
{
    let answer = choose|answer: Result<Seq<char>, PyErr>|
        {
            &&& #[trigger] class_name_answered(error_value(error), answer)
            &&& match answer {
                Err(_) => text == error_text(None, None),
                Ok(name) => message_described(error, name, text),
            }
        };
    if let Ok(name) = answer {
        assert(class_name_answered(error_value(error), Ok(name)));
    }
}

} // verus!
