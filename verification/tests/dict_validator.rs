use pydantic_core::errors::{
    ErrorType, ErrorView, LocItem, Location, ValError, ValLineError, ValResult,
};
use pydantic_core::input::parse_json::JsonInput;
use pydantic_core::input::{Input, InputValue, InputView};
use pydantic_core::validators::dict::DictValidator;
use pydantic_core::validators::{CombinedValidator, Extra, NameView, Validator};
use pyo3::exceptions::PyValueError;
use pyo3::types::{PyAny, PyDict, PyList};
use pyo3::{Py, PyErr, Python, ToPyObject};

/// What a probe does with the inputs that it is given.
#[derive(Debug, Clone)]
enum Rule {
    Any,
    /// Faults the input `bad`, leaves `omit` out, fails on `fail`, and accepts the rest.
    ByText,
    /// Gives a list, which no dictionary takes as a key.
    List,
    /// Gives the same object for every input.
    Same,
    /// Refuses every input without naming a fault.
    Silent,
    /// Stores an entry in the dictionary for each input.
    Store(Py<PyDict>, &'static str),
    /// Replaces the key in the dictionary by another one.
    Rename(Py<PyDict>),
}

#[derive(Debug, Clone)]
struct Probe {
    name: &'static str,
    rule: Rule,
}

fn text_of(value: &InputValue<'_>) -> String {
    match value {
        InputValue::PyAny(object) => object.str().unwrap().to_string_lossy().into_owned(),
        InputValue::JsonInput(JsonInput::String(text)) => text.clone(),
        InputValue::JsonInput(json) => format!("{:?}", json),
        InputValue::String(text) => text.to_string(),
    }
}

fn object_of(value: &InputValue<'_>, py: Python<'_>) -> Py<PyAny> {
    match value {
        InputValue::PyAny(object) => object.to_object(py),
        InputValue::JsonInput(json) => json.to_object(py),
        InputValue::String(text) => text.to_object(py),
    }
}

impl Validator for Probe {
    type Guard = Vec<String>;

    // What the contracts speak of is never run.
    fn answers(
        &self,
        _input: InputView,
        _extra: Extra,
        _before: Vec<String>,
        _output: Result<PyAny, ErrorView>,
        _after: Vec<String>,
    ) -> bool {
        unreachable!()
    }

    fn strict_differs(&self, _ultra_strict: bool) -> bool {
        unreachable!()
    }

    fn name(&self) -> NameView {
        unreachable!()
    }

    fn validate<'data, I: Input<'data>>(
        &self,
        py: Python<'data>,
        input: &'data I,
        _extra: &Extra,
        recursion_guard: &mut Vec<String>,
    ) -> ValResult<'data, Py<PyAny>> {
        let value = input.as_error_value();
        let text = text_of(&value);
        recursion_guard.push(format!("{}:{}", self.name, text));
        match &self.rule {
            Rule::Any => Ok(object_of(&value, py)),
            Rule::List => Ok(PyList::empty(py).to_object(py)),
            Rule::Same => Ok("same".to_object(py)),
            Rule::Silent => Err(ValError::LineErrors(Vec::new())),
            Rule::Store(dict, key) => {
                dict.as_ref(py).set_item(*key, "stored").unwrap();
                Ok(object_of(&value, py))
            }
            Rule::Rename(dict) => {
                dict.as_ref(py).set_item(format!("{}_", text), 4).unwrap();
                dict.as_ref(py).del_item(text.as_str()).unwrap();
                Ok(object_of(&value, py))
            }
            Rule::ByText => match text.as_str() {
                "bad" => Err(ValError::new(ErrorType::NoneRequired, input)),
                "worse" => Err(ValError::LineErrors(vec![
                    ValLineError::new_custom_input(ErrorType::NoneRequired, value),
                    ValLineError::new_custom_input(ErrorType::DictType, value)
                        .with_outer_location(LocItem::I(7)),
                ])),
                "omit" => Err(ValError::Omit),
                "fail" => Err(ValError::InternalErr(PyValueError::new_err("probe"))),
                _ => Ok(object_of(&value, py)),
            },
        }
    }

    fn different_strict_behavior(&self, ultra_strict: bool) -> bool {
        ultra_strict && matches!(self.rule, Rule::ByText)
    }

    fn get_name(&self) -> &str {
        self.name
    }
}


/// Children that are made from schemas: a schema is the name of the child, and the name `broken`
/// cannot be made.
impl CombinedValidator for Probe {
    type Definitions = Vec<String>;

    // What the contracts speak of is never run.
    fn built(
        _schema: PyAny,
        _config: Option<&PyDict>,
        _before: Vec<String>,
        _validator: Result<Self, PyErr>,
        _after: Vec<String>,
    ) -> bool {
        unreachable!()
    }

    fn any_built(
        _schema: PyDict,
        _config: Option<&PyDict>,
        _before: Vec<String>,
        _validator: Result<Self, PyErr>,
        _after: Vec<String>,
    ) -> bool {
        unreachable!()
    }

    fn build_validator(
        schema: &PyAny,
        config: Option<&PyDict>,
        definitions: &mut Vec<String>,
    ) -> Result<Self, PyErr> {
        let name: String = schema.extract()?;
        definitions.push(format!("{}/{}", name, config.is_some()));
        match name.as_str() {
            "broken" => Err(PyValueError::new_err("broken child")),
            "by_text" => Ok(Probe { name: "by_text", rule: Rule::ByText }),
            _ => Ok(Probe { name: "same", rule: Rule::Same }),
        }
    }

    fn build_any(
        _schema: &PyDict,
        _config: Option<&PyDict>,
        definitions: &mut Vec<String>,
    ) -> Result<Self, PyErr> {
        definitions.push("any".to_string());
        Ok(Probe { name: "any", rule: Rule::Any })
    }
}

const LAX: Extra = Extra { strict: None };

fn with_python<T>(run: impl FnOnce(Python<'_>) -> T) -> T {
    pyo3::prepare_freethreaded_python();
    Python::with_gil(run)
}

fn probe(name: &'static str, rule: Rule) -> Probe {
    Probe { name, rule }
}

fn by_text() -> DictValidator<Probe> {
    DictValidator::new(false, probe("k", Rule::ByText), probe("v", Rule::ByText), None, None)
}

fn bounded(min: Option<usize>, max: Option<usize>) -> DictValidator<Probe> {
    DictValidator::new(false, probe("k", Rule::ByText), probe("v", Rule::ByText), min, max)
}

fn text(text: &str) -> JsonInput {
    JsonInput::String(text.to_string())
}

fn json(members: &[(&str, &str)]) -> JsonInput {
    JsonInput::Object(
        members
            .iter()
            .map(|(name, value)| (name.to_string(), text(value)))
            .collect(),
    )
}

fn py_object<'py>(py: Python<'py>, code: &str) -> &'py PyAny {
    py.eval(code, None, None).unwrap()
}

fn shown(handle: &Py<PyAny>, py: Python<'_>) -> String {
    handle.as_ref(py).repr().unwrap().to_string_lossy().into_owned()
}

/// The steps of a location, the outermost first.
fn path(line: &ValLineError<'_>) -> Vec<String> {
    match &line.location {
        Location::Empty => Vec::new(),
        Location::List(items) => items
            .iter()
            .rev()
            .map(|item| match item {
                LocItem::S(name) => name.clone(),
                LocItem::I(index) => format!("#{}", index),
            })
            .collect(),
    }
}

fn lines<'a>(result: ValResult<'a, Py<PyAny>>) -> Vec<ValLineError<'a>> {
    match result {
        Err(ValError::LineErrors(lines)) => lines,
        Err(other) => panic!("{:?}", other),
        Ok(_) => panic!("accepted"),
    }
}

fn message(error: &PyErr, py: Python<'_>) -> String {
    error.value(py).to_string()
}

fn internal(result: ValResult<'_, Py<PyAny>>) -> PyErr {
    match result {
        Err(ValError::InternalErr(error)) => error,
        Err(other) => panic!("{:?}", other),
        Ok(_) => panic!("accepted"),
    }
}

#[test]
fn json_members_go_through_in_their_order() {
    with_python(|py| {
        let input = json(&[("a", "1"), ("b", "2")]);
        let mut log = vec!["start".to_string()];
        let output = by_text().validate(py, &input, &LAX, &mut log).unwrap();
        assert_eq!(shown(&output, py), "{'a': '1', 'b': '2'}");
        assert_eq!(log, vec!["start", "k:a", "v:1", "k:b", "v:2"]);
    });
}

#[test]
fn an_object_without_members_is_an_empty_dictionary() {
    with_python(|py| {
        let input = json(&[]);
        let mut log = Vec::new();
        let output = by_text().validate(py, &input, &LAX, &mut log).unwrap();
        assert_eq!(shown(&output, py), "{}");
        assert!(log.is_empty());
    });
}

#[test]
fn a_fault_of_a_key_is_located_under_the_key() {
    with_python(|py| {
        let input = json(&[("bad", "1"), ("b", "2")]);
        let mut log = Vec::new();
        let validator = by_text();
        let found = lines(validator.validate(py, &input, &LAX, &mut log));
        assert_eq!(found.len(), 1);
        assert_eq!(path(&found[0]), vec!["bad", "[key]"]);
        assert_eq!(found[0].error_type, ErrorType::NoneRequired);
        assert!(matches!(found[0].input_value, InputValue::String("bad")));
        assert_eq!(log, vec!["k:bad", "v:1", "k:b", "v:2"]);
    });
}

#[test]
fn a_fault_of_a_value_is_located_at_the_key() {
    with_python(|py| {
        let input = json(&[("a", "bad")]);
        let validator = by_text();
        let found = lines(validator.validate(py, &input, &LAX, &mut Vec::new()));
        assert_eq!(found.len(), 1);
        assert_eq!(path(&found[0]), vec!["a"]);
        assert!(matches!(found[0].input_value, InputValue::JsonInput(JsonInput::String(_))));
    });
}

#[test]
fn the_faults_of_all_entries_are_reported_in_order() {
    with_python(|py| {
        let input = json(&[("worse", "bad"), ("x", "y"), ("z", "worse")]);
        let validator = by_text();
        let found = lines(validator.validate(py, &input, &LAX, &mut Vec::new()));
        let paths: Vec<Vec<String>> = found.iter().map(path).collect();
        assert_eq!(
            paths,
            vec![
                vec!["worse", "[key]"],
                vec!["worse", "[key]", "#7"],
                vec!["worse"],
                vec!["z"],
                vec!["z", "#7"],
            ]
        );
        assert_eq!(found[1].error_type, ErrorType::DictType);
    });
}

#[test]
fn a_key_can_leave_its_entry_out() {
    with_python(|py| {
        let input = json(&[("omit", "bad"), ("a", "1")]);
        let mut log = Vec::new();
        let output = by_text().validate(py, &input, &LAX, &mut log).unwrap();
        assert_eq!(shown(&output, py), "{'a': '1'}");
        assert_eq!(log, vec!["k:omit", "k:a", "v:1"]);
    });
}

#[test]
fn a_value_can_leave_its_entry_out() {
    with_python(|py| {
        let input = json(&[("a", "omit"), ("b", "2")]);
        let output = by_text().validate(py, &input, &LAX, &mut Vec::new()).unwrap();
        assert_eq!(shown(&output, py), "{'b': '2'}");
    });
}

#[test]
fn a_dictionary_is_never_left_out_itself() {
    with_python(|py| {
        let input = json(&[("omit", "1"), ("a", "omit")]);
        let output = by_text().validate(py, &input, &LAX, &mut Vec::new()).unwrap();
        assert_eq!(shown(&output, py), "{}");
    });
}

#[test]
fn the_faults_of_a_key_stay_where_the_value_leaves_the_entry_out() {
    with_python(|py| {
        let input = json(&[("bad", "omit")]);
        let validator = by_text();
        let found = lines(validator.validate(py, &input, &LAX, &mut Vec::new()));
        assert_eq!(path(&found[0]), vec!["bad", "[key]"]);
        assert_eq!(found.len(), 1);
    });
}

#[test]
fn a_refusal_without_a_fault_drops_the_entry() {
    with_python(|py| {
        let validator =
            DictValidator::new(false, probe("k", Rule::Any), probe("v", Rule::Silent), None, None);
        let input = json(&[("a", "1")]);
        let output = validator.validate(py, &input, &LAX, &mut Vec::new()).unwrap();
        assert_eq!(shown(&output, py), "{}");
    });
}

#[test]
fn a_failing_key_ends_the_validation() {
    with_python(|py| {
        let input = json(&[("a", "bad"), ("fail", "1"), ("b", "2")]);
        let mut log = Vec::new();
        let validator = by_text();
        let error = internal(validator.validate(py, &input, &LAX, &mut log));
        assert_eq!(message(&error, py), "probe");
        assert_eq!(log, vec!["k:a", "v:bad", "k:fail"]);
    });
}

#[test]
fn a_failing_value_ends_the_validation() {
    with_python(|py| {
        let input = json(&[("a", "fail"), ("b", "2")]);
        let mut log = Vec::new();
        let validator = by_text();
        let error = internal(validator.validate(py, &input, &LAX, &mut log));
        assert_eq!(message(&error, py), "probe");
        assert_eq!(log, vec!["k:a", "v:fail"]);
    });
}

#[test]
fn a_key_that_cannot_be_stored_ends_the_validation() {
    with_python(|py| {
        let validator =
            DictValidator::new(false, probe("k", Rule::List), probe("v", Rule::Any), None, None);
        let input = json(&[("a", "1"), ("b", "2")]);
        let mut log = Vec::new();
        let error = internal(validator.validate(py, &input, &LAX, &mut log));
        assert_eq!(message(&error, py), "unhashable type: 'list'");
        assert_eq!(log, vec!["k:a", "v:1"]);
    });
}

#[test]
fn equal_keys_are_stored_over_one_another() {
    with_python(|py| {
        let validator =
            DictValidator::new(false, probe("k", Rule::Same), probe("v", Rule::Any), None, Some(1));
        let input = json(&[("a", "1"), ("b", "2")]);
        let output = validator.validate(py, &input, &LAX, &mut Vec::new()).unwrap();
        assert_eq!(shown(&output, py), "{'same': '2'}");
    });
}

#[test]
fn a_dictionary_below_the_lower_bound_is_too_short() {
    with_python(|py| {
        let input = json(&[("a", "1"), ("omit", "2")]);
        let validator = bounded(Some(2), None);
        let found = lines(validator.validate(py, &input, &LAX, &mut Vec::new()));
        assert_eq!(
            found[0].error_type,
            ErrorType::TooShort {
                field_type: "Dictionary".to_string(),
                min_length: 2,
                actual_length: 1
            }
        );
        assert!(path(&found[0]).is_empty());
        assert!(matches!(found[0].input_value, InputValue::JsonInput(JsonInput::Object(_))));
    });
}

#[test]
fn a_dictionary_above_the_upper_bound_is_too_long() {
    with_python(|py| {
        let input = json(&[("a", "1"), ("b", "2")]);
        let validator = bounded(Some(1), Some(1));
        let found = lines(validator.validate(py, &input, &LAX, &mut Vec::new()));
        assert_eq!(
            found[0].error_type,
            ErrorType::TooLong {
                field_type: "Dictionary".to_string(),
                max_length: 1,
                actual_length: 2
            }
        );
        assert!(bounded(Some(2), Some(2)).validate(py, &input, &LAX, &mut Vec::new()).is_ok());
    });
}

#[test]
fn faults_are_reported_before_the_length_is_looked_at() {
    with_python(|py| {
        let input = json(&[("a", "bad")]);
        let validator = bounded(Some(5), None);
        let found = lines(validator.validate(py, &input, &LAX, &mut Vec::new()));
        assert_eq!(found[0].error_type, ErrorType::NoneRequired);
    });
}

#[test]
fn what_is_no_mapping_is_refused() {
    with_python(|py| {
        let validator = by_text();
        let mut log = Vec::new();
        let array = JsonInput::Array(vec![text("a")]);
        let plain = "text".to_string();
        let list = py_object(py, "[('a', 1)]");
        let found = lines(validator.validate(py, &array, &LAX, &mut log));
        assert_eq!(found[0].error_type, ErrorType::DictType);
        let found = lines(validator.validate(py, &plain, &LAX, &mut log));
        assert!(matches!(found[0].input_value, InputValue::String("text")));
        let found = lines(validator.validate(py, list, &LAX, &mut log));
        assert!(matches!(found[0].input_value, InputValue::PyAny(object) if object.is(list)));
        assert_eq!(found[0].error_type, ErrorType::DictType);
        assert!(log.is_empty());
    });
}

#[test]
fn a_python_dictionary_goes_through_in_its_order() {
    with_python(|py| {
        let input = py_object(py, "{'b': 1, 'a': 2}");
        let mut log = Vec::new();
        let output = by_text().validate(py, input, &LAX, &mut log).unwrap();
        assert_eq!(shown(&output, py), "{'b': 1, 'a': 2}");
        assert!(!output.as_ref(py).is(input));
        assert_eq!(log, vec!["k:b", "v:1", "k:a", "v:2"]);
    });
}

#[test]
fn python_keys_become_steps_of_locations() {
    with_python(|py| {
        let code = "{'name': 'bad', -3: 'bad', 2**70: 'bad', (1, 2): 'bad', '\\ud800': 'bad'}";
        let input = py_object(py, code);
        let validator = by_text();
        let found = lines(validator.validate(py, input, &LAX, &mut Vec::new()));
        let paths: Vec<Vec<String>> = found.iter().map(path).collect();
        assert_eq!(
            paths,
            vec![
                vec!["name"],
                vec!["#-3"],
                vec!["1180591620717411303424"],
                vec!["(1, 2)"],
                vec!["\u{FFFD}\u{FFFD}\u{FFFD}"],
            ]
        );
    });
}

#[test]
fn a_key_that_cannot_be_shown_is_located_by_its_class() {
    with_python(|py| {
        let code = "{type('Odd', (), {'__repr__': lambda self: 1 / 0, \
                    '__str__': lambda self: 'odd'})(): 'bad'}";
        let input = py_object(py, code);
        let validator = by_text();
        let found = lines(validator.validate(py, input, &LAX, &mut Vec::new()));
        assert_eq!(path(&found[0]), vec!["<unprintable Odd object>"]);
    });
}

#[test]
fn other_mappings_are_accepted_unless_the_validation_is_strict() {
    with_python(|py| {
        let input = py_object(py, "__import__('types').MappingProxyType({'a': 'b'})");
        let lax = by_text();
        let strict =
            DictValidator::new(true, probe("k", Rule::Any), probe("v", Rule::Any), None, None);
        let told_lax = Extra { strict: Some(false) };
        let told_strict = Extra { strict: Some(true) };
        let output = lax.validate(py, input, &LAX, &mut Vec::new()).unwrap();
        assert_eq!(shown(&output, py), "{'a': 'b'}");
        let found = lines(strict.validate(py, input, &LAX, &mut Vec::new()));
        assert_eq!(found[0].error_type, ErrorType::DictType);
        assert!(strict.validate(py, input, &told_lax, &mut Vec::new()).is_ok());
        assert!(lax.validate(py, input, &told_strict, &mut Vec::new()).is_err());
        let dict = py_object(py, "{'a': 'b'}");
        assert!(lax.validate(py, dict, &told_strict, &mut Vec::new()).is_ok());
        let object = json(&[("a", "b")]);
        assert!(strict.validate(py, &object, &told_strict, &mut Vec::new()).is_ok());
    });
}

#[test]
fn an_exception_from_the_items_of_a_mapping_is_a_fault() {
    with_python(|py| {
        let code = "type('M', (__import__('collections.abc').abc.Mapping,), { \
            '__getitem__': None, '__iter__': None, '__len__': None, \
            'items': lambda self: 1 / 0})()";
        let input = py_object(py, code);
        let validator = by_text();
        let found = lines(validator.validate(py, input, &LAX, &mut Vec::new()));
        assert_eq!(
            found[0].error_type,
            ErrorType::MappingType { error: "ZeroDivisionError: division by zero".to_string() }
        );
        assert!(matches!(found[0].input_value, InputValue::PyAny(object) if object.is(input)));
        assert!(path(&found[0]).is_empty());
    });
}

#[test]
fn an_item_that_is_no_pair_ends_the_validation() {
    with_python(|py| {
        let code = "type('M', (__import__('collections.abc').abc.Mapping,), { \
            '__getitem__': None, '__iter__': None, '__len__': None, \
            'items': lambda self: [('a', 1), ('b', 2, 3)]})()";
        let input = py_object(py, code);
        let mut log = Vec::new();
        let validator = by_text();
        let found = lines(validator.validate(py, input, &LAX, &mut log));
        assert_eq!(found.len(), 1);
        assert_eq!(
            found[0].error_type,
            ErrorType::MappingType {
                error: "Mapping items must be tuples of (key, value) pairs".to_string()
            }
        );
        assert_eq!(log, vec!["k:a", "v:1"]);
    });
}

#[test]
fn faults_in_a_python_dictionary_come_without_a_length_error() {
    with_python(|py| {
        let validator = DictValidator::new(
            false,
            probe("k", Rule::ByText),
            probe("v", Rule::ByText),
            Some(5),
            None,
        );
        let object = py_object(py, "{'bad': 'bad'}");
        let found = lines(validator.validate(py, object, &LAX, &mut Vec::new()));
        assert_eq!(found.len(), 2);
        assert_eq!(path(&found[0]), ["bad", "[key]"]);
        assert_eq!(path(&found[1]), ["bad"]);
    });
}

#[test]
fn an_empty_dictionary_is_copied_too() {
    with_python(|py| {
        let object = py_object(py, "{}");
        let validator =
            DictValidator::new(false, probe("k", Rule::Any), probe("v", Rule::Any), None, None);
        let output = validator.validate(py, object, &LAX, &mut Vec::new()).unwrap();
        assert_eq!(shown(&output, py), "{}");
        assert!(!output.as_ref(py).is(object));
    });
}

#[test]
fn the_texts_of_the_keys_are_counted() {
    with_python(|py| {
        let input = json(&[("a", "1"), ("b", "2"), ("a", "3")]);
        let output = bounded(Some(2), Some(2)).validate(py, &input, &LAX, &mut Vec::new()).unwrap();
        assert_eq!(shown(&output, py), "{'a': '3', 'b': '2'}");
        assert!(bounded(Some(3), None).validate(py, &input, &LAX, &mut Vec::new()).is_err());
    });
}

#[test]
fn the_error_of_a_mapping_stands_before_the_faults() {
    with_python(|py| {
        let scope = PyDict::new(py);
        let code = "
import collections.abc
class Odd(collections.abc.Mapping):
    def __len__(self):
        return 0
    def __iter__(self):
        return iter(())
    def __getitem__(self, key):
        raise KeyError(key)
    def items(self):
        return [('bad', 'bad'), 7]
made = Odd()
";
        py.run(code, Some(scope), None).unwrap();
        let object = scope.get_item("made").unwrap();
        let found = lines(by_text().validate(py, object, &LAX, &mut Vec::new()));
        assert_eq!(found.len(), 1);
        assert!(matches!(found[0].error_type, ErrorType::MappingType { .. }));
    });
}

#[test]
fn bounds_and_strictness_are_plain_values() {
    with_python(|py| {
        let validator = built(py, "{'min_length': 2, 'max_length': 2, 'strict': False}", None);
        let validator = validator.unwrap();
        let pair = json(&[("a", "1"), ("b", "2")]);
        assert!(validator.validate(py, &pair, &LAX, &mut Vec::new()).is_ok());
        let single = json(&[("a", "1")]);
        assert!(validator.validate(py, &single, &LAX, &mut Vec::new()).is_err());
        for schema in ["{'min_length': -1}", "{'max_length': 1 << 70}", "{'strict': 1}"] {
            assert!(built(py, schema, None).is_err());
        }
    });
}

#[test]
fn validators_that_hand_everything_on_copy_a_dictionary() {
    with_python(|py| {
        let object = py_object(py, "{'b': [1], 2: None, 'a': {}}");
        let validator =
            DictValidator::new(false, probe("k", Rule::Any), probe("v", Rule::Any), None, None);
        let output = validator.validate(py, object, &LAX, &mut Vec::new()).unwrap();
        assert_eq!(shown(&output, py), "{'b': [1], 2: None, 'a': {}}");
        assert!(!output.as_ref(py).is(object));
    });
}

#[test]
fn the_kinds_of_mappings_agree_on_the_same_entries() {
    with_python(|py| {
        let validator = by_text();
        let dict = py_object(py, "{'a': 'x', 'bad': 'y', 'b': 'worse'}");
        let mapping = py_object(
            py,
            "__import__('types').MappingProxyType({'a': 'x', 'bad': 'y', 'b': 'worse'})",
        );
        let object = json(&[("a", "x"), ("bad", "y"), ("b", "worse")]);
        let mut calls = Vec::new();
        let mut paths = Vec::new();
        for input in [dict, mapping] {
            let mut guard = Vec::new();
            let found = lines(validator.validate(py, input, &LAX, &mut guard));
            paths.push(found.iter().map(path).collect::<Vec<_>>());
            calls.push(guard);
        }
        let mut guard = Vec::new();
        let found = lines(validator.validate(py, &object, &LAX, &mut guard));
        paths.push(found.iter().map(path).collect::<Vec<_>>());
        calls.push(guard);
        assert_eq!(paths[0].len(), 3);
        assert!(paths[1] == paths[0] && paths[2] == paths[0]);
        assert!(calls[1] == calls[0] && calls[2] == calls[0]);
    });
}

#[test]
fn a_dictionary_that_grows_meanwhile_is_an_error() {
    with_python(|py| {
        let dict: &PyDict = py_object(py, "{'a': 1, 'b': 2}").downcast().unwrap();
        let store = Rule::Store(dict.into(), "new");
        let validator =
            DictValidator::new(false, probe("k", Rule::Any), probe("v", store), None, None);
        let input: &PyAny = dict;
        let error = internal(validator.validate(py, input, &LAX, &mut Vec::new()));
        assert_eq!(message(&error, py), "dictionary changed size during iteration");
        assert!(error.is_instance_of::<pyo3::exceptions::PyRuntimeError>(py));
    });
}

#[test]
fn a_value_that_changes_meanwhile_is_seen() {
    with_python(|py| {
        let dict: &PyDict = py_object(py, "{'a': 1, 'b': 2}").downcast().unwrap();
        let store = Rule::Store(dict.into(), "b");
        let validator =
            DictValidator::new(false, probe("k", Rule::Any), probe("v", store), None, None);
        let input: &PyAny = dict;
        let output = validator.validate(py, input, &LAX, &mut Vec::new()).unwrap();
        assert_eq!(shown(&output, py), "{'a': 1, 'b': 'stored'}");
    });
}

#[test]
fn keys_that_change_meanwhile_are_an_error() {
    with_python(|py| {
        let dict: &PyDict = py_object(py, "{'a': 1, 'b': 2, 'c': 3}").downcast().unwrap();
        let rename = Rule::Rename(dict.into());
        let validator =
            DictValidator::new(false, probe("k", rename), probe("v", Rule::Any), None, None);
        let input: &PyAny = dict;
        let error = internal(validator.validate(py, input, &LAX, &mut Vec::new()));
        assert_eq!(message(&error, py), "dictionary keys changed during iteration");
    });
}

#[test]
fn strictness_matters_unless_only_the_children_count() {
    let by_text = by_text();
    let any = DictValidator::new(false, probe("k", Rule::Any), probe("v", Rule::Any), None, None);
    let half =
        DictValidator::new(false, probe("k", Rule::Any), probe("v", Rule::ByText), None, None);
    assert!(by_text.different_strict_behavior(false));
    assert!(any.different_strict_behavior(false));
    assert!(by_text.different_strict_behavior(true));
    assert!(half.different_strict_behavior(true));
    assert!(!any.different_strict_behavior(true));
}

fn built(
    py: Python<'_>,
    schema: &str,
    config: Option<&str>,
) -> Result<DictValidator<Probe>, String> {
    let schema: &PyDict = py_object(py, schema).downcast().unwrap();
    let config: Option<&PyDict> = config.map(|code| py_object(py, code).downcast().unwrap());
    DictValidator::build(schema, config, &mut Vec::new()).map_err(|error| message(&error, py))
}

#[test]
fn a_schema_without_children_accepts_anything() {
    with_python(|py| {
        let validator = built(py, "{'type': 'dict'}", None).unwrap();
        assert_eq!(validator.get_name(), "dict[any,any]");
        let (key, value) = validator.children();
        assert_eq!((key.name, value.name), ("any", "any"));
        let input = py_object(py, "{1: 'bad'}");
        assert!(validator.validate(py, input, &LAX, &mut Vec::new()).is_ok());
    });
}

#[test]
fn a_schema_names_its_children() {
    with_python(|py| {
        let schema: &PyDict =
            py_object(py, "{'keys_schema': 'by_text', 'values_schema': 'other'}")
                .downcast()
                .unwrap();
        let config: &PyDict = py_object(py, "{}").downcast().unwrap();
        let mut definitions = Vec::new();
        let validator: DictValidator<Probe> =
            DictValidator::build(schema, Some(config), &mut definitions).unwrap();
        assert_eq!(validator.get_name(), "dict[by_text,same]");
        assert_eq!(definitions, vec!["by_text/true", "other/true"]);
    });
}

#[test]
fn the_bounds_are_read_from_the_schema() {
    with_python(|py| {
        let validator = built(py, "{'min_length': 1, 'max_length': 2}", None).unwrap();
        let run = |code: &str| {
            let input = py_object(py, code);
            validator.validate(py, input, &LAX, &mut Vec::new()).is_ok()
        };
        assert!(!run("{}"));
        assert!(run("{1: 1}"));
        assert!(run("{1: 1, 2: 2}"));
        assert!(!run("{1: 1, 2: 2, 3: 3}"));
    });
}

#[test]
fn strictness_is_read_from_the_schema_and_then_from_the_configuration() {
    with_python(|py| {
        let accepts = |schema: &str, config: Option<&str>| {
            let validator = built(py, schema, config).unwrap();
            let input = py_object(py, "__import__('types').MappingProxyType({})");
            validator.validate(py, input, &LAX, &mut Vec::new()).is_ok()
        };
        assert!(accepts("{}", None));
        assert!(accepts("{}", Some("{}")));
        assert!(!accepts("{'strict': True}", None));
        assert!(!accepts("{}", Some("{'strict': True}")));
        assert!(accepts("{'strict': False}", Some("{'strict': True}")));
        assert!(!accepts("{'strict': True}", Some("{'strict': False}")));
    });
}

#[test]
fn the_first_part_of_a_schema_that_fails_is_reported() {
    with_python(|py| {
        let failed = |schema: &str| built(py, schema, None).err().unwrap();
        let all = "'strict': 'no', 'min_length': 'a', 'max_length': None";
        assert_eq!(
            failed(&format!("{{'keys_schema': 7, 'values_schema': 'broken', {}}}", all)),
            "'int' object cannot be converted to 'PyString'"
        );
        assert_eq!(failed(&format!("{{'values_schema': 'broken', {}}}", all)), "broken child");
        assert_eq!(
            failed(&format!("{{{}}}", all)),
            "'str' object cannot be converted to 'PyBool'"
        );
        assert_eq!(
            failed("{'min_length': 'a', 'max_length': None}"),
            "'str' object cannot be interpreted as an integer"
        );
        assert_eq!(
            failed("{'min_length': 1, 'max_length': None}"),
            "'NoneType' object cannot be interpreted as an integer"
        );
    });
}
