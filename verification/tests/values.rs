use pydantic_core::errors::{
    describe_error, length_check, py_err_string, ErrorType, LocItem, Location, ValError,
    ValLineError,
};
use pydantic_core::input::parse_json::JsonInput;
use pydantic_core::input::return_enums::{
    py_string_str, EitherBytes, EitherString, GenericArguments, JsonArgs, PyArgs,
};
use pydantic_core::input::{safe_repr, unprintable_text, Input, InputValue, KeyInput};
use pydantic_core::type_validators::none::NoneValidator;
use pydantic_core::type_validators::TypeValidator;
use pyo3::exceptions::{PyKeyError, PyValueError};
use pyo3::types::{PyAny, PyBytes, PyDict, PyString, PyTuple};
use pyo3::{PyErr, Python, ToPyObject};
use std::borrow::Cow;

fn with_python<T>(run: impl FnOnce(Python<'_>) -> T) -> T {
    pyo3::prepare_freethreaded_python();
    Python::with_gil(run)
}

fn py_object<'py>(py: Python<'py>, code: &str) -> &'py PyAny {
    py.eval(code, None, None).unwrap()
}

fn shown(object: &PyAny) -> String {
    object.repr().unwrap().to_string_lossy().into_owned()
}

#[test]
fn json_becomes_python() {
    with_python(|py| {
        let half = py_object(py, "0.5");
        let json = JsonInput::Object(vec![
            ("null".to_string(), JsonInput::Null),
            ("bool".to_string(), JsonInput::Bool(false)),
            ("int".to_string(), JsonInput::Int(i64::MIN)),
            ("float".to_string(), JsonInput::Float(half.to_object(py))),
            ("text".to_string(), JsonInput::String("\u{e9}\u{1F408}".to_string())),
            (
                "array".to_string(),
                JsonInput::Array(vec![JsonInput::Int(1), JsonInput::Array(Vec::new())]),
            ),
            ("object".to_string(), JsonInput::Object(Vec::new())),
        ]);
        let object = json.to_object(py);
        assert_eq!(
            shown(object.as_ref(py)),
            "{'null': None, 'bool': False, 'int': -9223372036854775808, 'float': 0.5, \
             'text': '\u{e9}\u{1F408}', 'array': [1, []], 'object': {}}"
        );
        let copy = json.clone();
        assert_eq!(shown(copy.to_object(py).as_ref(py)), shown(object.as_ref(py)));
    });
}

#[test]
fn a_member_that_comes_twice_keeps_the_last_value() {
    with_python(|py| {
        let json = JsonInput::Object(vec![
            ("a".to_string(), JsonInput::Int(1)),
            ("b".to_string(), JsonInput::Int(2)),
            ("a".to_string(), JsonInput::Int(3)),
        ]);
        assert_eq!(shown(json.to_object(py).as_ref(py)), "{'a': 3, 'b': 2}");
    });
}

#[test]
fn text_comes_back_from_a_python_string() {
    with_python(|py| {
        let text = "caf\u{e9} \u{1F408}";
        let either = EitherString::from(text);
        let string: &PyString = either.as_py_string(py);
        let back = EitherString::from(string);
        assert_eq!(back.as_cow().unwrap(), text);
        assert!(back.as_py_string(py).is(string));
        assert_eq!(py_string_str(string).unwrap(), text);
        assert_eq!(either.as_cow().unwrap(), text);
    });
}

#[test]
fn owned_text_is_text() {
    with_python(|py| {
        let either = EitherString::Cow(Cow::Owned("owned".to_string()));
        assert_eq!(either.as_cow().unwrap(), "owned");
        assert_eq!(shown(either.as_py_string(py)), "'owned'");
        assert_eq!(shown(either.into_py(py).as_ref(py)), "'owned'");
    });
}

#[test]
fn a_string_with_a_surrogate_has_no_text() {
    with_python(|py| {
        let object = py_object(py, "'a\\ud800'");
        let string: &PyString = object.downcast().unwrap();
        match EitherString::from(string).as_cow() {
            Err(ValError::LineErrors(lines)) => {
                assert_eq!(lines.len(), 1);
                assert_eq!(lines[0].error_type, ErrorType::StringUnicode);
                assert_eq!(lines[0].location, Location::Empty);
                assert!(
                    matches!(lines[0].input_value, InputValue::PyAny(input) if input.is(object))
                );
            }
            _ => panic!("accepted"),
        };
        assert!(py_string_str(string).is_err());
        assert!(EitherString::from(string).into_py(py).as_ref(py).is(object));
    });
}

#[test]
fn bytes_have_a_length() {
    with_python(|py| {
        let slice: &[u8] = &[1, 2, 3];
        assert_eq!(EitherBytes::from(slice).len().unwrap(), 3);
        assert_eq!(EitherBytes::from(vec![0u8; 5]).len().unwrap(), 5);
        let object: &PyBytes = py_object(py, "b'ab'").downcast().unwrap();
        assert_eq!(EitherBytes::from(object).len().unwrap(), 2);
        let odd: &PyBytes = py_object(py, "type('B', (bytes,), {'__len__': lambda self: 9})(b'ab')")
            .downcast()
            .unwrap();
        assert_eq!(EitherBytes::from(odd).len().unwrap(), 9);
        let bad: &PyBytes =
            py_object(py, "type('B', (bytes,), {'__len__': lambda self: 1 // 0})(b'ab')")
                .downcast()
                .unwrap();
        assert!(EitherBytes::from(bad).len().is_err());
    });
}

#[test]
fn bytes_become_python_bytes() {
    with_python(|py| {
        let slice: &[u8] = &[104, 105, 0];
        assert_eq!(shown(EitherBytes::from(slice).into_py(py).as_ref(py)), "b'hi\\x00'");
        assert_eq!(shown(EitherBytes::from(vec![255u8]).into_py(py).as_ref(py)), "b'\\xff'");
        let object = py_object(py, "b'ab'");
        let bytes: &PyBytes = object.downcast().unwrap();
        assert!(EitherBytes::from(bytes).into_py(py).as_ref(py).is(object));
    });
}

#[test]
fn arguments_are_kept() {
    with_python(|py| {
        let args = PyTuple::new(py, vec![1, 2]);
        let kwargs = PyDict::new(py);
        match GenericArguments::from(PyArgs::new(Some(args), None)) {
            GenericArguments::Py(arguments) => {
                assert!(arguments.args.unwrap().is(args));
                assert!(arguments.kwargs.is_none());
            }
            GenericArguments::Json(_) => panic!("JSON"),
        }
        assert!(PyArgs::new(None, Some(kwargs)).kwargs.unwrap().is(kwargs));
        let items = vec![JsonInput::Null];
        let members = vec![("a".to_string(), JsonInput::Int(1))];
        match GenericArguments::from(JsonArgs::new(Some(&items), Some(&members))) {
            GenericArguments::Json(arguments) => {
                assert_eq!(arguments.args.unwrap().len(), 1);
                assert_eq!(arguments.kwargs.unwrap()[0].0, "a");
            }
            GenericArguments::Py(_) => panic!("Python"),
        }
    });
}

#[test]
fn none_is_accepted_and_nothing_else() {
    with_python(|py| {
        let dict = PyDict::new(py);
        let validator = NoneValidator::build(dict).unwrap();
        let none = py_object(py, "None");
        assert!(validator.validate(py, none).unwrap().as_ref(py).is(none));
        for code in ["0", "False", "''", "[]", "type(None)"] {
            let object = py_object(py, code);
            match validator.validate(py, object) {
                Err(ValError::LineErrors(lines)) => {
                    assert_eq!(lines.len(), 1);
                    assert_eq!(lines[0].error_type, ErrorType::NoneRequired);
                    assert!(
                        matches!(lines[0].input_value, InputValue::PyAny(input) if input.is(object))
                    );
                }
                _ => panic!("accepted {}", code),
            }
        }
        let copy = validator.clone_dyn();
        assert!(copy.0.validate(py, none).is_ok());
        assert!(copy.0.validate(py, dict).is_err());
    });
}

#[test]
fn the_type_of_none_is_null() {
    with_python(|py| {
        let dict = PyDict::new(py);
        assert!(NoneValidator::is_match("null", dict));
        assert!(!NoneValidator::is_match("none", dict));
        assert!(!NoneValidator::is_match("Null", dict));
        assert!(!NoneValidator::is_match("", dict));
    });
}

#[test]
fn an_exception_is_described_by_type_and_message() {
    with_python(|py| {
        assert_eq!(py_err_string(py, PyValueError::new_err("bad value")), "ValueError: bad value");
        assert_eq!(py_err_string(py, PyKeyError::new_err("k")), "KeyError: 'k'");
        assert_eq!(py_err_string(py, PyValueError::new_err(())), "ValueError");
        let code = "type('Odd', (Exception,), {'__str__': lambda self: 1 // 0})()";
        let odd = PyErr::from_value(py_object(py, code));
        assert_eq!(py_err_string(py, odd), "Odd: <exception str() failed>");
    });
    assert_eq!(describe_error(None, Some("text")), "Unknown Error");
    assert_eq!(describe_error(Some("Name"), None), "Name: <exception str() failed>");
    assert_eq!(describe_error(Some("Name"), Some("")), "Name");
    assert_eq!(describe_error(Some("Name"), Some("text")), "Name: text");
}

#[test]
fn an_object_is_shown_by_its_repr() {
    with_python(|py| {
        assert_eq!(safe_repr(py_object(py, "[1, 'a']")), "[1, 'a']");
        let code = "type('Odd', (), {'__repr__': lambda self: 1 // 0})()";
        assert_eq!(safe_repr(py_object(py, code)), "<unprintable Odd object>");
    });
    assert_eq!(unprintable_text(None), "<unprintable object>");
    assert_eq!(unprintable_text(Some("A")), "<unprintable A object>");
}

#[test]
fn locations_grow_outwards() {
    let line = ValLineError::new_custom_input(ErrorType::DictType, InputValue::String("x"));
    assert_eq!(line.location, Location::Empty);
    let line = line
        .with_outer_location(LocItem::S("inner".to_string()))
        .with_outer_location(LocItem::I(3));
    assert_eq!(
        line.location,
        Location::List(vec![LocItem::S("inner".to_string()), LocItem::I(3)])
    );
    assert_eq!(line.error_type, ErrorType::DictType);
}

#[test]
fn keys_are_steps_of_locations() {
    with_python(|py| {
        assert_eq!("a".to_string().as_loc_item(), LocItem::S("a".to_string()));
        assert_eq!(py_object(py, "'a'").as_loc_item(), LocItem::S("a".to_string()));
        assert_eq!(py_object(py, "12").as_loc_item(), LocItem::I(12));
        assert_eq!(py_object(py, "True").as_loc_item(), LocItem::I(1));
        assert_eq!(py_object(py, "None").as_loc_item(), LocItem::S("None".to_string()));
    });
}

#[test]
fn errors_refer_to_their_input() {
    with_python(|py| {
        let object = py_object(py, "7");
        assert!(matches!(object.as_error_value(), InputValue::PyAny(input) if input.is(object)));
        let json = JsonInput::Int(7);
        assert!(matches!(json.as_error_value(), InputValue::JsonInput(JsonInput::Int(7))));
        let text = "t".to_string();
        assert!(matches!(text.as_error_value(), InputValue::String("t")));
        match ValError::new(ErrorType::StringUnicode, &json) {
            ValError::LineErrors(lines) => {
                assert_eq!(lines.len(), 1);
                assert_eq!(lines[0].error_type, ErrorType::StringUnicode);
            }
            _ => panic!("no fault"),
        }
    });
}

#[test]
fn lengths_are_held_to_their_bounds() {
    let input = "input".to_string();
    let check = |min: Option<usize>, max: Option<usize>, actual: usize| {
        match length_check(&input, "Field", min, max, actual) {
            Ok(()) => None,
            Err(ValError::LineErrors(mut lines)) => Some(lines.remove(0).error_type),
            Err(_) => panic!("no fault"),
        }
    };
    assert_eq!(check(None, None, 0), None);
    assert_eq!(check(Some(2), Some(3), 2), None);
    assert_eq!(check(Some(2), Some(3), 3), None);
    assert_eq!(
        check(Some(2), Some(3), 1),
        Some(ErrorType::TooShort {
            field_type: "Field".to_string(),
            min_length: 2,
            actual_length: 1
        })
    );
    assert_eq!(
        check(Some(2), Some(3), 4),
        Some(ErrorType::TooLong {
            field_type: "Field".to_string(),
            max_length: 3,
            actual_length: 4
        })
    );
    assert_eq!(
        check(Some(5), Some(1), 3),
        Some(ErrorType::TooShort {
            field_type: "Field".to_string(),
            min_length: 5,
            actual_length: 3
        })
    );
}
