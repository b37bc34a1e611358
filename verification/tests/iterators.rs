use pydantic_core::errors::{ErrorType, ValError};
use pydantic_core::input::parse_json::{JsonInput, JsonObject};
use pydantic_core::input::return_enums::{
    has_private_name, mapping_err, number_item, split_pair, AttributesGenericIterator,
    DictGenericIterator, GenericEntries, GenericIterator, GenericJsonIterator, GenericMapping,
    GenericPyIterator, JsonObjectGenericIterator, MappingGenericIterator,
};
use pydantic_core::input::InputValue;
use pyo3::exceptions::PyValueError;
use pyo3::types::{PyAny, PyDict, PyMapping};
use pyo3::{PyErr, Python};

fn with_python<T>(run: impl FnOnce(Python<'_>) -> T) -> T {
    pyo3::prepare_freethreaded_python();
    Python::with_gil(run)
}

fn py_object<'py>(py: Python<'py>, code: &str) -> &'py PyAny {
    py.eval(code, None, None).unwrap()
}

/// The last object that the code leaves under the name `made`.
fn py_made<'py>(py: Python<'py>, code: &str) -> &'py PyAny {
    let scope = PyDict::new(py);
    py.run(code, Some(scope), None).unwrap();
    scope.get_item("made").unwrap()
}

fn shown(object: &PyAny) -> String {
    object.repr().unwrap().to_string_lossy().into_owned()
}

fn message(error: &PyErr, py: Python<'_>) -> String {
    error.value(py).to_string()
}

const PAIRS_WANTED: &str = "Mapping items must be tuples of (key, value) pairs";

#[test]
fn a_dictionary_gives_its_entries_and_ends() {
    with_python(|py| {
        let dict: &PyDict = py_object(py, "{'a': 1, 2: 'b'}").downcast().unwrap();
        let mut iterator = DictGenericIterator::new(dict).unwrap();
        let (key, value) = iterator.next().unwrap().unwrap();
        assert_eq!((shown(key), shown(value)), ("'a'".to_string(), "1".to_string()));
        let (key, value) = iterator.next().unwrap().unwrap();
        assert_eq!((shown(key), shown(value)), ("2".to_string(), "'b'".to_string()));
        assert!(iterator.next().is_none());
        assert!(iterator.next().is_none());
    });
}

#[test]
fn a_dictionary_must_keep_its_size() {
    with_python(|py| {
        let dict: &PyDict = py_object(py, "{'a': 1}").downcast().unwrap();
        let mut iterator = DictGenericIterator::new(dict).unwrap();
        dict.set_item("b", 2).unwrap();
        match iterator.next() {
            Some(Err(ValError::InternalErr(error))) => {
                assert_eq!(message(&error, py), "dictionary changed size during iteration")
            }
            _ => panic!("no error"),
        }
    });
}

#[test]
fn a_dictionary_gives_what_it_holds() {
    with_python(|py| {
        let code = "
class Odd(dict):
    def items(self):
        raise ValueError('no items')
    def __iter__(self):
        raise ValueError('no keys')
made = Odd(a=1, b=2)
";
        let dict: &PyDict = py_made(py, code).downcast().unwrap();
        let mut iterator = DictGenericIterator::new(dict).unwrap();
        let (key, value) = iterator.next().unwrap().unwrap();
        assert_eq!((shown(key), shown(value)), ("'a'".to_string(), "1".to_string()));
        let (key, value) = iterator.next().unwrap().unwrap();
        assert_eq!((shown(key), shown(value)), ("'b'".to_string(), "2".to_string()));
        assert!(iterator.next().is_none());
    });
}

#[test]
fn an_item_of_a_dictionary_is_a_pair_or_an_error() {
    with_python(|py| {
        let (key, value) =
            DictGenericIterator::accept(Some(Ok(py_object(py, "(1, [2])")))).unwrap().unwrap();
        assert_eq!((shown(key), shown(value)), ("1".to_string(), "[2]".to_string()));
        match DictGenericIterator::accept(Some(Ok(py_object(py, "(1, 2, 3)")))) {
            Some(Err(ValError::InternalErr(error))) => {
                assert_eq!(message(&error, py), "Dictionary items must be pairs")
            }
            _ => panic!("no error"),
        }
        match DictGenericIterator::accept(Some(Err(PyValueError::new_err("broken")))) {
            Some(Err(ValError::InternalErr(error))) => assert_eq!(message(&error, py), "broken"),
            _ => panic!("no error"),
        }
        assert!(DictGenericIterator::accept(None).is_none());
    });
}

#[test]
fn pairs_are_taken_apart() {
    with_python(|py| {
        let (key, value) = split_pair(py_object(py, "('k', 'v')")).unwrap();
        assert_eq!((shown(key), shown(value)), ("'k'".to_string(), "'v'".to_string()));
        assert!(split_pair(py_object(py, "('k',)")).is_none());
        assert!(split_pair(py_object(py, "['k', 'v']")).is_none());
    });
}

/// A mapping with the given items.
fn mapping_of<'py>(py: Python<'py>, items: &str) -> &'py PyMapping {
    let code = format!(
        "
import collections.abc
class Odd(collections.abc.Mapping):
    def __len__(self):
        return 0
    def __iter__(self):
        return iter(())
    def __getitem__(self, key):
        raise KeyError(key)
    def items(self):
        return {}
made = Odd()
",
        items
    );
    py_made(py, &code).downcast().unwrap()
}

#[test]
fn the_items_of_a_mapping_come_each_once_in_their_order() {
    with_python(|py| {
        let mut iterator =
            MappingGenericIterator::new(mapping_of(py, "[('a', 1), ('b', 2), ('a', 3)]")).unwrap();
        for (name, number) in [("'a'", "1"), ("'b'", "2"), ("'a'", "3")] {
            let (key, value) = iterator.next().unwrap().unwrap();
            assert_eq!((shown(key), shown(value)), (name.to_string(), number.to_string()));
        }
        assert!(iterator.next().is_none());
    });
}

#[test]
fn an_item_that_is_no_pair_is_an_error_of_its_own_call() {
    with_python(|py| {
        let mut iterator =
            MappingGenericIterator::new(mapping_of(py, "[('a', 1), 7, ('b', 2)]")).unwrap();
        assert!(iterator.next().unwrap().is_ok());
        assert!(iterator.next().unwrap().is_err());
        let (key, value) = iterator.next().unwrap().unwrap();
        assert_eq!((shown(key), shown(value)), ("'b'".to_string(), "2".to_string()));
        assert!(iterator.next().is_none());
    });
}

#[test]
fn a_mapping_gives_its_pairs_and_ends() {
    with_python(|py| {
        let object = py_object(py, "__import__('types').MappingProxyType({'a': 1})");
        let mapping: &PyMapping = object.downcast().unwrap();
        let mut iterator = MappingGenericIterator::new(mapping).unwrap();
        let (key, value) = iterator.next().unwrap().unwrap();
        assert_eq!((shown(key), shown(value)), ("'a'".to_string(), "1".to_string()));
        assert!(iterator.next().is_none());
    });
}

#[test]
fn an_item_of_a_mapping_is_a_pair_or_an_error() {
    with_python(|py| {
        let object = py_object(py, "{}");
        let mapping: &PyMapping = object.downcast().unwrap();
        let iterator = MappingGenericIterator::new(mapping).unwrap();
        let (key, value) = iterator.split_item(py_object(py, "(1, [2])")).unwrap();
        assert_eq!((shown(key), shown(value)), ("1".to_string(), "[2]".to_string()));
        for code in ["(1,)", "(1, 2, 3)", "()", "[1, 2]", "'ab'", "None"] {
            match iterator.split_item(py_object(py, code)) {
                Err(ValError::LineErrors(lines)) => {
                    assert_eq!(lines.len(), 1);
                    assert_eq!(
                        lines[0].error_type,
                        ErrorType::MappingType { error: PAIRS_WANTED.to_string() }
                    );
                    assert!(
                        matches!(lines[0].input_value, InputValue::PyAny(input) if input.is(object))
                    );
                }
                _ => panic!("accepted {}", code),
            }
        }
        assert!(iterator.accept(None).is_none());
        match iterator.accept(Some(Err(PyValueError::new_err("broken")))) {
            Some(Err(ValError::LineErrors(lines))) => assert_eq!(
                lines[0].error_type,
                ErrorType::MappingType { error: "ValueError: broken".to_string() }
            ),
            _ => panic!("no fault"),
        }
        assert!(matches!(iterator.accept(Some(Ok(py_object(py, "(1, 2)")))), Some(Ok(_))));
    });
}

#[test]
fn an_exception_is_reported_as_a_fault_of_the_mapping() {
    with_python(|py| {
        let text = "input".to_string();
        match mapping_err(PyValueError::new_err("broken"), py, &text) {
            ValError::LineErrors(lines) => {
                assert_eq!(
                    lines[0].error_type,
                    ErrorType::MappingType { error: "ValueError: broken".to_string() }
                );
                assert!(matches!(lines[0].input_value, InputValue::String("input")));
            }
            _ => panic!("no fault"),
        }
    });
}

const ATTRIBUTES: &str = "
class Thing:
    shared = 'class'
    _private = 1
    def method(self):
        return 1
    @staticmethod
    def static():
        return 1
    @classmethod
    def of_class(cls):
        return 1
    @property
    def failing(self):
        raise ValueError('no')
    @property
    def computed(self):
        return 42
made = Thing()
made.own = [1]
made.function = lambda: 1
made._hidden = 2
";

#[test]
fn the_public_data_of_an_object_are_its_attributes() {
    with_python(|py| {
        let thing = py_made(py, ATTRIBUTES);
        let mut iterator = AttributesGenericIterator::new(thing).unwrap();
        let mut found = Vec::new();
        while let Some(entry) = iterator.next() {
            let (name, attr) = entry.unwrap();
            found.push((shown(name), shown(attr)));
        }
        let expected: Vec<(String, String)> = [
            ("'computed'", "42"),
            ("'own'", "[1]"),
            ("'shared'", "'class'"),
        ]
        .iter()
        .map(|(name, value)| (name.to_string(), value.to_string()))
        .collect();
        assert_eq!(found, expected);
        assert!(iterator.next().is_none());
    });
}

#[test]
fn an_attribute_is_read_once() {
    with_python(|py| {
        let code = "
class Counting:
    reads = []
    @property
    def computed(self):
        self._counted.append('computed')
        return 42
    @property
    def failing(self):
        self._counted.append('failing')
        raise ValueError('no')
made = Counting()
made._counted = []
";
        let thing = py_made(py, code);
        let mut iterator = AttributesGenericIterator::new(thing).unwrap();
        let (name, attr) = iterator.next().unwrap().unwrap();
        assert_eq!((shown(name), shown(attr)), ("'computed'".to_string(), "42".to_string()));
        let (name, _) = iterator.next().unwrap().unwrap();
        assert_eq!(shown(name), "'reads'");
        assert!(iterator.next().is_none());
        assert_eq!(shown(thing.getattr("_counted").unwrap()), "['computed', 'failing']");
    });
}

#[test]
fn an_attribute_name_that_is_no_string_is_an_error() {
    with_python(|py| {
        let code = "
class Odd:
    def __dir__(self):
        return [1]
made = Odd()
";
        let odd = py_made(py, code);
        let mut iterator = AttributesGenericIterator::new(odd).unwrap();
        match iterator.next() {
            Some(Err(ValError::InternalErr(error))) => assert_eq!(
                message(&error, py),
                "'int' object cannot be converted to 'PyString'"
            ),
            _ => panic!("no error"),
        }
        assert!(iterator.next().is_none());
    });
}

#[test]
fn an_object_without_attribute_names_is_an_error() {
    with_python(|py| {
        let code = "
class Odd:
    def __dir__(self):
        raise ValueError('no names')
made = Odd()
";
        match AttributesGenericIterator::new(py_made(py, code)) {
            Err(ValError::InternalErr(error)) => assert_eq!(message(&error, py), "no names"),
            _ => panic!("no error"),
        }
    });
}

#[test]
fn bound_methods_and_functions_are_hidden() {
    with_python(|py| {
        let value = py_object(py, "42");
        let function = py_object(py, "lambda: 1");
        assert!(AttributesGenericIterator::hides(value, Ok(true)));
        assert!(!AttributesGenericIterator::hides(value, Ok(false)));
        assert!(!AttributesGenericIterator::hides(value, Err(PyValueError::new_err("no"))));
        assert!(AttributesGenericIterator::hides(function, Ok(false)));
        assert!(AttributesGenericIterator::hides(function, Ok(true)));
    });
}

#[test]
fn names_with_an_underscore_in_front_are_private() {
    assert!(has_private_name("_a"));
    assert!(has_private_name("_"));
    assert!(has_private_name("__a__"));
    assert!(!has_private_name("a_"));
    assert!(!has_private_name(""));
    assert!(!has_private_name("\u{fffd}_"));
}

#[test]
fn a_json_object_gives_its_members_and_ends() {
    let object: JsonObject = vec![
        ("b".to_string(), JsonInput::Int(1)),
        ("a".to_string(), JsonInput::Null),
        ("b".to_string(), JsonInput::Bool(true)),
    ];
    let mut iterator = JsonObjectGenericIterator::new(&object).unwrap();
    let (key, value) = iterator.next().unwrap().unwrap();
    assert_eq!(key, "b");
    assert!(matches!(value, JsonInput::Int(1)));
    let (key, value) = iterator.next().unwrap().unwrap();
    assert_eq!(key, "a");
    assert!(matches!(value, JsonInput::Null));
    let (key, value) = iterator.next().unwrap().unwrap();
    assert_eq!(key, "b");
    assert!(matches!(value, JsonInput::Bool(true)));
    assert!(iterator.next().is_none());
    assert!(iterator.next().is_none());
}

fn json_iterator(array: Vec<JsonInput>) -> GenericJsonIterator {
    match GenericIterator::from(array) {
        GenericIterator::JsonArray(iterator) => iterator,
        GenericIterator::PyIterator(_) => panic!("a Python iterator"),
    }
}

#[test]
fn the_items_of_an_array_are_numbered() {
    with_python(|py| {
        let mut iterator = json_iterator(vec![JsonInput::Int(7), JsonInput::Int(8)]);
        assert_eq!(iterator.index(), 0);
        assert!(matches!(iterator.next(py), Ok(Some((JsonInput::Int(7), 0)))));
        assert_eq!(iterator.index(), 1);
        let mut copy = iterator.clone();
        assert!(matches!(iterator.next(py), Ok(Some((JsonInput::Int(8), 1)))));
        assert!(matches!(iterator.next(py), Ok(None)));
        assert!(matches!(iterator.next(py), Ok(None)));
        assert_eq!(iterator.index(), 2);
        assert!(matches!(copy.next(py), Ok(Some((JsonInput::Int(8), 1)))));
        assert_eq!(shown(iterator.input(py)), "[7, 8]");
    });
}

fn py_iterator(object: &PyAny) -> GenericPyIterator {
    match GenericIterator::from_py_any(object).unwrap() {
        GenericIterator::PyIterator(iterator) => iterator,
        GenericIterator::JsonArray(_) => panic!("a JSON array"),
    }
}

#[test]
fn the_items_of_a_python_object_are_numbered() {
    with_python(|py| {
        let object = py_object(py, "('x', 'y')");
        let mut iterator = py_iterator(object);
        assert!(iterator.input(py).is(object));
        assert_eq!(iterator.index(), 0);
        let (item, number) = iterator.next(py).unwrap().unwrap();
        assert_eq!((shown(item), number), ("'x'".to_string(), 0));
        let mut copy = iterator.clone();
        let (item, number) = iterator.next(py).unwrap().unwrap();
        assert_eq!((shown(item), number), ("'y'".to_string(), 1));
        assert_eq!(iterator.index(), 2);
        assert!(iterator.next(py).unwrap().is_none());
        assert_eq!(iterator.index(), 2);
        assert_eq!(copy.index(), 1);
        assert!(copy.next(py).unwrap().is_none());
    });
}

#[test]
fn a_new_iterator_has_taken_no_item() {
    with_python(|py| {
        let object = py_object(py, "iter([7, 8])");
        let mut iterator = py_iterator(object);
        let (item, number) = iterator.next(py).unwrap().unwrap();
        assert_eq!((shown(item), number), ("7".to_string(), 0));
        let (item, number) = iterator.next(py).unwrap().unwrap();
        assert_eq!((shown(item), number), ("8".to_string(), 1));
        assert!(iterator.next(py).unwrap().is_none());
    });
}

#[test]
fn an_exception_of_a_python_iterator_is_handed_on() {
    with_python(|py| {
        let mut iterator = py_iterator(py_object(py, "(1 // (1 - i) for i in range(3))"));
        assert!(iterator.next(py).unwrap().is_some());
        let error = iterator.next(py).err().unwrap();
        assert_eq!(message(&error, py), "integer division or modulo by zero");
        assert_eq!(iterator.index(), 1);
        let refused = GenericIterator::from_py_any(py_object(py, "7")).err().unwrap();
        assert_eq!(message(&refused, py), "'int' object is not iterable");
    });
}

#[test]
fn items_are_numbered_by_what_has_come() {
    with_python(|py| {
        let item = py_object(py, "'x'");
        let mut index: usize = 5;
        assert!(matches!(number_item(Some(Ok(item)), &mut index), Ok(Some((_, 5)))));
        assert_eq!(index, 6);
        assert!(matches!(number_item(None, &mut index), Ok(None)));
        assert!(number_item(Some(Err(PyValueError::new_err("no"))), &mut index).is_err());
        assert_eq!(index, 6);
    });
}

#[test]
fn mappings_are_told_apart() {
    with_python(|py| {
        let object = py_object(py, "{}");
        let dict: &PyDict = object.downcast().unwrap();
        let mapping: &PyMapping = object.downcast().unwrap();
        let members: JsonObject = Vec::new();
        assert!(matches!(GenericMapping::from(dict), GenericMapping::PyDict(_)));
        assert!(matches!(GenericMapping::from(mapping), GenericMapping::PyMapping(_)));
        assert!(matches!(GenericMapping::from(object), GenericMapping::PyGetAttr(_, None)));
        assert!(matches!(GenericMapping::from(&members), GenericMapping::JsonObject(_)));
    });
}
