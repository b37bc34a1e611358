//! Reading schemas.
use crate::python::{
    bool_answered, bool_value, dict_get_item, extract_bool, extract_usize, int_value, item_answered,
    size_read, truth_read, usize_answered,
};
use pyo3::types::{PyAny, PyDict};
use pyo3::PyErr;
use vstd::prelude::*;

verus! {

/// Whether the value under the key has been read as an optional `usize` so.
pub open spec fn usize_read(
    dict: PyDict,
    key: Seq<char>,
    read: Result<Option<usize>, PyErr>,
) -> bool {
    exists|item: Option<&PyAny>|
        {
            &&& #[trigger] item_answered(dict, key, item)
            &&& match item {
                None => read == Ok::<Option<usize>, PyErr>(None),
                Some(object) => match read {
                    Ok(value) => value is Some && size_read(*object, Ok(value->0)),
                    Err(exception) => size_read(*object, Err(exception)),
                },
            }
        }
}

/// Whether the value under the key has been read as an optional `bool` so.
pub open spec fn bool_read(
    dict: PyDict,
    key: Seq<char>,
    read: Result<Option<bool>, PyErr>,
) -> bool {
    exists|item: Option<&PyAny>|
        {
            &&& #[trigger] item_answered(dict, key, item)
            &&& match item {
                None => read == Ok::<Option<bool>, PyErr>(None),
                Some(object) => match read {
                    Ok(value) => value is Some && truth_read(*object, Ok(value->0)),
                    Err(exception) => truth_read(*object, Err(exception)),
                },
            }
        }
}

/// Whether the value has been read from the schema, or, where the schema says nothing, from the
/// configuration so.
pub open spec fn schema_or_config_read(
    schema: PyDict,
    config: Option<&PyDict>,
    key: Seq<char>,
    read: Result<Option<bool>, PyErr>,
) -> bool {
    exists|own: Result<Option<bool>, PyErr>|
        {
            &&& #[trigger] bool_read(schema, key, own)
            &&& match (own, config) {
                (Ok(None), Some(config)) => bool_read(*config, key, read),
                _ => read == own,
            }
        }
}

/// Whether strictness has been read so. It is off where nothing is said.
pub open spec fn strict_read(
    schema: PyDict,
    config: Option<&PyDict>,
    read: Result<bool, PyErr>,
) -> bool {
    match read {
        Ok(strict) => {
            ||| schema_or_config_read(schema, config, "strict"@, Ok(Some(strict)))
            ||| !strict && schema_or_config_read(schema, config, "strict"@, Ok(None))
        },
        Err(exception) => schema_or_config_read(schema, config, "strict"@, Err(exception)),
    }
}

/// The `usize` under the key, if there is one.
pub fn get_usize(dict: &PyDict, key: &str) -> (read: Result<Option<usize>, PyErr>)
    ensures
        usize_read(*dict, key@, read),
{
    match dict_get_item(dict, key) {
        Some(object) => match extract_usize(object) {
            Ok(value) => Ok(Some(value)),
            Err(e) => Err(e),
        },
        None => Ok(None),
    }
}

/// The `bool` under the key, if there is one.
pub fn get_bool(dict: &PyDict, key: &str) -> (read: Result<Option<bool>, PyErr>)
    ensures
        bool_read(*dict, key@, read),
{
    match dict_get_item(dict, key) {
        Some(object) => match extract_bool(object) {
            Ok(value) => Ok(Some(value)),
            Err(e) => Err(e),
        },
        None => Ok(None),
    }
}

/// The `bool` under the key in the schema, or else in the configuration.
pub fn schema_or_config_same(schema: &PyDict, config: Option<&PyDict>, key: &str) -> (read: Result<
    Option<bool>,
    PyErr,
>)
    ensures
        schema_or_config_read(*schema, config, key@, read),
{
    let own = get_bool(schema, key);
    assert(bool_read(*schema, key@, own));
    match (own, config) {
        (Ok(None), Some(config)) => get_bool(config, key),
        (own, _) => own,
    }
}

/// Whether validators of the schema are strict.
pub fn is_strict(schema: &PyDict, config: Option<&PyDict>) -> (strict: Result<bool, PyErr>)
    ensures
        strict_read(*schema, config, strict),
{
    match schema_or_config_same(schema, config, "strict") {
        Ok(Some(strict)) => Ok(strict),
        Ok(None) => Ok(false),
        Err(e) => Err(e),
    }
}

/// Whether the dictionary holds this under the key, however it is asked.
pub open spec fn holds(dict: PyDict, key: Seq<char>, item: Option<PyAny>) -> bool {
    forall|answer: Option<&PyAny>| #[trigger]
        item_answered(dict, key, answer) ==> match (answer, item) {
            (Some(found), Some(object)) => *found == object,
            (None, None) => true,
            _ => false,
        }
}

/// A bound that a dictionary holds as an object of the class `int` itself is read as its value,
/// where that fits, and as an error otherwise. One that it does not hold is none.
pub proof fn law_bound_read(
    dict: PyDict,
    key: Seq<char>,
    item: Option<PyAny>,
    read: Result<Option<usize>, PyErr>,
)
    requires
        holds(dict, key, item),
        item matches Some(object) ==> int_value(object) is Some,
        usize_read(dict, key, read),
    ensures
        match item {
            None => read == Ok::<Option<usize>, PyErr>(None),
            Some(object) => {
                let value = int_value(object)->0;
                if 0 <= value <= usize::MAX {
                    read == Ok::<Option<usize>, PyErr>(Some(value as usize))
                } else {
                    read is Err
                }
            },
        },
{
}

/// A truth value that a dictionary holds is read as its value where it is a `bool`, and as an error
/// where it is anything else. One that it does not hold is none.
pub proof fn law_bool_read(
    dict: PyDict,
    key: Seq<char>,
    item: Option<PyAny>,
    read: Result<Option<bool>, PyErr>,
)
    requires
        holds(dict, key, item),
        bool_read(dict, key, read),
    ensures
        match item {
            None => read == Ok::<Option<bool>, PyErr>(None),
            Some(object) => match bool_value(object) {
                Some(value) => read == Ok::<Option<bool>, PyErr>(Some(value)),
                None => read is Err,
            },
        },
{
}

/// What the schema says of strictness counts before what the configuration says, and where neither
/// says anything it is off. Something other than a `bool` is an error.
pub proof fn law_strict_read(
    schema: PyDict,
    config: Option<&PyDict>,
    own: Option<PyAny>,
    common: Option<PyAny>,
    read: Result<bool, PyErr>,
)
    requires
        holds(schema, "strict"@, own),
        match config {
            Some(config) => holds(*config, "strict"@, common),
            None => common is None,
        },
        strict_read(schema, config, read),
    ensures
        match (own, common) {
            (Some(object), _) => match bool_value(object) {
                Some(value) => read == Ok::<bool, PyErr>(value),
                None => read is Err,
            },
            (None, Some(object)) => match bool_value(object) {
                Some(value) => read == Ok::<bool, PyErr>(value),
                None => read is Err,
            },
            (None, None) => read == Ok::<bool, PyErr>(false),
        },
{
    let found: Result<Option<bool>, PyErr> = match read {
        Ok(strict) => if schema_or_config_read(schema, config, "strict"@, Ok(Some(strict))) {
            Ok(Some(strict))
        } else {
            Ok(None)
        },
        Err(exception) => Err(exception),
    };
    let first = choose|first: Result<Option<bool>, PyErr>|
        {
            &&& #[trigger] bool_read(schema, "strict"@, first)
            &&& match (first, config) {
                (Ok(None), Some(config)) => bool_read(*config, "strict"@, found),
                _ => found == first,
            }
        };
    law_bool_read(schema, "strict"@, own, first);
    if let Some(config) = config {
        if own is None {
            law_bool_read(*config, "strict"@, common, found);
        }
    }
}

/// What stands under a key is read as what reading that very object gives: its number or truth
/// value, or the exception, and never as nothing.
pub proof fn law_item_read(
    dict: PyDict,
    key: Seq<char>,
    object: PyAny,
    size: Result<Option<usize>, PyErr>,
    truth: Result<Option<bool>, PyErr>,
)
    requires
        forall|answer: Option<&PyAny>| #[trigger]
            item_answered(dict, key, answer) ==> answer == Some(&object),
        usize_read(dict, key, size),
        bool_read(dict, key, truth),
    ensures
        match size {
            Ok(Some(number)) => usize_answered(object, Ok(number)),
            Ok(None) => false,
            Err(exception) => usize_answered(object, Err(exception)),
        },
        match truth {
            Ok(Some(value)) => {
                &&& bool_answered(object, Ok(value))
                &&& bool_value(object) == Some(value)
            },
            Ok(None) => false,
            Err(exception) => {
                &&& bool_answered(object, Err(exception))
                &&& bool_value(object) is None
            },
        },
{
}

/// Nothing is read where nothing stands under the key, and then there is no error.
pub proof fn law_nothing_read(
    dict: PyDict,
    key: Seq<char>,
    size: Result<Option<usize>, PyErr>,
    truth: Result<Option<bool>, PyErr>,
)
    requires
        forall|answer: Option<&PyAny>| #[trigger]
            item_answered(dict, key, answer) ==> answer is None,
        usize_read(dict, key, size),
        bool_read(dict, key, truth),
    ensures
        size == Ok::<Option<usize>, PyErr>(None),
        truth == Ok::<Option<bool>, PyErr>(None),
{
}

/// A truth value that the schema holds is what is read, whatever the configuration holds; where the
/// schema holds none, it is what the configuration holds.
pub proof fn law_schema_before_config(
    schema: PyDict,
    config: Option<&PyDict>,
    key: Seq<char>,
    own: Option<PyAny>,
    read: Result<Option<bool>, PyErr>,
)
    requires
        forall|answer: Option<&PyAny>| #[trigger]
            item_answered(schema, key, answer) ==> {
                &&& answer is Some <==> own is Some
                &&& own is Some ==> *answer->0 == own->0
            },
        schema_or_config_read(schema, config, key, read),
    ensures
        match own {
            Some(object) => match read {
                Ok(Some(value)) => bool_value(object) == Some(value),
                Ok(None) => false,
                Err(exception) => {
                    &&& bool_value(object) is None
                    &&& bool_answered(object, Err(exception))
                },
            },
            None => match config {
                None => read == Ok::<Option<bool>, PyErr>(None),
                Some(config) => exists|item: Option<&PyAny>|
                    {
                        &&& #[trigger] item_answered(*config, key, item)
                        &&& match (item, read) {
                            (None, Ok(None)) => true,
                            (Some(object), Ok(Some(value))) => bool_value(*object) == Some(value),
                            (Some(object), Err(exception)) => {
                                &&& bool_value(*object) is None
                                &&& bool_answered(*object, Err(exception))
                            },
                            _ => false,
                        }
                    },
            },
        },
{
}

} // verus!
