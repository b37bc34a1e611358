//! The Python interpreter as this library sees it.
//!
//! Every item of `pyo3` that the library touches is declared in this file, and every contract
//! that is taken on trust stands here.
//!
//! A value of type `PyAny` in a contract stands for one Python object: two of them are equal when
//! they are the same object, whatever the objects hold. The names in this file come in two kinds.
//!
//! * A name such as [`as_tuple`] or [`tuple_items`] is a function of the object. It is used only
//!   for what cannot change while the object lives: of which built-in layout it is, the items of a
//!   tuple, the text of a string, the bytes of a bytes object.
//! * A name that ends in `_answered` is a relation between the arguments of a call and its result:
//!   it holds when such a call has given that result. Most calls into the interpreter can run
//!   Python code, so that the same arguments may be answered differently from one call to the next.
//!   The answers of an iterator are told apart by how often it had been asked before.
//!
//! Two things can befall every call into the interpreter, and the contracts leave both out: memory
//! can run out, which ends the call with a panic or with a `MemoryError`, and a Python exception
//! can carry a Rust panic from below, which the call then resumes.
use pyo3::exceptions::PyRuntimeError;
use pyo3::types::{
    PyAny, PyBytes, PyDict, PyFunction, PyIterator, PyList, PyMapping, PySequence, PyString,
    PyTuple,
};
use pyo3::{IntoPy, Py, PyErr, PyTypeInfo, Python, ToPyObject};
use vstd::prelude::*;

verus! {

/// A Python object, borrowed while the interpreter lock is held.
#[verifier::external_type_specification]
#[verifier::external_body]
pub struct ExPyAny(PyAny);

/// A Python `dict`.
#[verifier::external_type_specification]
#[verifier::external_body]
pub struct ExPyDict(PyDict);

/// A Python object that supports the mapping protocol.
#[verifier::external_type_specification]
#[verifier::external_body]
pub struct ExPyMapping(PyMapping);

/// A Python object that supports the sequence protocol.
#[verifier::external_type_specification]
#[verifier::external_body]
pub struct ExPySequence(PySequence);

/// A Python iterator.
#[verifier::external_type_specification]
#[verifier::external_body]
pub struct ExPyIterator(PyIterator);

/// A Python `list`.
#[verifier::external_type_specification]
#[verifier::external_body]
pub struct ExPyList(PyList);

/// A Python `tuple`.
#[verifier::external_type_specification]
#[verifier::external_body]
pub struct ExPyTuple(PyTuple);

/// A Python `str`.
#[verifier::external_type_specification]
#[verifier::external_body]
pub struct ExPyString(PyString);

/// A Python `bytes`.
#[verifier::external_type_specification]
#[verifier::external_body]
pub struct ExPyBytes(PyBytes);

/// A Python exception.
#[verifier::external_type_specification]
#[verifier::external_body]
pub struct ExPyErr(PyErr);

/// Proof that the interpreter lock is held.
#[verifier::external_type_specification]
#[verifier::external_body]
pub struct ExPython<'py>(Python<'py>);

/// An owned handle to a Python object.
#[verifier::external_type_specification]
#[verifier::external_body]
#[verifier::reject_recursive_types(T)]
pub struct ExPy<T>(pyo3::Py<T>);

/// `Py::clone`: one more handle to the same object.
pub assume_specification<T>[ <pyo3::Py<T> as Clone>::clone ](handle: &pyo3::Py<T>) -> (copy:
    pyo3::Py<T>)
    ensures
        copy == *handle,
;

// ---------------------------------------------------------------------------------------------
// Tuples

/// The tuple that the object is, if it is one.
pub uninterp spec fn as_tuple(object: PyAny) -> Option<PyTuple>;

/// The items of a tuple, which never change.
pub uninterp spec fn tuple_items(tuple: PyTuple) -> Seq<PyAny>;

/// `PyAny::downcast` to `PyTuple`: succeeds exactly on the instances of `tuple` and its
/// subclasses, and hands back the same object.
#[verifier::external_body]
pub(crate) fn downcast_tuple<'py>(object: &'py PyAny) -> (tuple: Option<&'py PyTuple>)
    ensures
        tuple is Some <==> as_tuple(*object) is Some,
        tuple matches Some(t) ==> as_tuple(*object) == Some(*t),
{
    object.downcast::<PyTuple>().ok()
}

/// `PyTuple::len`: the number of items.
#[verifier::external_body]
pub(crate) fn tuple_len(tuple: &PyTuple) -> (len: usize)
    ensures
        len == tuple_items(*tuple).len(),
{
    tuple.len()
}

/// `PyTuple::get_item`: the item at an index inside the tuple.
#[verifier::external_body]
pub(crate) fn tuple_item<'py>(tuple: &'py PyTuple, index: usize) -> (item: &'py PyAny)
    requires
        index < tuple_items(*tuple).len(),
    ensures
        *item == tuple_items(*tuple)[index as int],
{
    tuple.get_item(index).unwrap()
}

// ---------------------------------------------------------------------------------------------
// Strings

/// The string that the object is, if it is one.
pub uninterp spec fn as_string(object: PyAny) -> Option<PyString>;

/// The code points of a string, which never change. Surrogates may stand among them.
pub uninterp spec fn string_points(string: PyString) -> Seq<u32>;

/// The exception is the `TypeError` that says of the object that it is not a string.
pub uninterp spec fn string_refused(object: PyAny, error: PyErr) -> bool;

/// A string as an object.
pub uninterp spec fn string_object(string: PyString) -> PyAny;

/// A code point that is no character.
pub open spec fn is_surrogate(point: u32) -> bool {
    0xD800 <= point <= 0xDFFF
}

/// Whether every code point is a character.
pub open spec fn is_text(points: Seq<u32>) -> bool {
    forall|i: int| 0 <= i < points.len() ==> !is_surrogate(#[trigger] points[i])
}

/// What stands for a code point in a text: the character, or three replacement characters, one
/// for each byte of the encoded surrogate.
pub open spec fn lossy_point(point: u32) -> Seq<char> {
    if is_surrogate(point) {
        seq!['\u{FFFD}', '\u{FFFD}', '\u{FFFD}']
    } else {
        seq![point as char]
    }
}

/// The text of a string, with replacement characters where it has none.
pub open spec fn lossy_text(points: Seq<u32>) -> Seq<char>
    decreases points.len(),
{
    if points.len() == 0 {
        Seq::empty()
    } else {
        lossy_text(points.drop_last()) + lossy_point(points.last())
    }
}

/// `PyAny::downcast` to `PyString`: succeeds exactly on the instances of `str` and its
/// subclasses, and hands back the same object. The error is the `TypeError` that the failed
/// downcast converts to.
#[verifier::external_body]
pub(crate) fn downcast_string<'py>(object: &'py PyAny) -> (string: Result<&'py PyString, PyErr>)
    ensures
        string is Ok <==> as_string(*object) is Some,
        string matches Ok(s) ==> as_string(*object) == Some(*s),
        string matches Err(error) ==> string_refused(*object, error),
{
    object.downcast::<PyString>().map_err(PyErr::from)
}

/// The coercion of a `PyString` to the `PyAny` that it is.
#[verifier::external_body]
pub(crate) fn string_as_any<'py>(string: &'py PyString) -> (object: &'py PyAny)
    ensures
        *object == string_object(*string),
        as_string(*object) == Some(*string),
{
    string
}

/// `PyString::to_str`: the text, where every code point is a character.
#[verifier::external_body]
pub(crate) fn string_to_str<'py>(string: &'py PyString) -> (text: Result<&'py str, PyErr>)
    ensures
        text is Ok <==> is_text(string_points(*string)),
        text matches Ok(t) ==> t@ == lossy_text(string_points(*string)),
{
    string.to_str()
}

/// `PyString::to_string_lossy`: the text, with each surrogate replaced.
#[verifier::external_body]
pub(crate) fn string_to_lossy(string: &PyString) -> (text: String)
    ensures
        text@ == lossy_text(string_points(*string)),
{
    string.to_string_lossy().into_owned()
}

// ---------------------------------------------------------------------------------------------
// Values read from objects

/// The value of an object of the class `int` itself. No other object has one.
pub uninterp spec fn int_value(object: PyAny) -> Option<int>;

/// The value of an object of the class `bool`. No other object has one.
pub uninterp spec fn bool_value(object: PyAny) -> Option<bool>;

/// The object has been read as an integer of 64 bits, or reading it has raised the exception.
pub uninterp spec fn int_answered(object: PyAny, answer: Result<i64, PyErr>) -> bool;

/// The object has been read as a `usize`, or reading it has raised the exception.
pub uninterp spec fn usize_answered(object: PyAny, answer: Result<usize, PyErr>) -> bool;

/// The object has been read as a `bool`, or reading it has raised the exception.
pub uninterp spec fn bool_answered(object: PyAny, answer: Result<bool, PyErr>) -> bool;

/// The dictionary has been asked for the value under the key.
pub uninterp spec fn item_answered(dict: PyDict, key: Seq<char>, answer: Option<&PyAny>) -> bool;

/// Whether reading the object as an integer of 64 bits may be answered so. An object of the class
/// `int` itself is read as its value, where that fits.
pub open spec fn int_read(object: PyAny, answer: Result<i64, PyErr>) -> bool {
    &&& int_answered(object, answer)
    &&& int_value(object) matches Some(value) ==> if i64::MIN <= value <= i64::MAX {
        answer == Ok::<i64, PyErr>(value as i64)
    } else {
        answer is Err
    }
}

/// Whether reading the object as a `usize` may be answered so. An object of the class `int` itself
/// is read as its value, where that fits.
pub open spec fn size_read(object: PyAny, answer: Result<usize, PyErr>) -> bool {
    &&& usize_answered(object, answer)
    &&& int_value(object) matches Some(value) ==> if 0 <= value <= usize::MAX {
        answer == Ok::<usize, PyErr>(value as usize)
    } else {
        answer is Err
    }
}

/// Whether reading the object as a `bool` may be answered so. An object of the class `bool` is read
/// as its value, and no other object is read.
pub open spec fn truth_read(object: PyAny, answer: Result<bool, PyErr>) -> bool {
    &&& bool_answered(object, answer)
    &&& match bool_value(object) {
        Some(value) => answer == Ok::<bool, PyErr>(value),
        None => answer is Err,
    }
}

/// `PyAny::extract` to `i64`: the value of an `int`, where it fits. For any other object the call
/// can run Python code, so nothing more is said of which answer comes.
#[verifier::external_body]
pub(crate) fn extract_int(object: &PyAny) -> (answer: Result<i64, PyErr>)
    ensures
        int_answered(*object, answer),
        int_read(*object, answer),
{
    object.extract::<i64>()
}

/// `PyAny::extract` to `usize`: the value of an `int`, where it fits. For any other object the call
/// can run Python code, so nothing more is said of which answer comes.
#[verifier::external_body]
pub(crate) fn extract_usize(object: &PyAny) -> (answer: Result<usize, PyErr>)
    ensures
        usize_answered(*object, answer),
        size_read(*object, answer),
{
    object.extract::<usize>()
}

/// `PyAny::extract` to `bool`: the value of a `bool`, and a `TypeError` for any other object.
#[verifier::external_body]
pub(crate) fn extract_bool(object: &PyAny) -> (answer: Result<bool, PyErr>)
    ensures
        bool_answered(*object, answer),
        truth_read(*object, answer),
{
    object.extract::<bool>()
}

/// `PyDict::get_item`. A dictionary can change at any time, so nothing is said of which answer
/// comes.
#[verifier::external_body]
pub(crate) fn dict_get_item<'py>(dict: &'py PyDict, key: &str) -> (answer: Option<&'py PyAny>)
    ensures
        item_answered(*dict, key@, answer),
{
    dict.get_item(key)
}

/// `PyNativeType::py`: the proof that the interpreter lock is held, which every borrowed object
/// carries.
#[verifier::external_body]
pub(crate) fn object_py<'py>(object: &'py PyAny) -> (py: Python<'py>) {
    object.py()
}

// ---------------------------------------------------------------------------------------------
// Exceptions

/// A `repr` of the object has given the string, or has raised the exception.
pub uninterp spec fn repr_answered(object: PyAny, answer: Result<&PyString, PyErr>) -> bool;

/// A `str` of the object has given the string, or has raised the exception.
pub uninterp spec fn str_answered(object: PyAny, answer: Result<&PyString, PyErr>) -> bool;

/// The name of the object's type has been read as the text, or reading it has raised the
/// exception.
pub uninterp spec fn class_name_answered(object: PyAny, answer: Result<Seq<char>, PyErr>) -> bool;

/// The exception object that an error carries.
pub uninterp spec fn error_value(error: PyErr) -> PyAny;

/// A `RuntimeError` with the given message.
pub uninterp spec fn is_runtime_error(error: PyErr, message: Seq<char>) -> bool;

/// `PyAny::repr`. The call runs Python code, so nothing is said of which answer comes.
#[verifier::external_body]
pub(crate) fn object_repr<'py>(object: &'py PyAny) -> (answer: Result<&'py PyString, PyErr>)
    ensures
        repr_answered(*object, answer),
{
    object.repr()
}

/// `PyAny::str`. The call runs Python code, so nothing is said of which answer comes.
#[verifier::external_body]
pub(crate) fn object_str<'py>(object: &'py PyAny) -> (answer: Result<&'py PyString, PyErr>)
    ensures
        str_answered(*object, answer),
{
    object.str()
}

/// `PyType::name` of `PyAny::get_type`. Both can change while the object lives, so nothing is
/// said of which answer comes.
#[verifier::external_body]
pub(crate) fn object_class_name<'py>(object: &'py PyAny) -> (answer: Result<&'py str, PyErr>)
    ensures
        class_name_answered(
            *object,
            match answer {
                Ok(name) => Ok(name@),
                Err(error) => Err(error),
            },
        ),
{
    object.get_type().name()
}

/// `PyErr::value`: the exception object, which is the same for each call on one error.
#[verifier::external_body]
pub(crate) fn error_object<'py>(error: &'py PyErr, py: Python<'py>) -> (object: &'py PyAny)
    ensures
        *object == error_value(*error),
{
    error.value(py)
}

/// `PyRuntimeError::new_err`: a new `RuntimeError` with the message.
#[verifier::external_body]
pub(crate) fn runtime_error(message: &'static str) -> (error: PyErr)
    ensures
        is_runtime_error(error, message@),
{
    PyRuntimeError::new_err(message)
}

// ---------------------------------------------------------------------------------------------
// Dictionaries that are read

/// The dictionary that the object is, if it is one.
pub uninterp spec fn as_dict(object: PyAny) -> Option<PyDict>;

/// The items of the dictionary have been asked for and have come as the view, or the exception has
/// been raised.
pub uninterp spec fn dict_items_answered(dict: PyDict, answer: Result<&PyAny, PyErr>) -> bool;

/// `PyAny::downcast` to `PyDict`: succeeds exactly on the instances of `dict` and its subclasses,
/// and hands back the same object.
#[verifier::external_body]
pub(crate) fn downcast_dict<'py>(object: &'py PyAny) -> (dict: Option<&'py PyDict>)
    ensures
        dict is Some <==> as_dict(*object) is Some,
        dict matches Some(d) ==> as_dict(*object) == Some(*d),
{
    object.downcast::<PyDict>().ok()
}

/// `PyAny::call_method1` on the type `dict` itself, for its method `items` with the dictionary as
/// the argument: the live view of the entries that the dictionary holds, also where a subclass
/// defines other items. `PyDict::iter` walks the same entries, but panics where the dictionary has
/// changed its size or its keys meanwhile; an iterator over the view raises an exception there.
/// Nothing is said of which answer comes.
#[verifier::external_body]
pub(crate) fn dict_items<'py>(dict: &'py PyDict) -> (answer: Result<&'py PyAny, PyErr>)
    ensures
        dict_items_answered(*dict, answer),
{
    dict.py().get_type::<PyDict>().call_method1("items", (dict,))
}

// ---------------------------------------------------------------------------------------------
// Mappings

/// A mapping as an object.
pub uninterp spec fn mapping_object(mapping: PyMapping) -> PyAny;

/// A check whether the object is a mapping has been answered so.
pub uninterp spec fn mapping_check_answered(object: PyAny, answer: Option<&PyMapping>) -> bool;

/// The items of the mapping have been asked for and have come as the sequence, or the exception
/// has been raised.
pub uninterp spec fn items_answered(
    mapping: PyMapping,
    answer: Result<&PySequence, PyErr>,
) -> bool;

/// A sequence as an object.
pub uninterp spec fn sequence_object(sequence: PySequence) -> PyAny;

/// `PyAny::downcast` to `PyMapping`: an instance check against `collections.abc.Mapping`, which
/// can run Python code, so nothing is said of which answer comes. On success it hands back the
/// same object.
#[verifier::external_body]
pub(crate) fn downcast_mapping<'py>(object: &'py PyAny) -> (answer: Option<&'py PyMapping>)
    ensures
        mapping_check_answered(*object, answer),
        answer matches Some(mapping) ==> mapping_object(*mapping) == *object,
{
    object.downcast::<PyMapping>().ok()
}

/// The coercion of a `PyMapping` to the `PyAny` that it is.
#[verifier::external_body]
pub(crate) fn mapping_as_any<'py>(mapping: &'py PyMapping) -> (object: &'py PyAny)
    ensures
        *object == mapping_object(*mapping),
{
    mapping
}

/// `PyMapping::items`. The call runs Python code, so nothing is said of which answer comes.
#[verifier::external_body]
pub(crate) fn mapping_items<'py>(mapping: &'py PyMapping) -> (answer: Result<
    &'py PySequence,
    PyErr,
>)
    ensures
        items_answered(*mapping, answer),
{
    mapping.items()
}

/// The coercion of a `PySequence` to the `PyAny` that it is.
#[verifier::external_body]
pub(crate) fn sequence_as_any<'py>(sequence: &'py PySequence) -> (object: &'py PyAny)
    ensures
        *object == sequence_object(*sequence),
{
    sequence
}

// ---------------------------------------------------------------------------------------------
// Iterators

/// An iterator over the object has been asked for and has come, or the exception has been raised.
pub uninterp spec fn iter_answered(object: PyAny, answer: Result<PyIterator, PyErr>) -> bool;

/// The iterator has been asked for an item by an owner that had asked it `asked` times before, and
/// has given the object, has raised the exception, or has reported its end.
pub uninterp spec fn ask_answered(
    iterator: PyIterator,
    asked: nat,
    answer: Option<Result<&PyAny, PyErr>>,
) -> bool;

/// The owner of a Python iterator for as long as the interpreter lock is held.
///
/// A `PyIterator` moves on behind a shared reference, so that nothing of its progress can be named
/// for a value of that type. This owner is made with the iterator, and the library asks the
/// iterator through it alone.
#[verifier::external_body]
pub struct PyWalk<'py> {
    iter: &'py PyIterator,
}

/// The iterator that the owner asks.
pub uninterp spec fn walk_iterator(walk: PyWalk<'_>) -> PyIterator;

/// How often the iterator has been asked through the owner.
pub uninterp spec fn walk_asked(walk: PyWalk<'_>) -> nat;

/// `PyAny::iter`: an iterator over the object, with an owner that has not asked it yet. The call
/// runs Python code, so nothing is said of which iterator comes.
#[verifier::external_body]
pub(crate) fn object_walk<'py>(object: &'py PyAny) -> (walk: Result<PyWalk<'py>, PyErr>)
    ensures
        iter_answered(
            *object,
            match walk {
                Ok(walk) => Ok(walk_iterator(walk)),
                Err(error) => Err(error),
            },
        ),
        walk matches Ok(walk) ==> walk_asked(walk) == 0,
{
    object.iter().map(|iter| PyWalk { iter })
}

/// `PyIterator::next`: asks the iterator once. The call runs Python code, so nothing is said of
/// which answer comes.
#[verifier::external_body]
pub(crate) fn walk_next<'py>(walk: &mut PyWalk<'py>) -> (answer: Option<Result<&'py PyAny, PyErr>>)
    ensures
        ask_answered(walk_iterator(*old(walk)), walk_asked(*old(walk)), answer),
        walk_iterator(*final(walk)) == walk_iterator(*old(walk)),
        walk_asked(*final(walk)) == walk_asked(*old(walk)) + 1,
{
    walk.iter.next()
}

/// An owner of a Python iterator that outlives the interpreter lock. A copy of it asks the same
/// iterator and counts for itself from then on.
#[verifier::external_body]
#[derive(Debug)]
pub struct KeptWalk {
    iter: Py<PyIterator>,
}

/// The iterator that the owner asks.
pub uninterp spec fn kept_iterator(walk: KeptWalk) -> PyIterator;

/// How often the iterator has been asked through the owner, and before that through what the owner
/// was made from.
pub uninterp spec fn kept_asked(walk: KeptWalk) -> nat;

/// `IntoPy::into_py` for `PyIterator`: a handle to the iterator.
#[verifier::external_body]
pub(crate) fn walk_keep(walk: PyWalk<'_>, py: Python<'_>) -> (kept: KeptWalk)
    ensures
        kept_iterator(kept) == walk_iterator(walk),
        kept_asked(kept) == walk_asked(walk),
{
    KeptWalk { iter: walk.iter.into_py(py) }
}

/// `Py::clone`: one more handle to the same iterator.
#[verifier::external_body]
pub(crate) fn kept_copy(walk: &KeptWalk) -> (copy: KeptWalk)
    ensures
        copy == *walk,
{
    KeptWalk { iter: walk.iter.clone() }
}

/// `PyIterator::next` on `Py::as_ref`: asks the iterator once. The call runs Python code, so
/// nothing is said of which answer comes.
#[verifier::external_body]
pub(crate) fn kept_next<'a>(walk: &'a mut KeptWalk, py: Python<'a>) -> (answer: Option<
    Result<&'a PyAny, PyErr>,
>)
    ensures
        ask_answered(kept_iterator(*old(walk)), kept_asked(*old(walk)), answer),
        kept_iterator(*final(walk)) == kept_iterator(*old(walk)),
        kept_asked(*final(walk)) == kept_asked(*old(walk)) + 1,
{
    let mut iterator = walk.iter.as_ref(py);
    iterator.next()
}

// ---------------------------------------------------------------------------------------------
// Attributes

/// The names of the object's attributes have been asked for and have come as the list, or the
/// exception has been raised.
pub uninterp spec fn dir_answered(object: PyAny, answer: Result<&PyList, PyErr>) -> bool;

/// The list has been found to hold the items.
pub uninterp spec fn list_answered(list: PyList, items: Seq<&PyAny>) -> bool;

/// The attribute of that name has been read from the object by an owner that had put `asked`
/// questions before, or the exception has been raised.
pub uninterp spec fn getattr_answered(
    object: PyAny,
    asked: nat,
    name: Seq<char>,
    answer: Result<&PyAny, PyErr>,
) -> bool;

/// The object has been asked whether it has an attribute of that name, by an owner that had put
/// `asked` questions before.
pub uninterp spec fn hasattr_answered(
    object: PyAny,
    asked: nat,
    name: Seq<char>,
    answer: Result<bool, PyErr>,
) -> bool;

/// Whether the object is a function that was written in Python.
pub uninterp spec fn is_function(object: PyAny) -> bool;

/// `PyAny::call_method1` on the module `builtins`, for its function `dir`. `PyAny::dir` does what
/// that function does, but panics where an exception is raised, which no value of the object shows
/// beforehand. A program that puts another function in the place of `dir` in that module is asked
/// through its own. The call runs Python code, so nothing is said of which answer comes.
#[verifier::external_body]
pub(crate) fn object_dir<'py>(object: &'py PyAny) -> (answer: Result<&'py PyList, PyErr>)
    ensures
        dir_answered(*object, answer),
{
    let names = object.py().import("builtins")?.call_method1("dir", (object,))?;
    names.downcast::<PyList>().map_err(PyErr::from)
}

/// `PyList::iter`: the items of the list, all read at once. A list can change at any time, so
/// nothing is said of which items come.
#[verifier::external_body]
pub(crate) fn list_items<'py>(list: &'py PyList) -> (items: Vec<&'py PyAny>)
    ensures
        list_answered(*list, items@),
{
    list.iter().collect()
}

/// The owner of an object whose attributes are read. It counts the questions that are put to the
/// object and to its attributes, each of which can run Python code.
#[verifier::external_body]
pub struct ObjectProbe<'py> {
    object: &'py PyAny,
}

/// The object whose attributes are read.
pub uninterp spec fn probe_object(probe: ObjectProbe<'_>) -> PyAny;

/// How many questions have been put through the owner.
pub uninterp spec fn probe_asked(probe: ObjectProbe<'_>) -> nat;

/// Holds the reference to a `PyAny` for reading its attributes. Nothing is asked yet.
#[verifier::external_body]
pub(crate) fn object_probe<'py>(object: &'py PyAny) -> (probe: ObjectProbe<'py>)
    ensures
        probe_object(probe) == *object,
        probe_asked(probe) == 0,
{
    ObjectProbe { object }
}

/// `PyAny::getattr`: asks the object once. The call runs Python code, so nothing is said of which
/// answer comes.
#[verifier::external_body]
pub(crate) fn probe_getattr<'py>(probe: &mut ObjectProbe<'py>, name: &str) -> (answer: Result<
    &'py PyAny,
    PyErr,
>)
    ensures
        getattr_answered(probe_object(*old(probe)), probe_asked(*old(probe)), name@, answer),
        probe_object(*final(probe)) == probe_object(*old(probe)),
        probe_asked(*final(probe)) == probe_asked(*old(probe)) + 1,
{
    probe.object.getattr(name)
}

/// `PyAny::hasattr`: asks an attribute of the object once. The call runs Python code, so nothing is
/// said of which answer comes.
#[verifier::external_body]
pub(crate) fn probe_hasattr(probe: &mut ObjectProbe<'_>, attr: &PyAny, name: &str) -> (answer:
    Result<bool, PyErr>)
    ensures
        hasattr_answered(*attr, probe_asked(*old(probe)), name@, answer),
        probe_object(*final(probe)) == probe_object(*old(probe)),
        probe_asked(*final(probe)) == probe_asked(*old(probe)) + 1,
{
    attr.hasattr(name)
}

/// `PyTypeInfo::is_type_of` for `PyFunction`: whether the object's type is `function`, which no
/// object changes while it lives.
#[verifier::external_body]
pub(crate) fn object_is_function(object: &PyAny) -> (answer: bool)
    ensures
        answer == is_function(*object),
{
    PyFunction::is_type_of(object)
}

// ---------------------------------------------------------------------------------------------
// Handles

/// The object that a handle keeps alive.
pub uninterp spec fn handle_object(handle: Py<PyAny>) -> PyAny;

/// `ToPyObject::to_object` for `PyAny`: a handle to the object.
#[verifier::external_body]
pub(crate) fn object_handle(object: &PyAny, py: Python<'_>) -> (handle: Py<PyAny>)
    ensures
        handle_object(handle) == *object,
{
    object.to_object(py)
}

/// `Py::as_ref` for `PyAny`: the object that the handle keeps alive.
#[verifier::external_body]
pub(crate) fn handle_ref<'py>(handle: &'py Py<PyAny>, py: Python<'py>) -> (object: &'py PyAny)
    ensures
        *object == handle_object(*handle),
{
    handle.as_ref(py)
}

/// `Py::into_ref` for `PyAny`: the object that the handle kept alive.
#[verifier::external_body]
pub(crate) fn handle_into_ref<'py>(handle: Py<PyAny>, py: Python<'py>) -> (object: &'py PyAny)
    ensures
        *object == handle_object(handle),
{
    handle.into_ref(py)
}

// ---------------------------------------------------------------------------------------------
// Objects that are made

/// Whether the object is `None`.
pub uninterp spec fn is_none(object: PyAny) -> bool;

/// The object was made as a list of those items.
pub uninterp spec fn list_made(object: PyAny, items: Seq<PyAny>) -> bool;

/// The object was made as a dictionary, in which those entries were stored one after the other and
/// which had that many keys when it was handed out.
pub uninterp spec fn dict_made(object: PyAny, entries: Seq<StoredEntry>, keys: nat) -> bool;

/// Whether the object is a string of the class `str` itself.
pub uninterp spec fn is_plain_string(object: PyAny) -> bool;

/// The code points of a text.
pub open spec fn text_points(text: Seq<char>) -> Seq<u32> {
    Seq::new(text.len(), |i: int| text[i] as u32)
}

/// `PyAny::is_none`: whether the object is `None`.
#[verifier::external_body]
pub(crate) fn object_is_none(object: &PyAny) -> (answer: bool)
    ensures
        answer == is_none(*object),
{
    object.is_none()
}

/// `Python::None`: a handle to `None`.
#[verifier::external_body]
pub(crate) fn make_none(py: Python<'_>) -> (handle: Py<PyAny>)
    ensures
        is_none(handle_object(handle)),
{
    py.None()
}

/// `ToPyObject::to_object` for `bool`: the object of the class `bool` with the value.
#[verifier::external_body]
pub(crate) fn make_bool(value: bool, py: Python<'_>) -> (handle: Py<PyAny>)
    ensures
        bool_value(handle_object(handle)) == Some(value),
{
    value.to_object(py)
}

/// `ToPyObject::to_object` for `i64`: an object of the class `int` with the value.
#[verifier::external_body]
pub(crate) fn make_int(value: i64, py: Python<'_>) -> (handle: Py<PyAny>)
    ensures
        int_value(handle_object(handle)) == Some(value as int),
{
    value.to_object(py)
}

/// `PyString::new`: a new string of the class `str` with the text.
#[verifier::external_body]
pub(crate) fn make_string<'py>(py: Python<'py>, text: &str) -> (string: &'py PyString)
    ensures
        string_points(*string) == text_points(text@),
        is_plain_string(string_object(*string)),
{
    PyString::new(py, text)
}

/// `PyList::new`: a new list of the objects that the handles keep alive.
#[verifier::external_body]
pub(crate) fn make_list(py: Python<'_>, items: Vec<Py<PyAny>>) -> (handle: Py<PyAny>)
    ensures
        list_made(
            handle_object(handle),
            Seq::new(items@.len(), |i: int| handle_object(items@[i])),
        ),
{
    PyList::new(py, items).to_object(py)
}

/// The bytes of a bytes object, which never change.
pub uninterp spec fn bytes_content(bytes: PyBytes) -> Seq<u8>;

/// A bytes object as an object.
pub uninterp spec fn bytes_object(bytes: PyBytes) -> PyAny;

/// Whether the object is a bytes object of the class `bytes` itself.
pub uninterp spec fn is_plain_bytes(object: PyAny) -> bool;

/// The object has been asked for its length and has given the number, or the exception has been
/// raised.
pub uninterp spec fn len_answered(object: PyAny, answer: Result<usize, PyErr>) -> bool;

/// `PyBytes::new`: a new bytes object of the class `bytes` with the content.
#[verifier::external_body]
pub(crate) fn make_bytes<'py>(py: Python<'py>, content: &[u8]) -> (bytes: &'py PyBytes)
    ensures
        bytes_content(*bytes) == content@,
        is_plain_bytes(bytes_object(*bytes)),
{
    PyBytes::new(py, content)
}

/// The coercion of a `PyBytes` to the `PyAny` that it is.
#[verifier::external_body]
pub(crate) fn bytes_as_any<'py>(bytes: &'py PyBytes) -> (object: &'py PyAny)
    ensures
        *object == bytes_object(*bytes),
{
    bytes
}

/// `PyAny::len` of a bytes object. A subclass can define its own length, so nothing more is said of
/// which answer comes there. An object of the class `bytes` itself gives the number of its bytes.
#[verifier::external_body]
pub(crate) fn bytes_len(bytes: &PyBytes) -> (answer: Result<usize, PyErr>)
    ensures
        len_answered(bytes_object(*bytes), answer),
        is_plain_bytes(bytes_object(*bytes)) ==> answer is Ok,
        is_plain_bytes(bytes_object(*bytes)) ==> answer->Ok_0 == bytes_content(*bytes).len(),
{
    bytes.len()
}

/// A key and a value that were stored in a dictionary.
pub struct StoredEntry {
    pub key: PyAny,
    pub value: PyAny,
}

/// A dictionary that is being filled and that nobody else holds.
///
/// A `PyDict` changes behind a shared reference, so that no contents can be named for a value of
/// that type. This owner of one changes only through the functions below: the contracts leave out
/// Python code that digs the dictionary out of the garbage collector's list of objects.
#[verifier::external_body]
pub struct OutputDict<'py> {
    dict: &'py PyDict,
}

/// The entries that were stored in the dictionary, the oldest first.
pub uninterp spec fn stored_entries(output: OutputDict<'_>) -> Seq<StoredEntry>;

/// The number of keys in the dictionary. Keys that are equal in Python are one.
pub uninterp spec fn key_count(output: OutputDict<'_>) -> nat;

/// The dictionary that is being filled, as an object.
pub uninterp spec fn output_object(output: OutputDict<'_>) -> PyAny;

/// Storing the entry in a dictionary in which those entries had been stored has been answered so.
pub uninterp spec fn store_answered(
    entries: Seq<StoredEntry>,
    entry: StoredEntry,
    answer: Result<(), PyErr>,
) -> bool;

/// Whether every key is a string of the class `str` itself.
pub open spec fn plain_keys(entries: Seq<StoredEntry>) -> bool {
    forall|i: int| 0 <= i < entries.len() ==> is_plain_string((#[trigger] entries[i]).key)
}

/// Whether storing the entry in a dictionary in which those entries had been stored may be answered
/// so. Where all the keys are strings of the class `str` itself, it does not fail.
pub open spec fn store_settled(
    entries: Seq<StoredEntry>,
    entry: StoredEntry,
    answer: Result<(), PyErr>,
) -> bool {
    &&& store_answered(entries, entry, answer)
    &&& plain_keys(entries.push(entry)) ==> answer is Ok
}

/// The code points of a key that is a string.
pub open spec fn key_points(key: PyAny) -> Seq<u32> {
    string_points(as_string(key)->0)
}

/// Whether a string with the code points of the key is among the keys of the entries.
pub open spec fn has_key(entries: Seq<StoredEntry>, key: PyAny) -> bool {
    exists|i: int|
        0 <= i < entries.len() && key_points((#[trigger] entries[i]).key) == key_points(key)
}

/// How many keys entries have whose keys are strings, where strings with the same code points are
/// one key.
pub open spec fn distinct_keys(entries: Seq<StoredEntry>) -> nat
    decreases entries.len(),
{
    if entries.len() == 0 {
        0
    } else {
        let earlier = entries.drop_last();
        distinct_keys(earlier) + if has_key(earlier, entries.last().key) {
            0nat
        } else {
            1nat
        }
    }
}

/// `PyDict::new`: an empty dictionary. It is a new object, and so another one than an object that
/// is being read meanwhile.
#[verifier::external_body]
pub(crate) fn output_new<'py>(py: Python<'py>, _read: Option<&'py PyAny>) -> (output: OutputDict<
    'py,
>)
    ensures
        stored_entries(output) == Seq::<StoredEntry>::empty(),
        key_count(output) == 0,
        _read matches Some(object) ==> output_object(output) != *object,
{
    OutputDict { dict: PyDict::new(py) }
}

/// `PyDict::set_item`: stores the value under the key, which either is new or replaces an equal
/// one. Hashing and comparing keys run Python code and can fail, which leaves the dictionary as it
/// was; for keys of the class `str` itself they do not, and two of them are equal when their code
/// points are.
#[verifier::external_body]
pub(crate) fn output_set_item(
    output: &mut OutputDict<'_>,
    key: Py<PyAny>,
    value: Py<PyAny>,
) -> (answer: Result<(), PyErr>)
    ensures
        ({
            let entry = StoredEntry { key: handle_object(key), value: handle_object(value) };
            let before = stored_entries(*old(output));
            &&& store_answered(before, entry, answer)
            &&& answer is Ok ==> {
                &&& stored_entries(*final(output)) == before.push(entry)
                &&& key_count(*old(output)) <= key_count(*final(output)) <= key_count(*old(output))
                    + 1
                &&& key_count(*final(output)) >= 1
            }
            &&& answer is Err ==> {
                &&& stored_entries(*final(output)) == before
                &&& key_count(*final(output)) == key_count(*old(output))
            }
            &&& output_object(*final(output)) == output_object(*old(output))
            &&& plain_keys(before.push(entry)) ==> {
                &&& answer is Ok
                &&& key_count(*final(output)) == key_count(*old(output)) + if has_key(
                    before,
                    entry.key,
                ) {
                    0nat
                } else {
                    1nat
                }
            }
        }),
{
    output.dict.set_item(key, value)
}

/// `PyDict::len`: the number of keys.
#[verifier::external_body]
pub(crate) fn output_len(output: &OutputDict<'_>) -> (len: usize)
    ensures
        len == key_count(*output),
{
    output.dict.len()
}

/// The conversion of a `PyDict` to a handle.
#[verifier::external_body]
pub(crate) fn output_finish(output: OutputDict<'_>) -> (handle: Py<PyAny>)
    ensures
        handle_object(handle) == output_object(output),
        dict_made(handle_object(handle), stored_entries(output), key_count(output)),
{
    output.dict.into()
}

proof fn lemma_char_point(c: char)
    ensures
        !is_surrogate(c as u32),
        (c as u32) as char == c,
{
    assert(c as int <= 0x10FFFF);
    assert(!(0xD800 <= c as int <= 0xDFFF));
}

/// The text of a string that was made from a text is that text.
pub proof fn law_text_round_trip(text: Seq<char>)
    ensures
        is_text(text_points(text)),
        lossy_text(text_points(text)) == text,
    decreases text.len(),
{
    assert forall|i: int| 0 <= i < text.len() implies !is_surrogate(
        #[trigger] text_points(text)[i],
    ) by {
        lemma_char_point(text[i]);
    }
    if text.len() > 0 {
        law_text_round_trip(text.drop_last());
        assert(text_points(text).drop_last() =~= text_points(text.drop_last()));
        lemma_char_point(text.last());
        assert(lossy_point(text.last() as u32) =~= seq![text.last()]);
        assert(text =~= text.drop_last() + seq![text.last()]);
    } else {
        assert(lossy_text(text_points(text)) =~= text);
    }
}

} // verus!
