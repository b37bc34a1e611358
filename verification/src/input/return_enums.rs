//! What the methods of an input hand back.
use crate::errors::{
    error_described, py_err_string, single_error, ErrorType, ErrorTypeView, ErrorView, ValError,
    ValResult,
};
use crate::input::parse_json::{
    array_view, json_object, lemma_array_view, object_view, text_object, text_to_object, JsonArray,
    JsonInput, JsonObject, JsonView, MemberView,
};
use crate::input::{Input, InputValue, InputView, KeyInput};
use crate::python::{
    as_string, as_tuple, ask_answered, bytes_as_any, bytes_content, bytes_len, bytes_object,
    dict_items, dict_items_answered, dir_answered, downcast_string, downcast_tuple,
    getattr_answered, handle_into_ref, handle_object, handle_ref, hasattr_answered, is_function,
    is_plain_bytes, is_plain_string, is_runtime_error, is_surrogate, is_text, items_answered,
    iter_answered, kept_asked, kept_copy, kept_iterator, kept_next, law_text_round_trip,
    len_answered, list_answered, list_items, lossy_text, make_bytes, make_string, mapping_as_any,
    mapping_items, mapping_object, object_dir, object_handle, object_is_function, object_probe,
    object_py, object_walk, probe_asked, probe_getattr, probe_hasattr, probe_object, runtime_error,
    sequence_as_any, sequence_object, string_as_any, string_object, string_points, string_refused,
    string_to_lossy, string_to_str, text_points, tuple_item, tuple_items, tuple_len, walk_asked,
    walk_iterator, walk_keep, walk_next, KeptWalk, ObjectProbe, PyWalk,
};
use pyo3::types::{
    PyAny, PyBytes, PyDict, PyIterator, PyList, PyMapping, PySequence, PyString, PyTuple,
};
use pyo3::{Py, PyErr, Python};
use std::borrow::Cow;
use vstd::prelude::*;

verus! {

/// Something with keys and values.
#[derive(Debug)]
pub enum GenericMapping<'a> {
    PyDict(&'a PyDict),
    PyMapping(&'a PyMapping),
    /// An object whose attributes are the entries, and the entries that were set beside them.
    PyGetAttr(&'a PyAny, Option<&'a PyDict>),
    JsonObject(&'a JsonObject),
}

/// The model of a [`GenericMapping`].
pub enum MappingView {
    PyDict(PyDict),
    PyMapping(PyMapping),
    PyGetAttr(PyAny, Option<PyDict>),
    JsonObject(Seq<MemberView>),
}

impl<'a> View for GenericMapping<'a> {
    type V = MappingView;

    open spec fn view(&self) -> MappingView {
        match self {
            GenericMapping::PyDict(dict) => MappingView::PyDict(**dict),
            GenericMapping::PyMapping(mapping) => MappingView::PyMapping(**mapping),
            GenericMapping::PyGetAttr(object, beside) => MappingView::PyGetAttr(
                **object,
                match beside {
                    Some(dict) => Some(**dict),
                    None => None,
                },
            ),
            GenericMapping::JsonObject(members) => MappingView::JsonObject(object_view(members@)),
        }
    }
}

impl<'a> From<&'a PyDict> for GenericMapping<'a> {
    fn from(s: &'a PyDict) -> (mapping: GenericMapping<'a>)
        ensures
            mapping == GenericMapping::PyDict(s),
    {
        GenericMapping::PyDict(s)
    }
}

impl<'a> vstd::std_specs::convert::FromSpecImpl<&'a PyDict> for GenericMapping<'a> {
    open spec fn obeys_from_spec() -> bool {
        true
    }

    open spec fn from_spec(s: &'a PyDict) -> GenericMapping<'a> {
        GenericMapping::PyDict(s)
    }
}

impl<'a> From<&'a PyMapping> for GenericMapping<'a> {
    fn from(s: &'a PyMapping) -> (mapping: GenericMapping<'a>)
        ensures
            mapping == GenericMapping::PyMapping(s),
    {
        GenericMapping::PyMapping(s)
    }
}

impl<'a> vstd::std_specs::convert::FromSpecImpl<&'a PyMapping> for GenericMapping<'a> {
    open spec fn obeys_from_spec() -> bool {
        true
    }

    open spec fn from_spec(s: &'a PyMapping) -> GenericMapping<'a> {
        GenericMapping::PyMapping(s)
    }
}

impl<'a> From<&'a PyAny> for GenericMapping<'a> {
    fn from(s: &'a PyAny) -> (mapping: GenericMapping<'a>)
        ensures
            mapping == GenericMapping::PyGetAttr(s, None),
    {
        GenericMapping::PyGetAttr(s, None)
    }
}

impl<'a> vstd::std_specs::convert::FromSpecImpl<&'a PyAny> for GenericMapping<'a> {
    open spec fn obeys_from_spec() -> bool {
        true
    }

    open spec fn from_spec(s: &'a PyAny) -> GenericMapping<'a> {
        GenericMapping::PyGetAttr(s, None)
    }
}

impl<'a> From<&'a JsonObject> for GenericMapping<'a> {
    fn from(s: &'a JsonObject) -> (mapping: GenericMapping<'a>)
        ensures
            mapping == GenericMapping::JsonObject(s),
    {
        GenericMapping::JsonObject(s)
    }
}

impl<'a> vstd::std_specs::convert::FromSpecImpl<&'a JsonObject> for GenericMapping<'a> {
    open spec fn obeys_from_spec() -> bool {
        true
    }

    open spec fn from_spec(s: &'a JsonObject) -> GenericMapping<'a> {
        GenericMapping::JsonObject(s)
    }
}

/// Where the entries of a mapping come from.
pub enum EntrySource {
    /// An iterator over the items of a dictionary.
    Dict { iterator: PyIterator },
    /// An iterator over the items of a mapping.
    Mapping { object: PyAny, iterator: PyIterator },
    /// The members of a JSON object.
    Json(Seq<MemberView>),
}

/// The model of an entry of a mapping.
pub struct EntryView {
    pub key: InputView,
    pub value: InputView,
}

/// The message where an item of a dictionary is not a pair.
pub const DICT_ITEM_ERROR: &'static str = "Dictionary items must be pairs";

/// The message where more entries come than a machine word can count.
pub const ENTRY_LIMIT_ERROR: &'static str = "Too many entries";

/// The message where an item of a mapping is not a pair.
pub const MAPPING_TUPLE_ERROR: &'static str = "Mapping items must be tuples of (key, value) pairs";

/// The entry that an item is: a tuple of two is the key and the value, and nothing else is an
/// entry.
pub open spec fn pair_parts(item: PyAny) -> Option<EntryView> {
    match as_tuple(item) {
        Some(tuple) if tuple_items(tuple).len() == 2 => Some(
            EntryView {
                key: InputView::PyAny(tuple_items(tuple)[0]),
                value: InputView::PyAny(tuple_items(tuple)[1]),
            },
        ),
        _ => None,
    }
}

/// Whether the answer is that the interpreter has raised a `RuntimeError` with the message.
pub open spec fn is_runtime_answer(
    answer: Option<Result<EntryView, ErrorView>>,
    message: Seq<char>,
) -> bool {
    &&& answer matches Some(Err(ErrorView::InternalErr(exception)))
    &&& is_runtime_error(exception, message)
}

/// What the items of a dictionary amount to, once the iterator over them has given `item`.
pub open spec fn dict_item(
    item: Option<Result<&PyAny, PyErr>>,
    answer: Option<Result<EntryView, ErrorView>>,
) -> bool {
    match item {
        None => answer is None,
        Some(Err(exception)) => answer == Some(
            Err::<EntryView, ErrorView>(ErrorView::InternalErr(exception)),
        ),
        Some(Ok(item)) => match pair_parts(*item) {
            Some(entry) => answer == Some(Ok::<EntryView, ErrorView>(entry)),
            None => is_runtime_answer(answer, DICT_ITEM_ERROR@),
        },
    }
}

/// What the items of a dictionary have been found to give to the call after `position` others: what
/// the iterator gave when it was asked after so many times.
pub open spec fn dict_entry_answered(
    iterator: PyIterator,
    position: nat,
    answer: Option<Result<EntryView, ErrorView>>,
) -> bool {
    if position >= usize::MAX {
        is_runtime_answer(answer, ENTRY_LIMIT_ERROR@)
    } else {
        exists|item: Option<Result<&PyAny, PyErr>>|
            {
                &&& #[trigger] ask_answered(iterator, position, item)
                &&& dict_item(item, answer)
            }
    }
}

/// What an item of a mapping amounts to: the entry where it is a pair, and otherwise an error that
/// refers to the mapping.
pub open spec fn mapping_pair(object: PyAny, item: PyAny) -> Result<EntryView, ErrorView> {
    match pair_parts(item) {
        Some(entry) => Ok(entry),
        None => Err(
            single_error(
                ErrorTypeView::MappingType { error: MAPPING_TUPLE_ERROR@ },
                InputView::PyAny(object),
            ),
        ),
    }
}

/// Whether the error reports the exception as a fault of the mapping.
pub open spec fn mapping_error(object: InputView, exception: PyErr, error: ErrorView) -> bool {
    exists|text: Seq<char>|
        {
            &&& #[trigger] error_described(exception, text)
            &&& error == single_error(ErrorTypeView::MappingType { error: text }, object)
        }
}

/// What the items of a mapping amount to, once the iterator over them has given `item`.
pub open spec fn mapping_item(
    object: PyAny,
    item: Option<Result<&PyAny, PyErr>>,
    answer: Option<Result<EntryView, ErrorView>>,
) -> bool {
    match item {
        None => answer is None,
        Some(Err(exception)) => answer matches Some(Err(error)) && mapping_error(
            InputView::PyAny(object),
            exception,
            error,
        ),
        Some(Ok(item)) => answer == Some(mapping_pair(object, *item)),
    }
}

/// What the items of a mapping have been found to give to the call after `position` others: what
/// the iterator gave when it was asked after so many times.
pub open spec fn mapping_entry_answered(
    object: PyAny,
    iterator: PyIterator,
    position: nat,
    answer: Option<Result<EntryView, ErrorView>>,
) -> bool {
    if position >= usize::MAX {
        is_runtime_answer(answer, ENTRY_LIMIT_ERROR@)
    } else {
        exists|item: Option<Result<&PyAny, PyErr>>|
            {
                &&& #[trigger] ask_answered(iterator, position, item)
                &&& mapping_item(object, item, answer)
            }
    }
}

/// What the members of a JSON object give after `position` entries.
pub open spec fn json_entry(members: Seq<MemberView>, position: nat) -> Option<
    Result<EntryView, ErrorView>,
> {
    if position < members.len() {
        Some(
            Ok(
                EntryView {
                    key: InputView::String(members[position as int].name),
                    value: InputView::JsonInput(members[position as int].value),
                },
            ),
        )
    } else {
        None
    }
}

/// What the source has been found to give at that position: an entry, an error, or the end.
pub open spec fn entry_answered(
    source: EntrySource,
    position: nat,
    answer: Option<Result<EntryView, ErrorView>>,
) -> bool {
    match source {
        EntrySource::Dict { iterator } => dict_entry_answered(iterator, position, answer),
        EntrySource::Mapping { object, iterator } => mapping_entry_answered(
            object,
            iterator,
            position,
            answer,
        ),
        EntrySource::Json(members) => answer == json_entry(members, position),
    }
}

/// The position of the source after one more call. A call moves on by one, whatever it gave, unless
/// it was not to ask for anything: after the last member, or where no more calls can be counted.
pub open spec fn position_after_call(source: EntrySource, position: nat) -> nat {
    match source {
        EntrySource::Json(members) => next_position(members.len(), position),
        _ => next_position(usize::MAX as nat, position),
    }
}

/// Whether the source gives exactly those entries, one after the other, and then the end, or the
/// error where there is one: no other answer has been found at any of these positions.
pub open spec fn gives(
    source: EntrySource,
    entries: Seq<EntryView>,
    error: Option<ErrorView>,
) -> bool {
    &&& forall|i: nat, answer: Option<Result<EntryView, ErrorView>>|
        i < entries.len() && #[trigger] entry_answered(source, i, answer) ==> answer == Some(
            Ok::<EntryView, ErrorView>(entries[i as int]),
        )
    &&& forall|answer: Option<Result<EntryView, ErrorView>>| #[trigger]
        entry_answered(source, entries.len(), answer) ==> answer == match error {
            Some(error) => Some(Err::<EntryView, ErrorView>(error)),
            None => None,
        }
}

/// The entries that the members of a JSON object are.
pub open spec fn json_entries(members: Seq<MemberView>) -> Seq<EntryView> {
    Seq::new(
        members.len(),
        |i: int|
            EntryView {
                key: InputView::String(members[i].name),
                value: InputView::JsonInput(members[i].value),
            },
    )
}

/// A JSON object gives its members in their order and then the end.
pub proof fn law_json_gives(members: Seq<MemberView>)
    ensures
        gives(EntrySource::Json(members), json_entries(members), None),
{
}

/// Whether a Python iterator gives exactly those items, one after the other, and then the end: no
/// other answer has been found to any of these asks.
pub open spec fn iterator_gives(iterator: PyIterator, items: Seq<PyAny>) -> bool {
    &&& forall|i: nat, answer: Option<Result<&PyAny, PyErr>>|
        i < items.len() && #[trigger] ask_answered(iterator, i, answer) ==> answer == Some(
            Ok::<&PyAny, PyErr>(&items[i as int]),
        )
    &&& forall|answer: Option<Result<&PyAny, PyErr>>| #[trigger]
        ask_answered(iterator, items.len(), answer) ==> answer is None
}

/// The entries that items are, each of which is a pair.
pub open spec fn pair_entries(items: Seq<PyAny>) -> Seq<EntryView> {
    Seq::new(items.len(), |i: int| pair_parts(items[i])->0)
}

/// A dictionary whose items are pairs gives each of them once, in their order, and then the end.
pub proof fn law_dict_gives(iterator: PyIterator, items: Seq<PyAny>)
    requires
        iterator_gives(iterator, items),
        items.len() < usize::MAX,
        forall|i: int| 0 <= i < items.len() ==> pair_parts(#[trigger] items[i]) is Some,
    ensures
        gives(EntrySource::Dict { iterator }, pair_entries(items), None),
{
    assert forall|i: nat, answer: Option<Result<EntryView, ErrorView>>|
        i < items.len() && #[trigger] entry_answered(
            EntrySource::Dict { iterator },
            i,
            answer,
        ) implies answer == Some(
        Ok::<EntryView, ErrorView>(pair_entries(items)[i as int]),
    ) by {
        assert(pair_parts(items[i as int]) is Some);
    }
}

/// A mapping whose items are pairs gives each of them once, in their order, and then the end.
pub proof fn law_mapping_gives(object: PyAny, iterator: PyIterator, items: Seq<PyAny>)
    requires
        iterator_gives(iterator, items),
        items.len() < usize::MAX,
        forall|i: int| 0 <= i < items.len() ==> pair_parts(#[trigger] items[i]) is Some,
    ensures
        gives(EntrySource::Mapping { object, iterator }, pair_entries(items), None),
{
    assert forall|i: nat, answer: Option<Result<EntryView, ErrorView>>|
        i < items.len() && #[trigger] entry_answered(
            EntrySource::Mapping { object, iterator },
            i,
            answer,
        ) implies answer == Some(
        Ok::<EntryView, ErrorView>(pair_entries(items)[i as int]),
    ) by {
        assert(pair_parts(items[i as int]) is Some);
    }
}

/// The position of a source after so many calls.
pub open spec fn position_after_calls(source: EntrySource, calls: nat) -> nat
    decreases calls,
{
    if calls == 0 {
        0
    } else {
        position_after_call(source, position_after_calls(source, (calls - 1) as nat))
    }
}

/// Whether the calls of an iterator that was at its beginning have given those answers.
pub open spec fn calls_answered(
    source: EntrySource,
    answers: Seq<Option<Result<EntryView, ErrorView>>>,
) -> bool {
    forall|i: nat|
        #![trigger answers[i as int]]
        i < answers.len() ==> entry_answered(
            source,
            position_after_calls(source, i),
            answers[i as int],
        )
}

/// Before the last member, and before the calls can no longer be counted, each call moves on by
/// one.
proof fn lemma_position_after_calls(source: EntrySource, calls: nat)
    requires
        match source {
            EntrySource::Json(members) => calls <= members.len(),
            _ => calls <= usize::MAX,
        },
    ensures
        position_after_calls(source, calls) == calls,
    decreases calls,
{
    if calls > 0 {
        lemma_position_after_calls(source, (calls - 1) as nat);
    }
}

/// The calls of an iterator give the entries of its source, each once and in their order, and then
/// the end or the error.
pub proof fn law_entries_in_order(
    source: EntrySource,
    entries: Seq<EntryView>,
    error: Option<ErrorView>,
    answers: Seq<Option<Result<EntryView, ErrorView>>>,
    i: int,
)
    requires
        gives(source, entries, error),
        entries.len() <= usize::MAX,
        calls_answered(source, answers),
        0 <= i < answers.len(),
    ensures
        i < entries.len() ==> answers[i] == Some(Ok::<EntryView, ErrorView>(entries[i])),
        i == entries.len() ==> answers[i] == match error {
            Some(error) => Some(Err::<EntryView, ErrorView>(error)),
            None => None,
        },
{
    if i <= entries.len() {
        if let EntrySource::Json(members) = source {
            assert(entry_answered(source, members.len(), json_entry(members, members.len())));
        }
        lemma_position_after_calls(source, i as nat);
        assert(entry_answered(source, i as nat, answers[(i as nat) as int]));
    }
}

/// The calls of an iterator over a mapping give what its items amount to, each item to one call and
/// in their order, and then the end. An item that is no pair is an error of its own call alone.
pub proof fn law_mapping_items_in_order(
    object: PyAny,
    iterator: PyIterator,
    items: Seq<PyAny>,
    answers: Seq<Option<Result<EntryView, ErrorView>>>,
    i: int,
)
    requires
        iterator_gives(iterator, items),
        items.len() < usize::MAX,
        calls_answered(EntrySource::Mapping { object, iterator }, answers),
        0 <= i < answers.len(),
    ensures
        i < items.len() ==> answers[i] == Some(mapping_pair(object, items[i])),
        i == items.len() ==> answers[i] is None,
{
    if i <= items.len() {
        let source = EntrySource::Mapping { object, iterator };
        lemma_position_after_calls(source, i as nat);
        assert(entry_answered(source, i as nat, answers[(i as nat) as int]));
    }
}

/// The model of what an iterator over entries gives.
pub open spec fn entry_view<'a, K: Input<'a>, V: Input<'a>>(
    entry: Option<ValResult<'a, (&'a K, &'a V)>>,
) -> Option<Result<EntryView, ErrorView>> {
    match entry {
        None => None,
        Some(Err(error)) => Some(Err(error@)),
        Some(Ok((key, value))) => Some(
            Ok(EntryView { key: key.as_view(), value: value.as_view() }),
        ),
    }
}

/// An iterator over the entries of a mapping.
pub trait GenericEntries<'data>: Sized {
    type Key: KeyInput<'data>;

    type Value: Input<'data>;

    /// Whether the iterator is in order.
    spec fn wf(&self) -> bool;

    /// Where the entries come from.
    spec fn source(&self) -> EntrySource;

    /// How far the calls have come: the number of them, as far as they have asked for an entry.
    spec fn position(&self) -> nat;

    /// How many entries can still be given.
    spec fn budget(&self) -> nat;

    /// The next entry, an error, or the end.
    fn next(&mut self) -> (entry: Option<
        ValResult<'data, (&'data Self::Key, &'data Self::Value)>,
    >)
        requires
            old(self).wf(),
        ensures
            final(self).wf(),
            final(self).source() == old(self).source(),
            entry_answered(old(self).source(), old(self).position(), entry_view(entry)),
            final(self).position() == position_after_call(old(self).source(), old(self).position()),
            entry matches Some(Ok(_)) ==> {
                &&& final(self).position() == old(self).position() + 1
                &&& final(self).budget() < old(self).budget()
            },
    ;
}

/// Takes an item apart into a key and a value, where it is a tuple of two.
pub fn split_pair<'py>(item: &'py PyAny) -> (pair: Option<(&'py PyAny, &'py PyAny)>)
    ensures
        match pair {
            Some((key, value)) => pair_parts(*item) == Some(
                EntryView { key: InputView::PyAny(*key), value: InputView::PyAny(*value) },
            ),
            None => pair_parts(*item) is None,
        },
        match pair {
            Some((key, value)) => as_tuple(*item) matches Some(tuple) && tuple_items(tuple)
                == seq![*key, *value],
            None => as_tuple(*item) matches Some(tuple) ==> tuple_items(tuple).len() != 2,
        },
{
    let tuple = match downcast_tuple(item) {
        Some(tuple) => tuple,
        None => {
            return None;
        },
    };
    if tuple_len(tuple) != 2 {
        return None;
    }
    let key = tuple_item(tuple, 0);
    let value = tuple_item(tuple, 1);
    Some((key, value))
}

/// Whether a walk over the dictionary has begun so: with the iterator over its items that was asked
/// for, or with the exception that came in its place.
pub open spec fn dict_begun(dict: PyDict, begun: Result<EntrySource, ErrorView>) -> bool {
    exists|items: Result<&PyAny, PyErr>|
        {
            &&& #[trigger] dict_items_answered(dict, items)
            &&& match items {
                Err(exception) => begun == Err::<EntrySource, ErrorView>(
                    ErrorView::InternalErr(exception),
                ),
                Ok(view) => dict_view_begun(*view, begun),
            }
        }
}

/// Whether a walk over the view of the items has begun so.
pub open spec fn dict_view_begun(view: PyAny, begun: Result<EntrySource, ErrorView>) -> bool {
    exists|iter: Result<PyIterator, PyErr>|
        {
            &&& #[trigger] iter_answered(view, iter)
            &&& begun == match iter {
                Err(exception) => Err::<EntrySource, ErrorView>(ErrorView::InternalErr(exception)),
                Ok(iterator) => Ok(EntrySource::Dict { iterator }),
            }
        }
}

/// An iterator over the entries of a dictionary.
pub struct DictGenericIterator<'py> {
    iter: PyWalk<'py>,
    // The number of calls that have asked for an entry.
    taken: usize,
}

impl<'py> DictGenericIterator<'py> {
    /// The Python iterator over the items.
    pub closed spec fn iterator(&self) -> PyIterator {
        walk_iterator(self.iter)
    }

    /// Begins a walk over the dictionary.
    pub fn new(dict: &'py PyDict) -> (iterator: ValResult<'py, Self>)
        ensures
            dict_begun(
                *dict,
                match iterator {
                    Ok(iterator) => Ok(iterator.source()),
                    Err(error) => Err(error@),
                },
            ),
            iterator matches Ok(iterator) ==> iterator.wf() && iterator.position() == 0,
    {
        let items = match dict_items(dict) {
            Ok(items) => items,
            Err(e) => {
                return Err(ValError::InternalErr(e));
            },
        };
        let iter = match object_walk(items) {
            Ok(iter) => iter,
            Err(e) => {
                assert(iter_answered(*items, Err(e)));
                return Err(ValError::InternalErr(e));
            },
        };
        let iterator = DictGenericIterator { iter, taken: 0 };
        assert(iter_answered(*items, Ok(iterator.iterator())));
        Ok(iterator)
    }

    /// Makes an entry of what the iterator over the items has given.
    pub fn accept(item: Option<Result<&'py PyAny, PyErr>>) -> (entry: Option<
        ValResult<'py, (&'py PyAny, &'py PyAny)>,
    >)
        ensures
            dict_item(item, entry_view(entry)),
            entry matches Some(Ok((key, value))) ==> (item matches Some(Ok(pair)) && {
                &&& as_tuple(*pair) is Some
                &&& tuple_items(as_tuple(*pair)->0) == seq![*key, *value]
            }),
    {
        match item {
            None => None,
            Some(Err(e)) => Some(Err(ValError::InternalErr(e))),
            Some(Ok(item)) => match split_pair(item) {
                Some(entry) => Some(Ok(entry)),
                None => Some(Err(ValError::InternalErr(runtime_error(DICT_ITEM_ERROR)))),
            },
        }
    }
}

impl<'py> GenericEntries<'py> for DictGenericIterator<'py> {
    type Key = PyAny;

    type Value = PyAny;

    closed spec fn wf(&self) -> bool {
        walk_asked(self.iter) == self.taken
    }

    open spec fn source(&self) -> EntrySource {
        EntrySource::Dict { iterator: self.iterator() }
    }

    closed spec fn position(&self) -> nat {
        walk_asked(self.iter)
    }

    closed spec fn budget(&self) -> nat {
        (usize::MAX - self.taken) as nat
    }

    fn next(&mut self) -> (entry: Option<ValResult<'py, (&'py PyAny, &'py PyAny)>>)
        ensures
            entry matches Some(Ok((key, value))) ==> exists|item: PyAny|
                {
                    &&& #[trigger] ask_answered(
                        old(self).iterator(),
                        old(self).position(),
                        Some(Ok(&item)),
                    )
                    &&& as_tuple(item) is Some
                    &&& tuple_items(as_tuple(item)->0) == seq![*key, *value]
                },
    {
        if self.taken == usize::MAX {
            return Some(Err(ValError::InternalErr(runtime_error(ENTRY_LIMIT_ERROR))));
        }
        let item = walk_next(&mut self.iter);
        assert(item matches Some(Ok(pair)) ==> ask_answered(
            old(self).iterator(),
            old(self).position(),
            Some(Ok(&*pair)),
        ));
        self.taken = self.taken + 1;
        Self::accept(item)
    }
}

/// An iterator over the items of a mapping.
pub struct MappingGenericIterator<'py> {
    input: &'py PyAny,
    iter: PyWalk<'py>,
    // The number of calls that have asked for an item.
    taken: usize,
}

/// Reports an exception as a fault of the mapping.
pub fn mapping_err<'py, I: Input<'py>>(err: PyErr, py: Python<'py>, input: &'py I) -> (error:
    ValError<'py>)
    ensures
        mapping_error(input.as_view(), err, error@),
{
    let text = py_err_string(py, err);
    ValError::new(ErrorType::MappingType { error: text }, input)
}

/// Whether a walk over the items of the mapping has begun so: with the iterator that was asked
/// for, or with the exception that came in its place.
pub open spec fn mapping_begun(
    mapping: PyMapping,
    begun: Result<EntrySource, ErrorView>,
) -> bool {
    let object = mapping_object(mapping);
    exists|items: Result<&PySequence, PyErr>|
        {
            &&& #[trigger] items_answered(mapping, items)
            &&& match items {
                Err(exception) => begun matches Err(error) && mapping_error(
                    InputView::PyAny(object),
                    exception,
                    error,
                ),
                Ok(sequence) => items_begun(object, *sequence, begun),
            }
        }
}

/// Whether a walk over the sequence of items has begun so.
pub open spec fn items_begun(
    object: PyAny,
    sequence: PySequence,
    begun: Result<EntrySource, ErrorView>,
) -> bool {
    exists|iter: Result<PyIterator, PyErr>|
        {
            &&& #[trigger] iter_answered(sequence_object(sequence), iter)
            &&& match iter {
                Err(exception) => begun matches Err(error) && mapping_error(
                    InputView::PyAny(object),
                    exception,
                    error,
                ),
                Ok(iterator) => begun == Ok::<EntrySource, ErrorView>(
                    EntrySource::Mapping { object, iterator },
                ),
            }
        }
}

impl<'py> MappingGenericIterator<'py> {
    /// The mapping as an object.
    pub closed spec fn object(&self) -> PyAny {
        *self.input
    }

    /// The Python iterator over the items.
    pub closed spec fn iterator(&self) -> PyIterator {
        walk_iterator(self.iter)
    }

    /// Begins a walk over the items of the mapping.
    pub fn new(mapping: &'py PyMapping) -> (iterator: ValResult<'py, Self>)
        ensures
            mapping_begun(
                *mapping,
                match iterator {
                    Ok(iterator) => Ok(iterator.source()),
                    Err(error) => Err(error@),
                },
            ),
            iterator matches Ok(iterator) ==> iterator.wf() && iterator.position() == 0,
    {
        let input = mapping_as_any(mapping);
        let py = object_py(input);
        let items = match mapping_items(mapping) {
            Ok(items) => items,
            Err(e) => {
                return Err(mapping_err(e, py, input));
            },
        };
        let iter = match object_walk(sequence_as_any(items)) {
            Ok(iter) => iter,
            Err(e) => {
                assert(iter_answered(sequence_object(*items), Err(e)));
                return Err(mapping_err(e, py, input));
            },
        };
        let iterator = MappingGenericIterator { iter, input, taken: 0 };
        assert(iter_answered(sequence_object(*items), Ok(iterator.iterator())));
        Ok(iterator)
    }

    /// Takes an item of the mapping apart into a key and a value.
    pub fn split_item(&self, item: &'py PyAny) -> (entry: ValResult<'py, (&'py PyAny, &'py PyAny)>)
        ensures
            entry_view(Some(entry)) == Some(mapping_pair(self.object(), *item)),
            entry matches Ok((key, value)) ==> {
                &&& as_tuple(*item) is Some
                &&& tuple_items(as_tuple(*item)->0) == seq![*key, *value]
            },
    {
        match split_pair(item) {
            Some(entry) => Ok(entry),
            None => Err(self.item_error()),
        }
    }

    /// The error for an item that is not a pair.
    fn item_error(&self) -> (error: ValError<'py>)
        ensures
            error@ == single_error(
                ErrorTypeView::MappingType { error: MAPPING_TUPLE_ERROR@ },
                InputView::PyAny(*self.input),
            ),
    {
        ValError::new(ErrorType::MappingType { error: MAPPING_TUPLE_ERROR.to_owned() }, self.input)
    }

    /// Makes an entry of what the iterator over the items has given.
    pub fn accept(&self, item: Option<Result<&'py PyAny, PyErr>>) -> (entry: Option<
        ValResult<'py, (&'py PyAny, &'py PyAny)>,
    >)
        ensures
            mapping_item(self.object(), item, entry_view(entry)),
            entry matches Some(Ok((key, value))) ==> (item matches Some(Ok(pair)) && {
                &&& as_tuple(*pair) is Some
                &&& tuple_items(as_tuple(*pair)->0) == seq![*key, *value]
            }),
    {
        match item {
            None => None,
            Some(Err(e)) => Some(Err(mapping_err(e, object_py(self.input), self.input))),
            Some(Ok(item)) => Some(self.split_item(item)),
        }
    }
}

impl<'py> GenericEntries<'py> for MappingGenericIterator<'py> {
    type Key = PyAny;

    type Value = PyAny;

    closed spec fn wf(&self) -> bool {
        walk_asked(self.iter) == self.taken
    }

    open spec fn source(&self) -> EntrySource {
        EntrySource::Mapping { object: self.object(), iterator: self.iterator() }
    }

    closed spec fn position(&self) -> nat {
        walk_asked(self.iter)
    }

    closed spec fn budget(&self) -> nat {
        (usize::MAX - self.taken) as nat
    }

    fn next(&mut self) -> (entry: Option<ValResult<'py, (&'py PyAny, &'py PyAny)>>)
        ensures
            entry matches Some(Ok((key, value))) ==> exists|item: PyAny|
                {
                    &&& #[trigger] ask_answered(
                        old(self).iterator(),
                        old(self).position(),
                        Some(Ok(&item)),
                    )
                    &&& as_tuple(item) is Some
                    &&& tuple_items(as_tuple(item)->0) == seq![*key, *value]
                },
    {
        if self.taken == usize::MAX {
            return Some(Err(ValError::InternalErr(runtime_error(ENTRY_LIMIT_ERROR))));
        }
        let item = walk_next(&mut self.iter);
        assert(item matches Some(Ok(pair)) ==> ask_answered(
            old(self).iterator(),
            old(self).position(),
            Some(Ok(&*pair)),
        ));
        self.taken = self.taken + 1;
        self.accept(item)
    }
}

/// An iterator over the attributes of an object.
///
/// It passes over the attributes whose name begins with an underscore, those that cannot be read,
/// bound methods, and functions.
pub struct AttributesGenericIterator<'py> {
    object: ObjectProbe<'py>,
    attributes: Vec<&'py PyAny>,
    index: usize,
}

/// Whether a name begins with an underscore.
pub open spec fn is_private_name(name: Seq<char>) -> bool {
    name.len() > 0 && name[0] == '_'
}

/// Whether an attribute is passed over, given what came when it was asked for the object that it
/// is bound to.
pub open spec fn is_hidden(attr: PyAny, bound: Result<bool, PyErr>) -> bool {
    bound == Ok::<bool, PyErr>(true) || is_function(attr)
}

/// Whether the attribute has been found to be one to pass over, or one to show, by the question
/// that was put to it after `asked` others.
pub open spec fn hidden_answered(attr: PyAny, asked: nat, hidden: bool) -> bool {
    exists|bound: Result<bool, PyErr>|
        {
            &&& #[trigger] hasattr_answered(attr, asked, "__self__"@, bound)
            &&& hidden == is_hidden(attr, bound)
        }
}

/// Whether the attribute of that name has been found to be one to pass over, where `asked`
/// questions had been put before and `after` have been put then. A private name takes no question,
/// an attribute that cannot be read takes one, and one that is hidden takes two.
pub open spec fn name_skipped(object: PyAny, name: PyAny, asked: nat, after: nat) -> bool {
    match as_string(name) {
        None => false,
        Some(string) => {
            let text = lossy_text(string_points(string));
            if is_private_name(text) {
                after == asked
            } else {
                exists|attr: Result<&PyAny, PyErr>|
                    {
                        &&& #[trigger] getattr_answered(object, asked, text, attr)
                        &&& match attr {
                            Err(_) => after == asked + 1,
                            Ok(attr) => {
                                &&& hidden_answered(*attr, asked + 1, true)
                                &&& after == asked + 2
                            },
                        }
                    }
            }
        },
    }
}

/// Whether the attribute of that name has been found to be one to show by the two questions after
/// `asked` others.
pub open spec fn name_shown(
    object: PyAny,
    name: PyAny,
    attr: PyAny,
    asked: nat,
    after: nat,
) -> bool {
    match as_string(name) {
        None => false,
        Some(string) => {
            let text = lossy_text(string_points(string));
            &&& !is_private_name(text)
            &&& getattr_answered(object, asked, text, Ok(&attr))
            &&& hidden_answered(attr, asked + 1, false)
            &&& after == asked + 2
        },
    }
}

/// Whether the attribute of that name has been found to be one to pass over.
pub open spec fn attribute_skipped(object: PyAny, name: PyAny) -> bool {
    exists|asked: nat, after: nat| #[trigger] name_skipped(object, name, asked, after)
}

/// Whether the attribute of that name has been found to be one to show.
pub open spec fn attribute_shown(object: PyAny, name: PyAny, attr: PyAny) -> bool {
    exists|asked: nat, after: nat| #[trigger] name_shown(object, name, attr, asked, after)
}

/// Whether the names have been found to be ones to pass over, one after the other, where `asked`
/// questions had been put before and `after` have been put then.
pub open spec fn names_skipped(
    object: PyAny,
    names: Seq<&PyAny>,
    asked: nat,
    after: nat,
) -> bool
    decreases names.len(),
{
    if names.len() == 0 {
        after == asked
    } else {
        exists|between: nat|
            {
                &&& names_skipped(object, names.drop_last(), asked, between)
                &&& #[trigger] name_skipped(object, *names.last(), between, after)
            }
    }
}

/// Each of the names that were passed over one after the other was to be passed over.
proof fn lemma_names_skipped(
    object: PyAny,
    names: Seq<&PyAny>,
    asked: nat,
    after: nat,
    j: int,
)
    requires
        names_skipped(object, names, asked, after),
        0 <= j < names.len(),
    ensures
        attribute_skipped(object, *names[j]),
    decreases names.len(),
{
    let between = choose|between: nat|
        {
            &&& names_skipped(object, names.drop_last(), asked, between)
            &&& #[trigger] name_skipped(object, *names.last(), between, after)
        };
    if j < names.len() - 1 {
        lemma_names_skipped(object, names.drop_last(), asked, between, j);
    }
}

/// One more name that is passed over.
proof fn lemma_skip_name(
    object: PyAny,
    names: Seq<&PyAny>,
    name: &PyAny,
    asked: nat,
    between: nat,
    after: nat,
)
    requires
        names_skipped(object, names, asked, between),
        name_skipped(object, *name, between, after),
    ensures
        names_skipped(object, names.push(name), asked, after),
{
    assert(names.push(name).drop_last() =~= names);
    assert(name_skipped(object, *names.push(name).last(), between, after));
}

/// What a walk over attributes gives: an attribute with its name, an exception, or the end.
pub enum AttributeView {
    Shown { name: PyAny, attr: PyAny },
    Failed(ErrorView),
    End,
}

/// The model of what an iterator over attributes gives.
pub open spec fn attribute_view(entry: Option<ValResult<(&PyAny, &PyAny)>>) -> AttributeView {
    match entry {
        None => AttributeView::End,
        Some(Ok((name, attr))) => AttributeView::Shown { name: *name, attr: *attr },
        Some(Err(error)) => AttributeView::Failed(error@),
    }
}

/// Whether a walk over the names that goes on from the index `start`, where `asked` questions had
/// been put before, has been found to give `entry`, and then to stand at the index `end` and to
/// have put `after` questions. The names that it has passed over were to be passed over; the last
/// name that it has looked at is the one it gives, unless all names were passed over. Nothing is
/// asked but what this takes.
pub open spec fn attribute_found(
    object: PyAny,
    names: Seq<&PyAny>,
    start: int,
    end: int,
    asked: nat,
    after: nat,
    entry: AttributeView,
) -> bool {
    let passed = passed_index(end, entry);
    &&& start <= passed <= end <= names.len()
    &&& exists|between: nat|
        {
            &&& #[trigger] names_skipped(
                object,
                names.subrange(start, passed_index(end, entry)),
                asked,
                between,
            )
            &&& match entry {
                AttributeView::End => end == names.len() && after == between,
                AttributeView::Shown { name, attr } => {
                    &&& name == *names[passed]
                    &&& name_shown(object, name, attr, between, after)
                },
                AttributeView::Failed(error) => {
                    &&& as_string(*names[passed]) is None
                    &&& error matches ErrorView::InternalErr(exception)
                    &&& string_refused(*names[passed], exception)
                    &&& after == between
                },
            }
        }
}

/// The index before which all names were passed over by a call that then stood at the index `end`.
pub open spec fn passed_index(end: int, entry: AttributeView) -> int {
    if entry is End {
        end
    } else {
        end - 1
    }
}

/// One call of an iterator over attributes: what it gave, the index that it then stood at, and how
/// many questions had then been put.
pub struct AttributeCall {
    pub entry: AttributeView,
    pub end: int,
    pub asked: nat,
}

/// The index after the calls of an iterator that was at its beginning.
pub open spec fn index_after(calls: Seq<AttributeCall>) -> int {
    if calls.len() == 0 {
        0
    } else {
        calls.last().end
    }
}

/// How many questions the calls of an iterator that was at its beginning have put.
pub open spec fn asked_after(calls: Seq<AttributeCall>) -> nat {
    if calls.len() == 0 {
        0
    } else {
        calls.last().asked
    }
}

/// Whether the calls of an iterator that was at its beginning have gone so.
pub open spec fn attributes_found(
    object: PyAny,
    names: Seq<&PyAny>,
    calls: Seq<AttributeCall>,
) -> bool
    decreases calls.len(),
{
    calls.len() > 0 ==> {
        let earlier = calls.drop_last();
        &&& attributes_found(object, names, earlier)
        &&& attribute_found(
            object,
            names,
            index_after(earlier),
            calls.last().end,
            asked_after(earlier),
            calls.last().asked,
            calls.last().entry,
        )
    }
}

/// Whether one of the calls has given the name at the index.
pub open spec fn name_given(calls: Seq<AttributeCall>, index: int) -> bool {
    exists|i: int| 0 <= i < calls.len() && !((#[trigger] calls[i]).entry is End) && calls[i].end - 1
        == index
}

/// The calls of an iterator over attributes together give the names that are not to be passed over,
/// each once and in the order of the names: every name before the index that they have come to is
/// one that was given or one that was to be passed over, and what was given first stands first.
pub proof fn law_attributes_in_order(object: PyAny, names: Seq<&PyAny>, calls: Seq<AttributeCall>)
    requires
        attributes_found(object, names, calls),
    ensures
        0 <= index_after(calls) <= names.len(),
        forall|j: int|
            #![trigger names[j]]
            0 <= j < index_after(calls) ==> name_given(calls, j) || attribute_skipped(
                object,
                *names[j],
            ),
        forall|i: int|
            #![trigger calls[i]]
            0 <= i < calls.len() ==> {
                &&& 0 <= calls[i].end <= index_after(calls)
                &&& calls[i].entry matches AttributeView::Shown { name, attr } ==> {
                    &&& 0 < calls[i].end
                    &&& name == *names[calls[i].end - 1]
                    &&& attribute_shown(object, name, attr)
                }
            },
        forall|i: int, j: int|
            0 <= i < j < calls.len() && !((#[trigger] calls[j]).entry is End) ==> (
            #[trigger] calls[i]).end < calls[j].end,
        calls.len() > 0 && calls.last().entry is End ==> index_after(calls) == names.len(),
    decreases calls.len(),
{
    if calls.len() > 0 {
        let earlier = calls.drop_last();
        law_attributes_in_order(object, names, earlier);
        assert forall|j: int|
            #![trigger names[j]]
            0 <= j < index_after(calls) implies name_given(calls, j) || attribute_skipped(
            object,
            *names[j],
        ) by {
            if name_given(earlier, j) {
                let i = choose|i: int|
                    0 <= i < earlier.len() && !((#[trigger] earlier[i]).entry is End)
                        && earlier[i].end - 1 == j;
                assert(calls[i] == earlier[i]);
            } else if j >= index_after(earlier) {
                let call = calls.last();
                let passed = passed_index(call.end, call.entry);
                if j < passed {
                    let skipped = names.subrange(index_after(earlier), passed);
                    let between = choose|between: nat| #[trigger]
                        names_skipped(object, skipped, asked_after(earlier), between);
                    let at = j - index_after(earlier);
                    lemma_names_skipped(object, skipped, asked_after(earlier), between, at);
                    assert(skipped[at] == names[j]);
                } else {
                    assert(calls[calls.len() - 1].end - 1 == j);
                }
            }
        }
        assert forall|i: int|
            #![trigger calls[i]]
            0 <= i < calls.len() implies {
            &&& 0 <= calls[i].end <= index_after(calls)
            &&& calls[i].entry matches AttributeView::Shown { name, attr } ==> {
                &&& 0 < calls[i].end
                &&& name == *names[calls[i].end - 1]
                &&& attribute_shown(object, name, attr)
            }
        } by {
            if i < earlier.len() {
                assert(calls[i] == earlier[i]);
            }
        }
        assert forall|i: int, j: int|
            0 <= i < j < calls.len() && !((#[trigger] calls[j]).entry is End) implies (
        #[trigger] calls[i]).end < calls[j].end by {
            assert(calls[i] == earlier[i]);
            if j < earlier.len() {
                assert(calls[j] == earlier[j]);
            }
        }
    }
}

/// Whether a walk over the attributes of the object has begun so.
pub open spec fn attributes_begun(
    object: PyAny,
    begun: Result<Seq<&PyAny>, ErrorView>,
) -> bool {
    exists|dir: Result<&PyList, PyErr>|
        {
            &&& #[trigger] dir_answered(object, dir)
            &&& match dir {
                Err(exception) => begun == Err::<Seq<&PyAny>, ErrorView>(
                    ErrorView::InternalErr(exception),
                ),
                Ok(list) => begun matches Ok(names) && list_answered(*list, names),
            }
        }
}

/// Whether the text begins with an underscore.
pub fn has_private_name(name: &str) -> (private: bool)
    ensures
        private == is_private_name(name@),
{
    !name.is_empty() && name.get_char(0) == '_'
}

impl<'py> AttributesGenericIterator<'py> {
    /// The object whose attributes are walked.
    pub closed spec fn object(&self) -> PyAny {
        probe_object(self.object)
    }

    /// How many questions have been put to the object and its attributes.
    pub closed spec fn asked(&self) -> nat {
        probe_asked(self.object)
    }

    /// The names of the attributes.
    pub closed spec fn attributes(&self) -> Seq<&'py PyAny> {
        self.attributes@
    }

    /// How many names have been looked at.
    pub closed spec fn index(&self) -> int {
        self.index as int
    }

    /// Whether the iterator is in order.
    pub open spec fn wf(&self) -> bool {
        0 <= self.index() <= self.attributes().len()
    }

    /// Begins at the first attribute.
    pub fn new(py_any: &'py PyAny) -> (iterator: ValResult<'py, Self>)
        ensures
            attributes_begun(
                *py_any,
                match iterator {
                    Ok(iterator) => Ok(iterator.attributes()),
                    Err(error) => Err(error@),
                },
            ),
            iterator matches Ok(iterator) ==> {
                &&& iterator.wf()
                &&& iterator.object() == *py_any
                &&& iterator.asked() == 0
                &&& iterator.index() == 0
            },
    {
        let list = match object_dir(py_any) {
            Ok(list) => list,
            Err(e) => {
                return Err(ValError::InternalErr(e));
            },
        };
        let attributes = list_items(list);
        let object = object_probe(py_any);
        let iterator = AttributesGenericIterator { object, attributes, index: 0 };
        assert(iterator.attributes() == attributes@);
        Ok(iterator)
    }

    /// Whether an attribute is passed over, given what came when it was asked for the object that
    /// it is bound to.
    pub fn hides(attr: &PyAny, bound: Result<bool, PyErr>) -> (hidden: bool)
        ensures
            hidden == is_hidden(*attr, bound),
    {
        let is_bound = match bound {
            Ok(bound) => bound,
            Err(_) => false,
        };
        is_bound || object_is_function(attr)
    }

    /// The next attribute to show, with its name. A name that is not a string is an error.
    pub fn next(&mut self) -> (entry: Option<ValResult<'py, (&'py PyAny, &'py PyAny)>>)
        requires
            old(self).wf(),
        ensures
            final(self).wf(),
            final(self).object() == old(self).object(),
            final(self).attributes() == old(self).attributes(),
            attribute_found(
                old(self).object(),
                old(self).attributes(),
                old(self).index(),
                final(self).index(),
                old(self).asked(),
                final(self).asked(),
                attribute_view(entry),
            ),
    {
        let ghost object = probe_object(self.object);
        let ghost names = self.attributes@;
        let ghost start = self.index as int;
        let ghost asked = probe_asked(self.object);
        while self.index < self.attributes.len()
            invariant
                self.wf(),
                start == old(self).index(),
                asked == old(self).asked(),
                object == old(self).object(),
                names == old(self).attributes(),
                start <= self.index,
                probe_object(self.object) == object,
                self.attributes@ == names,
                names_skipped(
                    object,
                    names.subrange(start, self.index as int),
                    asked,
                    probe_asked(self.object),
                ),
            decreases self.attributes@.len() - self.index,
        {
            let ghost between = probe_asked(self.object);
            let ghost skipped = names.subrange(start, self.index as int);
            assert(names_skipped(object, skipped, asked, between));
            let name = self.attributes[self.index];
            self.index = self.index + 1;
            let string = match downcast_string(name) {
                Ok(string) => string,
                Err(e) => {
                    return Some(Err(ValError::InternalErr(e)));
                },
            };
            let text = string_to_lossy(string);
            if !has_private_name(text.as_str()) {
                let found = probe_getattr(&mut self.object, text.as_str());
                assert(getattr_answered(object, between, text@, found));
                if let Ok(attr) = found {
                    let bound = probe_hasattr(&mut self.object, attr, "__self__");
                    assert(hasattr_answered(*attr, between + 1, "__self__"@, bound));
                    if !Self::hides(attr, bound) {
                        return Some(Ok((name, attr)));
                    }
                }
            }
            proof {
                let after = probe_asked(self.object);
                assert(name_skipped(object, *name, between, after));
                lemma_skip_name(object, skipped, name, asked, between, after);
                assert(skipped.push(name) =~= names.subrange(start, self.index as int));
            }
        }
        None
    }
}

/// An iterator over the members of a JSON object.
pub struct JsonObjectGenericIterator<'py> {
    object: &'py JsonObject,
    index: usize,
}

impl<'py> JsonObjectGenericIterator<'py> {
    /// The members of the object.
    pub closed spec fn members(&self) -> Seq<MemberView> {
        object_view(self.object@)
    }

    /// Begins at the first member.
    pub fn new(json_object: &'py JsonObject) -> (iterator: ValResult<'py, Self>)
        ensures
            iterator matches Ok(iterator) && {
                &&& iterator.wf()
                &&& iterator.source() == EntrySource::Json(object_view(json_object@))
                &&& iterator.position() == 0
            },
    {
        Ok(JsonObjectGenericIterator { object: json_object, index: 0 })
    }
}

impl<'py> GenericEntries<'py> for JsonObjectGenericIterator<'py> {
    type Key = String;

    type Value = JsonInput;

    closed spec fn wf(&self) -> bool {
        self.index <= self.object@.len()
    }

    open spec fn source(&self) -> EntrySource {
        EntrySource::Json(self.members())
    }

    closed spec fn position(&self) -> nat {
        self.index as nat
    }

    closed spec fn budget(&self) -> nat {
        (self.object@.len() - self.index) as nat
    }

    fn next(&mut self) -> (entry: Option<ValResult<'py, (&'py String, &'py JsonInput)>>) {
        if self.index < self.object.len() {
            let member = &self.object[self.index];
            self.index = self.index + 1;
            Some(Ok((&member.0, &member.1)))
        } else {
            None
        }
    }
}

/// Something that gives one item after another.
#[derive(Debug)]
pub enum GenericIterator {
    PyIterator(GenericPyIterator),
    JsonArray(GenericJsonIterator),
}

impl Clone for GenericIterator {
    fn clone(&self) -> (copy: Self)
        ensures
            match self {
                GenericIterator::PyIterator(iterator) => copy matches GenericIterator::PyIterator(
                    other,
                ) && other == *iterator,
                GenericIterator::JsonArray(iterator) => copy matches GenericIterator::JsonArray(
                    other,
                ) && other.same_as(iterator),
            },
    {
        match self {
            GenericIterator::PyIterator(iterator) => GenericIterator::PyIterator(iterator.clone()),
            GenericIterator::JsonArray(iterator) => GenericIterator::JsonArray(iterator.clone()),
        }
    }
}

impl From<JsonArray> for GenericIterator {
    fn from(array: JsonArray) -> (iterator: Self)
        ensures
            iterator matches GenericIterator::JsonArray(iterator) && {
                &&& iterator.wf()
                &&& iterator.items() == array@
                &&& iterator.position() == 0
            },
    {
        let length = array.len();
        let json_iter = GenericJsonIterator { array, length, index: 0 };
        Self::JsonArray(json_iter)
    }
}

impl vstd::std_specs::convert::FromSpecImpl<JsonArray> for GenericIterator {
    open spec fn obeys_from_spec() -> bool {
        true
    }

    closed spec fn from_spec(array: JsonArray) -> Self {
        GenericIterator::JsonArray(
            GenericJsonIterator { array, length: array@.len() as usize, index: 0 },
        )
    }
}

impl GenericIterator {
    /// An iterator over the items of a Python object.
    pub fn from_py_any(obj: &PyAny) -> (iterator: Result<GenericIterator, PyErr>)
        ensures
            exists|iter: Result<PyIterator, PyErr>|
                {
                    &&& #[trigger] iter_answered(*obj, iter)
                    &&& match iter {
                        Err(exception) => iterator == Err::<GenericIterator, PyErr>(exception),
                        Ok(iter) => {
                            &&& iterator matches Ok(GenericIterator::PyIterator(iterator))
                            &&& iterator.object() == *obj
                            &&& iterator.iterator() == iter
                            &&& iterator.asked() == 0
                            &&& iterator.position() == 0
                        },
                    }
                },
    {
        match object_walk(obj) {
            Ok(iter) => {
                assert(iter_answered(*obj, Ok(walk_iterator(iter))));
                Ok(GenericIterator::PyIterator(GenericPyIterator::new(obj, iter)))
            },
            Err(e) => {
                assert(iter_answered(*obj, Err(e)));
                Err(e)
            },
        }
    }
}

/// An iterator over the items of a Python object, which counts them.
#[derive(Debug)]
pub struct GenericPyIterator {
    obj: Py<PyAny>,
    iter: KeptWalk,
    index: usize,
}

impl Clone for GenericPyIterator {
    /// A copy with a count of its own. Both take their items from one Python iterator.
    fn clone(&self) -> (copy: Self)
        ensures
            copy == *self,
    {
        GenericPyIterator {
            obj: self.obj.clone(),
            iter: kept_copy(&self.iter),
            index: self.index,
        }
    }
}

impl GenericPyIterator {
    /// The object whose items are given.
    pub closed spec fn object(&self) -> PyAny {
        handle_object(self.obj)
    }

    /// The Python iterator over the items.
    pub closed spec fn iterator(&self) -> PyIterator {
        kept_iterator(self.iter)
    }

    /// How often the Python iterator has been asked.
    pub closed spec fn asked(&self) -> nat {
        kept_asked(self.iter)
    }

    /// How many items have been given.
    pub closed spec fn position(&self) -> usize {
        self.index
    }

    /// Counts the items of the object from the given walk over them.
    fn new(obj: &PyAny, iter: PyWalk<'_>) -> (iterator: Self)
        ensures
            iterator.object() == *obj,
            iterator.iterator() == walk_iterator(iter),
            iterator.asked() == walk_asked(iter),
            iterator.position() == 0,
    {
        let py = object_py(obj);
        GenericPyIterator { obj: object_handle(obj, py), iter: walk_keep(iter, py), index: 0 }
    }

    /// The next item with its number.
    pub fn next<'a>(&'a mut self, py: Python<'a>) -> (item: Result<
        Option<(&'a PyAny, usize)>,
        PyErr,
    >)
        requires
            old(self).position() < usize::MAX,
        ensures
            final(self).object() == old(self).object(),
            final(self).iterator() == old(self).iterator(),
            item_numbered(
                old(self).iterator(),
                old(self).asked(),
                old(self).position() as nat,
                item,
            ),
            final(self).asked() == old(self).asked() + 1,
            final(self).position() == old(self).position() + given(item),
    {
        let answer = kept_next(&mut self.iter, py);
        assert(ask_answered(old(self).iterator(), old(self).asked(), answer));
        number_item(answer, &mut self.index)
    }

    /// The object whose items are given.
    pub fn input<'a>(&'a self, py: Python<'a>) -> (object: &'a PyAny)
        ensures
            *object == self.object(),
    {
        handle_ref(&self.obj, py)
    }

    /// How many items have been given.
    pub fn index(&self) -> (index: usize)
        ensures
            index == self.position(),
    {
        self.index
    }
}

/// The next item with its number, once the iterator has given the answer.
pub open spec fn numbered_item(
    answer: Option<Result<&PyAny, PyErr>>,
    position: usize,
) -> Result<Option<(&PyAny, usize)>, PyErr> {
    match answer {
        Some(Ok(item)) => Ok(Some((item, position))),
        Some(Err(exception)) => Err(exception),
        None => Ok(None),
    }
}

/// Whether a Python iterator that had been asked so often, and had given so many items, has been
/// found to give this next.
pub open spec fn item_numbered(
    iterator: PyIterator,
    asked: nat,
    position: nat,
    item: Result<Option<(&PyAny, usize)>, PyErr>,
) -> bool {
    exists|answer: Option<Result<&PyAny, PyErr>>|
        {
            &&& #[trigger] ask_answered(iterator, asked, answer)
            &&& position <= usize::MAX
            &&& item == numbered_item(answer, position as usize)
        }
}

/// How many items the result of a call is.
pub open spec fn given(item: Result<Option<(&PyAny, usize)>, PyErr>) -> nat {
    if item matches Ok(Some(_)) {
        1
    } else {
        0
    }
}

/// How many items the results of calls are.
pub open spec fn given_by(results: Seq<Result<Option<(&PyAny, usize)>, PyErr>>) -> nat
    decreases results.len(),
{
    if results.len() == 0 {
        0
    } else {
        given_by(results.drop_last()) + given(results.last())
    }
}

/// Whether the calls of an iterator that had not been asked before have given those results.
pub open spec fn results_numbered(
    iterator: PyIterator,
    results: Seq<Result<Option<(&PyAny, usize)>, PyErr>>,
) -> bool {
    forall|i: int|
        #![trigger results[i]]
        0 <= i < results.len() ==> item_numbered(
            iterator,
            i as nat,
            given_by(results.take(i)),
            results[i],
        )
}

/// The items of a Python iterator are numbered from zero without gaps: the number of an item is how
/// many items came before it.
pub proof fn law_numbers_have_no_gaps(
    iterator: PyIterator,
    results: Seq<Result<Option<(&PyAny, usize)>, PyErr>>,
    i: int,
)
    requires
        results_numbered(iterator, results),
        0 <= i < results.len(),
        results[i] matches Ok(Some(_)),
    ensures
        results[i] matches Ok(Some((_, number))) && {
            &&& number == given_by(results.take(i))
            &&& given_by(results.take(i + 1)) == number + 1
        },
{
    assert(results.take(i + 1).drop_last() =~= results.take(i));
}

/// So many results that are all items are so many items.
proof fn lemma_all_given(results: Seq<Result<Option<(&PyAny, usize)>, PyErr>>)
    requires
        forall|i: int| 0 <= i < results.len() ==> given(#[trigger] results[i]) == 1,
    ensures
        given_by(results) == results.len(),
    decreases results.len(),
{
    if results.len() > 0 {
        let earlier = results.drop_last();
        assert forall|i: int| 0 <= i < earlier.len() implies given(#[trigger] earlier[i]) == 1 by {
            assert(earlier[i] == results[i]);
        }
        lemma_all_given(earlier);
        assert(given(results[results.len() - 1]) == 1);
    }
}

/// The calls of an iterator over a Python object give its items, each once, in their order and
/// numbered from zero, and then the end.
pub proof fn law_python_items_in_order(
    iterator: PyIterator,
    items: Seq<PyAny>,
    results: Seq<Result<Option<(&PyAny, usize)>, PyErr>>,
    i: int,
)
    requires
        iterator_gives(iterator, items),
        results_numbered(iterator, results),
        0 <= i < results.len(),
    ensures
        i < items.len() ==> results[i] == Ok::<Option<(&PyAny, usize)>, PyErr>(
            Some((&items[i], i as usize)),
        ),
        i == items.len() ==> results[i] == Ok::<Option<(&PyAny, usize)>, PyErr>(None),
    decreases i,
{
    if i <= items.len() {
        let earlier = results.take(i);
        assert forall|j: int| 0 <= j < earlier.len() implies given(#[trigger] earlier[j]) == 1 by {
            law_python_items_in_order(iterator, items, results, j);
        }
        lemma_all_given(earlier);
        assert(item_numbered(iterator, i as nat, given_by(earlier), results[i]));
    }
}

/// Numbers the item that a Python iterator has given, and counts it.
pub fn number_item<'a>(
    answer: Option<Result<&'a PyAny, PyErr>>,
    index: &mut usize,
) -> (item: Result<Option<(&'a PyAny, usize)>, PyErr>)
    requires
        *old(index) < usize::MAX,
    ensures
        item == numbered_item(answer, *old(index)),
        *final(index) == *old(index) + given(item),
{
    match answer {
        Some(Ok(next)) => {
            let a = (next, *index);
            *index = *index + 1;
            Ok(Some(a))
        },
        Some(Err(err)) => Err(err),
        None => Ok(None),
    }
}

/// An iterator over the items of a JSON array, which counts them.
#[derive(Debug)]
pub struct GenericJsonIterator {
    array: JsonArray,
    length: usize,
    index: usize,
}

impl Clone for GenericJsonIterator {
    fn clone(&self) -> (copy: Self)
        ensures
            copy.same_as(self),
    {
        let array = self.array.clone();
        assert(array_view(array@) =~= array_view(self.array@));
        GenericJsonIterator { array, length: self.length, index: self.index }
    }
}

/// How many items of so many have been given after one more call.
pub open spec fn next_position(len: nat, position: nat) -> nat {
    if position < len {
        position + 1
    } else {
        position
    }
}

/// How many items of so many have been given after that many calls.
pub open spec fn position_after(len: nat, calls: nat) -> nat
    decreases calls,
{
    if calls == 0 {
        0
    } else {
        next_position(len, position_after(len, (calls - 1) as nat))
    }
}

/// The calls of an iterator over an array give the items one by one in their order, each numbered
/// by its place, and then report the end for good.
pub proof fn law_items_in_order(len: nat, calls: nat)
    ensures
        position_after(len, calls) == if calls < len {
            calls
        } else {
            len
        },
    decreases calls,
{
    if calls > 0 {
        law_items_in_order(len, (calls - 1) as nat);
    }
}

impl GenericJsonIterator {
    /// The items of the array.
    pub closed spec fn items(&self) -> Seq<JsonInput> {
        self.array@
    }

    /// How many items have been given.
    pub closed spec fn position(&self) -> usize {
        self.index
    }

    /// Whether the two are at the same place of equal arrays, and in order if the other is.
    pub open spec fn same_as(&self, other: &Self) -> bool {
        &&& array_view(self.items()) == array_view(other.items())
        &&& self.position() == other.position()
        &&& self.wf() == other.wf()
    }

    /// Whether the iterator is in order.
    pub closed spec fn wf(&self) -> bool {
        &&& self.length == self.array@.len()
        &&& self.index <= self.length
    }

    /// The next item with its number.
    pub fn next(&mut self, _py: Python<'_>) -> (item: Result<Option<(&JsonInput, usize)>, PyErr>)
        requires
            old(self).wf(),
        ensures
            final(self).wf(),
            final(self).items() == old(self).items(),
            item == if old(self).position() < old(self).items().len() {
                Ok::<Option<(&JsonInput, usize)>, PyErr>(
                    Some(
                        (
                            &old(self).items()[old(self).position() as int],
                            old(self).position(),
                        ),
                    ),
                )
            } else {
                Ok(None)
            },
            final(self).position() == next_position(
                old(self).items().len(),
                old(self).position() as nat,
            ),
    {
        if self.index < self.length {
            let index = self.index;
            self.index = index + 1;
            let next = &self.array[index];
            Ok(Some((next, index)))
        } else {
            Ok(None)
        }
    }

    /// The array as a new Python list.
    pub fn input<'a>(&'a self, py: Python<'a>) -> (object: &'a PyAny)
        ensures
            json_object(JsonView::Array(array_view(self.items())), *object),
    {
        let array = self.array.clone();
        proof {
            assert(array_view(array@) =~= array_view(self.array@));
            lemma_array_view(array);
        }
        let input = JsonInput::Array(array);
        handle_into_ref(input.to_object(py), py)
    }

    /// How many items have been given.
    pub fn index(&self) -> (index: usize)
        ensures
            index == self.position(),
    {
        self.index
    }
}

/// The arguments of a call from Python.
#[derive(Debug)]
pub struct PyArgs<'a> {
    pub args: Option<&'a PyTuple>,
    pub kwargs: Option<&'a PyDict>,
}

impl<'a> PyArgs<'a> {
    pub fn new(args: Option<&'a PyTuple>, kwargs: Option<&'a PyDict>) -> (arguments: Self)
        ensures
            arguments.args == args,
            arguments.kwargs == kwargs,
    {
        PyArgs { args, kwargs }
    }
}

/// The arguments of a call that came as JSON.
#[derive(Debug)]
pub struct JsonArgs<'a> {
    pub args: Option<&'a [JsonInput]>,
    pub kwargs: Option<&'a JsonObject>,
}

impl<'a> JsonArgs<'a> {
    pub fn new(args: Option<&'a [JsonInput]>, kwargs: Option<&'a JsonObject>) -> (arguments: Self)
        ensures
            arguments.args == args,
            arguments.kwargs == kwargs,
    {
        JsonArgs { args, kwargs }
    }
}

/// The arguments of a call.
#[derive(Debug)]
pub enum GenericArguments<'a> {
    Py(PyArgs<'a>),
    Json(JsonArgs<'a>),
}

impl<'a> From<PyArgs<'a>> for GenericArguments<'a> {
    fn from(s: PyArgs<'a>) -> (value: GenericArguments<'a>)
        ensures
            value == GenericArguments::Py(s),
    {
        GenericArguments::Py(s)
    }
}

impl<'a> vstd::std_specs::convert::FromSpecImpl<PyArgs<'a>> for GenericArguments<'a> {
    open spec fn obeys_from_spec() -> bool {
        true
    }

    open spec fn from_spec(s: PyArgs<'a>) -> GenericArguments<'a> {
        GenericArguments::Py(s)
    }
}

impl<'a> From<JsonArgs<'a>> for GenericArguments<'a> {
    fn from(s: JsonArgs<'a>) -> (value: GenericArguments<'a>)
        ensures
            value == GenericArguments::Json(s),
    {
        GenericArguments::Json(s)
    }
}

impl<'a> vstd::std_specs::convert::FromSpecImpl<JsonArgs<'a>> for GenericArguments<'a> {
    open spec fn obeys_from_spec() -> bool {
        true
    }

    open spec fn from_spec(s: JsonArgs<'a>) -> GenericArguments<'a> {
        GenericArguments::Json(s)
    }
}

/// Text, or a Python string.
#[derive(Debug)]
pub enum EitherString<'a> {
    Cow(Cow<'a, str>),
    Py(&'a PyString),
}

/// The text of a Python string, or the error where some code point of it is no character.
pub open spec fn string_text(string: PyString) -> Result<Seq<char>, ErrorView> {
    if is_text(string_points(string)) {
        Ok(lossy_text(string_points(string)))
    } else {
        Err(
            single_error(
                ErrorTypeView::StringUnicode,
                InputView::PyAny(string_object(string)),
            ),
        )
    }
}

impl<'a> EitherString<'a> {
    /// The text.
    pub fn as_cow(&self) -> (text: ValResult<'a, Cow<'_, str>>)
        ensures
            (match text {
                Ok(text) => Ok(text@),
                Err(error) => Err(error@),
            }) == match self {
                EitherString::Cow(data) => Ok::<Seq<char>, ErrorView>(data@),
                EitherString::Py(py_str) => string_text(**py_str),
            },
    {
        match self {
            EitherString::Cow(Cow::Borrowed(data)) => Ok(Cow::Borrowed(data)),
            EitherString::Cow(Cow::Owned(data)) => Ok(Cow::Owned(data.clone())),
            EitherString::Py(py_str) => match py_string_str(py_str) {
                Ok(text) => Ok(Cow::Borrowed(text)),
                Err(error) => Err(error),
            },
        }
    }

    /// The Python string: the one that it is, or a new one with the text.
    pub fn as_py_string(&'a self, py: Python<'a>) -> (string: &'a PyString)
        ensures
            match self {
                EitherString::Cow(data) => {
                    &&& string_points(*string) == text_points(data@)
                    &&& is_plain_string(string_object(*string))
                },
                EitherString::Py(py_string) => *string == **py_string,
            },
    {
        match self {
            EitherString::Cow(Cow::Borrowed(data)) => make_string(py, data),
            EitherString::Cow(Cow::Owned(data)) => make_string(py, data.as_str()),
            EitherString::Py(py_string) => py_string,
        }
    }

    /// A handle to the Python string.
    pub fn into_py(self, py: Python<'_>) -> (handle: Py<PyAny>)
        ensures
            match self {
                EitherString::Cow(data) => text_object(data@, handle_object(handle)),
                EitherString::Py(py_string) => handle_object(handle) == string_object(*py_string),
            },
    {
        match self {
            EitherString::Cow(Cow::Borrowed(data)) => text_to_object(data, py),
            EitherString::Cow(Cow::Owned(data)) => text_to_object(data.as_str(), py),
            EitherString::Py(py_string) => object_handle(string_as_any(py_string), py),
        }
    }
}

impl<'a> From<&'a str> for EitherString<'a> {
    fn from(s: &'a str) -> (value: EitherString<'a>)
        ensures
            value == EitherString::Cow(Cow::Borrowed(s)),
    {
        EitherString::Cow(Cow::Borrowed(s))
    }
}

impl<'a> vstd::std_specs::convert::FromSpecImpl<&'a str> for EitherString<'a> {
    open spec fn obeys_from_spec() -> bool {
        true
    }

    open spec fn from_spec(s: &'a str) -> EitherString<'a> {
        EitherString::Cow(Cow::Borrowed(s))
    }
}

impl<'a> From<&'a PyString> for EitherString<'a> {
    fn from(s: &'a PyString) -> (value: EitherString<'a>)
        ensures
            value == EitherString::Py(s),
    {
        EitherString::Py(s)
    }
}

impl<'a> vstd::std_specs::convert::FromSpecImpl<&'a PyString> for EitherString<'a> {
    open spec fn obeys_from_spec() -> bool {
        true
    }

    open spec fn from_spec(s: &'a PyString) -> EitherString<'a> {
        EitherString::Py(s)
    }
}

/// The text of a Python string.
pub fn py_string_str<'py>(py_str: &'py PyString) -> (text: ValResult<'py, &'py str>)
    ensures
        (match text {
            Ok(text) => Ok(text@),
            Err(error) => Err(error@),
        }) == string_text(*py_str),
{
    match string_to_str(py_str) {
        Ok(text) => Ok(text),
        Err(_) => Err(
            ValError::new_custom_input(
                ErrorType::StringUnicode,
                InputValue::PyAny(string_as_any(py_str)),
            ),
        ),
    }
}

/// Bytes, or a Python bytes object.
#[derive(Debug)]
pub enum EitherBytes<'a> {
    Cow(Cow<'a, [u8]>),
    Py(&'a PyBytes),
}

impl<'a> From<Vec<u8>> for EitherBytes<'a> {
    fn from(s: Vec<u8>) -> (value: EitherBytes<'a>)
        ensures
            value == EitherBytes::Cow(Cow::Owned(s)),
    {
        EitherBytes::Cow(Cow::Owned(s))
    }
}

impl<'a> vstd::std_specs::convert::FromSpecImpl<Vec<u8>> for EitherBytes<'a> {
    open spec fn obeys_from_spec() -> bool {
        true
    }

    open spec fn from_spec(s: Vec<u8>) -> EitherBytes<'a> {
        EitherBytes::Cow(Cow::Owned(s))
    }
}

impl<'a> From<&'a [u8]> for EitherBytes<'a> {
    fn from(s: &'a [u8]) -> (value: EitherBytes<'a>)
        ensures
            value == EitherBytes::Cow(Cow::Borrowed(s)),
    {
        EitherBytes::Cow(Cow::Borrowed(s))
    }
}

impl<'a> vstd::std_specs::convert::FromSpecImpl<&'a [u8]> for EitherBytes<'a> {
    open spec fn obeys_from_spec() -> bool {
        true
    }

    open spec fn from_spec(s: &'a [u8]) -> EitherBytes<'a> {
        EitherBytes::Cow(Cow::Borrowed(s))
    }
}

impl<'a> From<&'a PyBytes> for EitherBytes<'a> {
    fn from(s: &'a PyBytes) -> (value: EitherBytes<'a>)
        ensures
            value == EitherBytes::Py(s),
    {
        EitherBytes::Py(s)
    }
}

impl<'a> vstd::std_specs::convert::FromSpecImpl<&'a PyBytes> for EitherBytes<'a> {
    open spec fn obeys_from_spec() -> bool {
        true
    }

    open spec fn from_spec(s: &'a PyBytes) -> EitherBytes<'a> {
        EitherBytes::Py(s)
    }
}

impl<'a> EitherBytes<'a> {
    /// The number of bytes. A Python object is asked for it.
    pub fn len(&'a self) -> (len: Result<usize, PyErr>)
        ensures
            match self {
                EitherBytes::Cow(bytes) => len matches Ok(len) && len == bytes@.len(),
                EitherBytes::Py(py_bytes) => {
                    &&& len_answered(bytes_object(**py_bytes), len)
                    &&& is_plain_bytes(bytes_object(**py_bytes)) ==> {
                        &&& len is Ok
                        &&& len->Ok_0 == bytes_content(**py_bytes).len()
                    }
                },
            },
    {
        match self {
            EitherBytes::Cow(Cow::Borrowed(bytes)) => Ok(bytes.len()),
            EitherBytes::Cow(Cow::Owned(bytes)) => Ok(bytes.len()),
            EitherBytes::Py(py_bytes) => bytes_len(py_bytes),
        }
    }

    /// A handle to the Python bytes object: to the one that it is, or to a new one of the class
    /// `bytes`.
    pub fn into_py(self, py: Python<'_>) -> (handle: Py<PyAny>)
        ensures
            match self {
                EitherBytes::Cow(bytes) => exists|made: PyBytes|
                    {
                        &&& handle_object(handle) == #[trigger] bytes_object(made)
                        &&& bytes_content(made) == bytes@
                        &&& is_plain_bytes(bytes_object(made))
                    },
                EitherBytes::Py(py_bytes) => handle_object(handle) == bytes_object(*py_bytes),
            },
    {
        match self {
            EitherBytes::Cow(Cow::Borrowed(bytes)) => bytes_to_object(bytes, py),
            EitherBytes::Cow(Cow::Owned(bytes)) => bytes_to_object(bytes.as_slice(), py),
            EitherBytes::Py(py_bytes) => object_handle(bytes_as_any(py_bytes), py),
        }
    }
}

/// Makes a Python bytes object.
fn bytes_to_object(content: &[u8], py: Python<'_>) -> (handle: Py<PyAny>)
    ensures
        exists|made: PyBytes|
            {
                &&& handle_object(handle) == #[trigger] bytes_object(made)
                &&& bytes_content(made) == content@
                &&& is_plain_bytes(bytes_object(made))
            },
{
    let made = make_bytes(py, content);
    let handle = object_handle(bytes_as_any(made), py);
    assert(handle_object(handle) == bytes_object(*made));
    handle
}

/// An item of a mapping is an entry exactly when it is a tuple of two.
pub proof fn law_mapping_pair(object: PyAny, item: PyAny)
    ensures
        mapping_pair(object, item) is Ok <==> (as_tuple(item) matches Some(tuple) && tuple_items(
            tuple,
        ).len() == 2),
{
}

/// An attribute that is shown has a public name, is no function, and has not been found to be bound
/// to an object.
pub proof fn law_shown_attribute(object: PyAny, name: PyAny, attr: PyAny)
    requires
        attribute_shown(object, name, attr),
    ensures
        as_string(name) matches Some(string) && !is_private_name(
            lossy_text(string_points(string)),
        ),
        !is_function(attr),
        exists|asked: nat, bound: Result<bool, PyErr>|
            {
                &&& #[trigger] hasattr_answered(attr, asked, "__self__"@, bound)
                &&& bound != Ok::<bool, PyErr>(true)
            },
{
}

/// A Python string that was made from a text gives that text back.
pub proof fn law_string_round_trip(text: Seq<char>, string: PyString)
    requires
        string_points(string) == text_points(text),
    ensures
        string_text(string) == Ok::<Seq<char>, ErrorView>(text),
{
    law_text_round_trip(text);
}

/// A tuple of two objects, whatever these are, is the entry with the first as the key and the
/// second as the value, for a dictionary and for any other mapping.
pub proof fn law_pair(mapping: PyAny, item: PyAny, tuple: PyTuple, key: PyAny, value: PyAny)
    requires
        as_tuple(item) == Some(tuple),
        tuple_items(tuple) == seq![key, value],
    ensures
        pair_parts(item) matches Some(entry) && entry.key == InputView::PyAny(key) && entry.value
            == InputView::PyAny(value),
        mapping_pair(mapping, item) matches Ok(entry) && entry.key == InputView::PyAny(key)
            && entry.value == InputView::PyAny(value),
{
}

/// What is no tuple of two is no entry, and the fault of it refers to the mapping as a whole.
pub proof fn law_no_pair(mapping: PyAny, item: PyAny)
    requires
        as_tuple(item) matches Some(tuple) ==> tuple_items(tuple).len() != 2,
    ensures
        pair_parts(item) is None,
        mapping_pair(mapping, item) matches Err(ErrorView::LineErrors(lines)) && {
            &&& lines.len() == 1
            &&& lines[0].error_type == (ErrorTypeView::MappingType {
                error: "Mapping items must be tuples of (key, value) pairs"@,
            })
            &&& lines[0].location.len() == 0
            &&& lines[0].input_value == InputView::PyAny(mapping)
        },
{
}

/// A call of an iterator over a dictionary gives what the Python iterator gave to the ask of the
/// same number: the two objects of the pair, the exception, or the end.
pub proof fn law_dict_entry(
    iterator: PyIterator,
    position: nat,
    given: Option<Result<&PyAny, PyErr>>,
    answer: Option<Result<EntryView, ErrorView>>,
)
    requires
        position < usize::MAX,
        forall|other: Option<Result<&PyAny, PyErr>>| #[trigger]
            ask_answered(iterator, position, other) ==> other == given,
        entry_answered(EntrySource::Dict { iterator }, position, answer),
    ensures
        match given {
            None => answer is None,
            Some(Err(exception)) => answer == Some(
                Err::<EntryView, ErrorView>(ErrorView::InternalErr(exception)),
            ),
            Some(Ok(item)) => match as_tuple(*item) {
                Some(tuple) if tuple_items(tuple).len() == 2 => answer == Some(
                    Ok::<EntryView, ErrorView>(
                        EntryView {
                            key: InputView::PyAny(tuple_items(tuple)[0]),
                            value: InputView::PyAny(tuple_items(tuple)[1]),
                        },
                    ),
                ),
                _ => answer matches Some(Err(ErrorView::InternalErr(_))),
            },
        },
{
}

/// A call of an iterator over a mapping gives what the Python iterator gave to the ask of the same
/// number: the two objects of the pair, or a fault of the mapping for an exception or for an item
/// that is no pair, or the end.
pub proof fn law_mapping_entry(
    object: PyAny,
    iterator: PyIterator,
    position: nat,
    given: Option<Result<&PyAny, PyErr>>,
    answer: Option<Result<EntryView, ErrorView>>,
)
    requires
        position < usize::MAX,
        forall|other: Option<Result<&PyAny, PyErr>>| #[trigger]
            ask_answered(iterator, position, other) ==> other == given,
        entry_answered(EntrySource::Mapping { object, iterator }, position, answer),
    ensures
        match given {
            None => answer is None,
            Some(Err(exception)) => answer matches Some(Err(ErrorView::LineErrors(lines))) && {
                &&& lines.len() == 1
                &&& lines[0].location.len() == 0
                &&& lines[0].input_value == InputView::PyAny(object)
                &&& lines[0].error_type matches ErrorTypeView::MappingType { error }
                &&& error_described(exception, error)
            },
            Some(Ok(item)) => match as_tuple(*item) {
                Some(tuple) if tuple_items(tuple).len() == 2 => answer == Some(
                    Ok::<EntryView, ErrorView>(
                        EntryView {
                            key: InputView::PyAny(tuple_items(tuple)[0]),
                            value: InputView::PyAny(tuple_items(tuple)[1]),
                        },
                    ),
                ),
                _ => answer matches Some(Err(ErrorView::LineErrors(lines))) && {
                    &&& lines.len() == 1
                    &&& lines[0].location.len() == 0
                    &&& lines[0].input_value == InputView::PyAny(object)
                    &&& lines[0].error_type == (ErrorTypeView::MappingType {
                        error: "Mapping items must be tuples of (key, value) pairs"@,
                    })
                },
            },
        },
{
}

/// An exception of a mapping is reported as one fault of the mapping as a whole, which describes
/// it.
pub proof fn law_mapping_exception(object: InputView, exception: PyErr, error: ErrorView)
    requires
        mapping_error(object, exception, error),
    ensures
        error matches ErrorView::LineErrors(lines) && {
            &&& lines.len() == 1
            &&& lines[0].location.len() == 0
            &&& lines[0].input_value == object
            &&& lines[0].error_type matches ErrorTypeView::MappingType { error: text }
            &&& error_described(exception, text)
        },
{
}

/// A call of an iterator over a JSON object gives the member in its place, with its name and its
/// value, and after the last one the end.
pub proof fn law_json_member(
    members: Seq<MemberView>,
    position: nat,
    answer: Option<Result<EntryView, ErrorView>>,
)
    requires
        entry_answered(EntrySource::Json(members), position, answer),
    ensures
        position < members.len() ==> answer == Some(
            Ok::<EntryView, ErrorView>(
                EntryView {
                    key: InputView::String(members[position as int].name),
                    value: InputView::JsonInput(members[position as int].value),
                },
            ),
        ),
        position >= members.len() ==> answer is None,
{
}

/// Each call moves on by one, and the calls after the last member, or after as many as can be
/// counted, stay where they are.
pub proof fn law_calls_move_on(source: EntrySource, calls: nat)
    ensures
        ({
            let last = match source {
                EntrySource::Json(members) => members.len(),
                _ => usize::MAX as nat,
            };
            position_after_calls(source, calls) == if calls < last {
                calls
            } else {
                last
            }
        }),
    decreases calls,
{
    if calls > 0 {
        law_calls_move_on(source, (calls - 1) as nat);
    }
}

/// A walk over a dictionary begins with an iterator over the view of its items that was asked for,
/// or with the exception that one of the two questions raised.
pub proof fn law_dict_begins(dict: PyDict, begun: Result<EntrySource, ErrorView>)
    requires
        dict_begun(dict, begun),
    ensures
        match begun {
            Ok(source) => exists|view: PyAny, iterator: PyIterator|
                {
                    &&& #[trigger] dict_items_answered(dict, Ok(&view))
                    &&& #[trigger] iter_answered(view, Ok(iterator))
                    &&& source == EntrySource::Dict { iterator }
                },
            Err(error) => error matches ErrorView::InternalErr(exception) && {
                ||| dict_items_answered(dict, Err(exception))
                ||| exists|view: PyAny|
                    {
                        &&& #[trigger] dict_items_answered(dict, Ok(&view))
                        &&& iter_answered(view, Err(exception))
                    }
            },
        },
{
    let items = choose|items: Result<&PyAny, PyErr>|
        {
            &&& #[trigger] dict_items_answered(dict, items)
            &&& match items {
                Err(exception) => begun == Err::<EntrySource, ErrorView>(
                    ErrorView::InternalErr(exception),
                ),
                Ok(view) => dict_view_begun(*view, begun),
            }
        };
    if let Ok(view) = items {
        assert(dict_items_answered(dict, Ok(&*view)));
        let iter = choose|iter: Result<PyIterator, PyErr>|
            {
                &&& #[trigger] iter_answered(*view, iter)
                &&& begun == match iter {
                    Err(exception) => Err::<EntrySource, ErrorView>(
                        ErrorView::InternalErr(exception),
                    ),
                    Ok(iterator) => Ok(EntrySource::Dict { iterator }),
                }
            };
        if let Ok(iterator) = iter {
            assert(iter_answered(*view, Ok(iterator)));
        }
    }
}

/// A walk over a mapping begins with an iterator over the items that it was asked for, or with a
/// fault of the mapping for the exception that one of the two questions raised.
pub proof fn law_mapping_begins(mapping: PyMapping, begun: Result<EntrySource, ErrorView>)
    requires
        mapping_begun(mapping, begun),
    ensures
        match begun {
            Ok(source) => exists|items: PySequence, iterator: PyIterator|
                {
                    &&& #[trigger] items_answered(mapping, Ok(&items))
                    &&& #[trigger] iter_answered(sequence_object(items), Ok(iterator))
                    &&& source == EntrySource::Mapping {
                        object: mapping_object(mapping),
                        iterator,
                    }
                },
            Err(error) => error matches ErrorView::LineErrors(lines) && {
                &&& lines.len() == 1
                &&& lines[0].location.len() == 0
                &&& lines[0].input_value == InputView::PyAny(mapping_object(mapping))
                &&& lines[0].error_type matches ErrorTypeView::MappingType { error: text }
                &&& exists|exception: PyErr|
                    {
                        &&& #[trigger] error_described(exception, text)
                        &&& {
                            ||| items_answered(mapping, Err(exception))
                            ||| exists|items: PySequence|
                                {
                                    &&& #[trigger] items_answered(mapping, Ok(&items))
                                    &&& iter_answered(sequence_object(items), Err(exception))
                                }
                        }
                    }
            },
        },
{
    let object = mapping_object(mapping);
    let items = choose|items: Result<&PySequence, PyErr>|
        {
            &&& #[trigger] items_answered(mapping, items)
            &&& match items {
                Err(exception) => begun matches Err(error) && mapping_error(
                    InputView::PyAny(object),
                    exception,
                    error,
                ),
                Ok(sequence) => items_begun(object, *sequence, begun),
            }
        };
    match items {
        Err(exception) => {
            law_mapping_exception(InputView::PyAny(object), exception, begun->Err_0);
        },
        Ok(sequence) => {
            assert(items_answered(mapping, Ok(&*sequence)));
            let iter = choose|iter: Result<PyIterator, PyErr>|
                {
                    &&& #[trigger] iter_answered(sequence_object(*sequence), iter)
                    &&& match iter {
                        Err(exception) => begun matches Err(error) && mapping_error(
                            InputView::PyAny(object),
                            exception,
                            error,
                        ),
                        Ok(iterator) => begun == Ok::<EntrySource, ErrorView>(
                            EntrySource::Mapping { object, iterator },
                        ),
                    }
                };
            match iter {
                Err(exception) => {
                    law_mapping_exception(InputView::PyAny(object), exception, begun->Err_0);
                },
                Ok(iterator) => {
                    assert(iter_answered(sequence_object(*sequence), Ok(iterator)));
                },
            }
        },
    }
}

/// A mapping is modelled as what it is, with what belongs to it.
pub proof fn law_mapping_view(
    dict: PyDict,
    mapping: PyMapping,
    object: PyAny,
    members: JsonObject,
)
    ensures
        GenericMapping::PyDict(&dict)@ == MappingView::PyDict(dict),
        GenericMapping::PyMapping(&mapping)@ == MappingView::PyMapping(mapping),
        GenericMapping::PyGetAttr(&object, None)@ == MappingView::PyGetAttr(object, None),
        GenericMapping::PyGetAttr(&object, Some(&dict))@ == MappingView::PyGetAttr(
            object,
            Some(dict),
        ),
        GenericMapping::JsonObject(&members)@ matches MappingView::JsonObject(views) && {
            &&& views.len() == members@.len()
            &&& forall|i: int|
                0 <= i < members@.len() ==> (#[trigger] views[i]).name == members@[i].0@
                    && views[i].value == members@[i].1@
        },
{
}

/// An entry is modelled by its own key and its own value.
pub proof fn law_entry_view(
    key: PyAny,
    value: PyAny,
    name: String,
    json: JsonInput,
    error: ValError<'_>,
)
    ensures
        entry_view::<PyAny, PyAny>(Some(Ok((&key, &value)))) matches Some(Ok(entry)) && entry.key
            == InputView::PyAny(key) && entry.value == InputView::PyAny(value),
        entry_view::<String, JsonInput>(Some(Ok((&name, &json)))) matches Some(Ok(entry))
            && entry.key == InputView::String(name@) && entry.value == InputView::JsonInput(json@),
        entry_view::<PyAny, PyAny>(Some(Err(error))) == Some(Err::<EntryView, ErrorView>(error@)),
        entry_view::<PyAny, PyAny>(None) is None,
        attribute_view(Some(Ok((&key, &value)))) == (AttributeView::Shown {
            name: key,
            attr: value,
        }),
        attribute_view(Some(Err(error))) == AttributeView::Failed(error@),
        attribute_view(None) == AttributeView::End,
{
}

/// A name is private exactly when its first character is an underscore.
pub proof fn law_private_name(first: char, rest: Seq<char>)
    ensures
        !is_private_name(Seq::empty()),
        is_private_name(seq![first] + rest) <==> first == '_',
{
}

/// An attribute is hidden only for one of two reasons: it was found to be bound to an object, or it
/// is a function.
pub proof fn law_hidden_reason(attr: PyAny, bound: Result<bool, PyErr>)
    ensures
        is_hidden(attr, bound) ==> is_function(attr) || bound == Ok::<bool, PyErr>(true),
        is_function(attr) ==> is_hidden(attr, bound),
        bound == Ok::<bool, PyErr>(true) ==> is_hidden(attr, bound),
{
}

/// A name is passed over only for one of these reasons: it begins with an underscore, and then
/// nothing is asked; the attribute cannot be read; or the attribute is a function, or is found to
/// be bound to an object.
pub proof fn law_skipped_reason(object: PyAny, name: PyAny, asked: nat, after: nat)
    requires
        name_skipped(object, name, asked, after),
    ensures
        as_string(name) matches Some(string) && {
            let text = lossy_text(string_points(string));
            ||| text.len() > 0 && text[0] == '_' && after == asked
            ||| {
                &&& text.len() == 0 || text[0] != '_'
                &&& exists|exception: PyErr| #[trigger]
                    getattr_answered(object, asked, text, Err(exception))
                &&& after == asked + 1
            }
            ||| {
                &&& text.len() == 0 || text[0] != '_'
                &&& after == asked + 2
                &&& exists|attr: PyAny|
                    {
                        &&& #[trigger] getattr_answered(object, asked, text, Ok(&attr))
                        &&& is_function(attr) || hasattr_answered(
                            attr,
                            asked + 1,
                            "__self__"@,
                            Ok(true),
                        )
                    }
            }
        },
{
    let text = lossy_text(string_points(as_string(name)->0));
    if !is_private_name(text) {
        let attr = choose|attr: Result<&PyAny, PyErr>|
            {
                &&& #[trigger] getattr_answered(object, asked, text, attr)
                &&& match attr {
                    Err(_) => after == asked + 1,
                    Ok(attr) => {
                        &&& hidden_answered(*attr, asked + 1, true)
                        &&& after == asked + 2
                    },
                }
            };
        match attr {
            Ok(attr) => {
                assert(getattr_answered(object, asked, text, Ok(&*attr)));
            },
            Err(exception) => {
                assert(getattr_answered(object, asked, text, Err(exception)));
            },
        }
    }
}

/// What is shown for a name is what reading the attribute of that name gave. The name does not
/// begin with an underscore, and the attribute is no function and was not found to be bound.
pub proof fn law_shown_as_read(object: PyAny, name: PyAny, attr: PyAny, asked: nat, after: nat)
    requires
        name_shown(object, name, attr, asked, after),
    ensures
        as_string(name) matches Some(string) && {
            let text = lossy_text(string_points(string));
            &&& text.len() == 0 || text[0] != '_'
            &&& getattr_answered(object, asked, text, Ok(&attr))
        },
        !is_function(attr),
        exists|bound: Result<bool, PyErr>|
            {
                &&& #[trigger] hasattr_answered(attr, asked + 1, "__self__"@, bound)
                &&& bound != Ok::<bool, PyErr>(true)
            },
        after == asked + 2,
{
}

/// A walk over attributes fails only at a name that is no string, with the exception that says so.
pub proof fn law_attribute_failure(
    object: PyAny,
    names: Seq<&PyAny>,
    calls: Seq<AttributeCall>,
    i: int,
)
    requires
        attributes_found(object, names, calls),
        0 <= i < calls.len(),
    ensures
        calls[i].entry matches AttributeView::Failed(error) ==> {
            &&& 0 < calls[i].end <= names.len()
            &&& as_string(*names[calls[i].end - 1]) is None
            &&& error is InternalErr
            &&& string_refused(*names[calls[i].end - 1], error->InternalErr_0)
        },
    decreases calls.len(),
{
    let earlier = calls.drop_last();
    law_attributes_in_order(object, names, earlier);
    if i < earlier.len() {
        law_attribute_failure(object, names, earlier, i);
    }
}

/// The data of an object are shown, whatever their value is: an attribute with a public name that
/// can be read, is no function and is not bound to an object is given, as it was read, by the calls
/// that have come past its name.
pub proof fn law_public_data_is_shown(
    object: PyAny,
    names: Seq<&PyAny>,
    calls: Seq<AttributeCall>,
    j: int,
    string: PyString,
    attr: PyAny,
)
    requires
        attributes_found(object, names, calls),
        0 <= j < index_after(calls),
        as_string(*names[j]) == Some(string),
        lossy_text(string_points(string)).len() == 0 || lossy_text(string_points(string))[0] != '_',
        forall|asked: nat, answer: Result<&PyAny, PyErr>| #[trigger]
            getattr_answered(object, asked, lossy_text(string_points(string)), answer) ==> answer
                == Ok::<&PyAny, PyErr>(&attr),
        !is_function(attr),
        forall|asked: nat, answer: Result<bool, PyErr>| #[trigger]
            hasattr_answered(attr, asked, "__self__"@, answer) ==> answer != Ok::<bool, PyErr>(
                true,
            ),
    ensures
        exists|i: int|
            0 <= i < calls.len() && (#[trigger] calls[i]).entry == (AttributeView::Shown {
                name: *names[j],
                attr,
            }),
{
    law_attributes_in_order(object, names, calls);
    if attribute_skipped(object, *names[j]) {
        let (asked, after) = choose|asked: nat, after: nat| #[trigger]
            name_skipped(object, *names[j], asked, after);
        law_skipped_reason(object, *names[j], asked, after);
    }
    let i = choose|i: int|
        0 <= i < calls.len() && !((#[trigger] calls[i]).entry is End) && calls[i].end - 1 == j;
    law_attribute_failure(object, names, calls, i);
    if let AttributeView::Shown { name, attr: shown } = calls[i].entry {
        let (asked, after) = choose|asked: nat, after: nat| #[trigger]
            name_shown(object, name, shown, asked, after);
        law_shown_as_read(object, name, shown, asked, after);
    }
}

/// A walk over attributes begins with the names that the object was found to have, or with the
/// exception that came in their place.
pub proof fn law_attributes_begin(object: PyAny, begun: Result<Seq<&PyAny>, ErrorView>)
    requires
        attributes_begun(object, begun),
    ensures
        match begun {
            Ok(names) => exists|list: PyList|
                {
                    &&& #[trigger] dir_answered(object, Ok(&list))
                    &&& list_answered(list, names)
                },
            Err(error) => error matches ErrorView::InternalErr(exception) && dir_answered(
                object,
                Err(exception),
            ),
        },
{
    let dir = choose|dir: Result<&PyList, PyErr>|
        {
            &&& #[trigger] dir_answered(object, dir)
            &&& match dir {
                Err(exception) => begun == Err::<Seq<&PyAny>, ErrorView>(
                    ErrorView::InternalErr(exception),
                ),
                Ok(list) => begun matches Ok(names) && list_answered(*list, names),
            }
        };
    if let Ok(list) = dir {
        assert(dir_answered(object, Ok(&*list)));
    }
}

/// An item that a Python iterator gives is handed on with the number of items before it; an
/// exception and the end are handed on as such, and are no items.
pub proof fn law_numbered_item(item: PyAny, exception: PyErr, position: usize)
    ensures
        numbered_item(Some(Ok(&item)), position) == Ok::<Option<(&PyAny, usize)>, PyErr>(
            Some((&item, position)),
        ),
        numbered_item(Some(Err(exception)), position) == Err::<Option<(&PyAny, usize)>, PyErr>(
            exception,
        ),
        numbered_item(None, position) == Ok::<Option<(&PyAny, usize)>, PyErr>(None),
        given(Ok(Some((&item, position)))) == 1,
        given(Ok(None)) == 0,
        given(Err(exception)) == 0,
{
}

/// What a call of an iterator over a Python object gives is what the Python iterator gave to the
/// ask of the same number.
pub proof fn law_item_as_given(
    iterator: PyIterator,
    asked: nat,
    position: nat,
    given: Option<Result<&PyAny, PyErr>>,
    item: Result<Option<(&PyAny, usize)>, PyErr>,
)
    requires
        forall|other: Option<Result<&PyAny, PyErr>>| #[trigger]
            ask_answered(iterator, asked, other) ==> other == given,
        item_numbered(iterator, asked, position, item),
    ensures
        match given {
            None => item matches Ok(None),
            Some(Err(exception)) => item == Err::<Option<(&PyAny, usize)>, PyErr>(exception),
            Some(Ok(object)) => item matches Ok(Some((found, number))) && *found == *object
                && number == position,
        },
{
}

/// A Python string has a text exactly when every code point of it is a character, and then it is
/// the text of these characters. Any other string has one fault, in the string as a whole.
pub proof fn law_string_text(string: PyString)
    ensures
        string_text(string) is Ok <==> forall|i: int|
            0 <= i < string_points(string).len() ==> !(0xD800 <= #[trigger] string_points(
                string,
            )[i] <= 0xDFFF),
        string_text(string) matches Ok(text) ==> text == lossy_text(string_points(string)),
        string_text(string) matches Err(error) ==> (error matches ErrorView::LineErrors(lines) && {
            &&& lines.len() == 1
            &&& lines[0].error_type == ErrorTypeView::StringUnicode
            &&& lines[0].location.len() == 0
            &&& lines[0].input_value == InputView::PyAny(string_object(string))
        }),
{
    if is_text(string_points(string)) {
        assert forall|i: int| 0 <= i < string_points(string).len() implies !(0xD800
            <= #[trigger] string_points(string)[i] <= 0xDFFF) by {
            assert(!is_surrogate(string_points(string)[i]));
        }
    }
}

/// A copy of an iterator over an array stands at the same place and goes on with the same items: it
/// has as many, and each has the same model.
pub proof fn law_copy_goes_on(copy: GenericJsonIterator, iterator: GenericJsonIterator, i: int)
    requires
        copy.same_as(&iterator),
    ensures
        copy.position() == iterator.position(),
        copy.wf() <==> iterator.wf(),
        copy.items().len() == iterator.items().len(),
        0 <= i < iterator.items().len() ==> copy.items()[i]@ == iterator.items()[i]@,
{
    assert(array_view(copy.items()).len() == array_view(iterator.items()).len());
    if 0 <= i < iterator.items().len() {
        assert(array_view(copy.items())[i] == array_view(iterator.items())[i]);
    }
}

} // verus!
