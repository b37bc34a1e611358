//! Parsed JSON.
use crate::python::{
    as_string, bool_value, dict_made, distinct_keys, handle_object, int_value, is_none,
    is_plain_string, key_count, list_made, make_bool, make_int, make_list, make_none, make_string,
    object_handle, output_finish, output_new, output_set_item, plain_keys, stored_entries,
    string_as_any, string_points, text_points, StoredEntry,
};
use pyo3::types::PyAny;
use pyo3::{Py, Python};
use vstd::prelude::*;

verus! {

/// A JSON value.
///
/// A number with a fraction or an exponent is carried as the Python `float` that stands for it.
#[derive(Debug)]
pub enum JsonInput {
    Null,
    Bool(bool),
    Int(i64),
    Float(Py<PyAny>),
    String(String),
    Array(JsonArray),
    Object(JsonObject),
}

pub type JsonArray = Vec<JsonInput>;

/// The members of a JSON object, in the order of the document.
pub type JsonObject = Vec<(String, JsonInput)>;

/// The model of a [`JsonInput`].
pub enum JsonView {
    Null,
    Bool(bool),
    Int(int),
    Float(Py<PyAny>),
    String(Seq<char>),
    Array(Seq<JsonView>),
    Object(Seq<MemberView>),
}

/// The model of a member of an object.
pub struct MemberView {
    pub name: Seq<char>,
    pub value: JsonView,
}

impl View for JsonInput {
    type V = JsonView;

    open spec fn view(&self) -> JsonView
        decreases self,
    {
        match self {
            JsonInput::Null => JsonView::Null,
            JsonInput::Bool(value) => JsonView::Bool(*value),
            JsonInput::Int(value) => JsonView::Int(*value as int),
            JsonInput::Float(value) => JsonView::Float(*value),
            JsonInput::String(text) => JsonView::String(text@),
            JsonInput::Array(items) => JsonView::Array(
                Seq::new(
                    items@.len(),
                    |i: int|
                        if 0 <= i < items@.len() {
                            items@[i]@
                        } else {
                            JsonView::Null
                        },
                ),
            ),
            JsonInput::Object(members) => JsonView::Object(
                Seq::new(
                    members@.len(),
                    |i: int|
                        if 0 <= i < members@.len() {
                            MemberView { name: members@[i].0@, value: members@[i].1@ }
                        } else {
                            MemberView { name: Seq::empty(), value: JsonView::Null }
                        },
                ),
            ),
        }
    }
}

/// The models of the items of an array.
pub open spec fn array_view(items: Seq<JsonInput>) -> Seq<JsonView> {
    Seq::new(items.len(), |i: int| items[i]@)
}

/// The models of the members of an object.
pub open spec fn object_view(members: Seq<(String, JsonInput)>) -> Seq<MemberView> {
    Seq::new(members.len(), |i: int| MemberView { name: members[i].0@, value: members[i].1@ })
}

/// An array is modelled item by item.
pub proof fn lemma_array_view(items: JsonArray)
    ensures
        JsonInput::Array(items)@ == JsonView::Array(array_view(items@)),
{
    assert(JsonInput::Array(items)@->Array_0 =~= array_view(items@));
}

/// An object is modelled member by member.
pub proof fn lemma_object_view(members: JsonObject)
    ensures
        JsonInput::Object(members)@ == JsonView::Object(object_view(members@)),
{
    let views = JsonInput::Object(members)@->Object_0;
    assert(views.len() == members@.len());
    assert(views =~= object_view(members@));
}

impl Clone for JsonInput {
    fn clone(&self) -> (copy: JsonInput)
        ensures
            copy@ == self@,
        decreases self,
    {
        match self {
            JsonInput::Null => JsonInput::Null,
            JsonInput::Bool(value) => JsonInput::Bool(*value),
            JsonInput::Int(value) => JsonInput::Int(*value),
            JsonInput::Float(value) => JsonInput::Float(value.clone()),
            JsonInput::String(text) => JsonInput::String(text.clone()),
            JsonInput::Array(items) => {
                let mut copies: JsonArray = Vec::new();
                for i in 0..items.len()
                    invariant
                        self matches JsonInput::Array(own) && own == items,
                        copies@.len() == i,
                        forall|j: int| 0 <= j < i ==> #[trigger] copies@[j]@ == items@[j]@,
                {
                    copies.push(items[i].clone());
                }
                proof {
                    lemma_array_view(*items);
                    lemma_array_view(copies);
                    assert(array_view(copies@) =~= array_view(items@));
                }
                JsonInput::Array(copies)
            },
            JsonInput::Object(members) => {
                let mut copies: JsonObject = Vec::new();
                for i in 0..members.len()
                    invariant
                        self matches JsonInput::Object(own) && own == members,
                        copies@.len() == i,
                        forall|j: int|
                            0 <= j < i ==> (#[trigger] copies@[j]).0@ == members@[j].0@
                                && copies@[j].1@ == members@[j].1@,
                {
                    copies.push((members[i].0.clone(), members[i].1.clone()));
                }
                proof {
                    lemma_object_view(*members);
                    lemma_object_view(copies);
                    assert(object_view(copies@) =~= object_view(members@));
                }
                JsonInput::Object(copies)
            },
        }
    }
}

/// Whether the object was made to stand for the text.
pub open spec fn text_object(text: Seq<char>, object: PyAny) -> bool {
    &&& is_plain_string(object)
    &&& as_string(object) matches Some(string)
    &&& string_points(string) == text_points(text)
}

/// Whether the object was made to stand for the JSON value: `None`, a `bool`, an `int`, a `float`,
/// a `str`, a list of what stands for the items, or a dictionary in which what stands for the
/// members was stored in their order.
pub open spec fn json_object(json: JsonView, object: PyAny) -> bool
    decreases json,
{
    match json {
        JsonView::Null => is_none(object),
        JsonView::Bool(value) => bool_value(object) == Some(value),
        JsonView::Int(value) => int_value(object) == Some(value),
        JsonView::Float(value) => object == handle_object(value),
        JsonView::String(text) => text_object(text, object),
        JsonView::Array(items) => exists|objects: Seq<PyAny>|
            {
                &&& #[trigger] list_made(object, objects)
                &&& objects.len() == items.len()
                &&& forall|i: int|
                    0 <= i < items.len() ==> json_object(items[i], #[trigger] objects[i])
            },
        JsonView::Object(members) => exists|entries: Seq<StoredEntry>, keys: nat|
            {
                &&& #[trigger] dict_made(object, entries, keys)
                &&& keys == distinct_keys(entries)
                &&& entries.len() == members.len()
                &&& forall|i: int|
                    0 <= i < members.len() ==> text_object(
                        members[i].name,
                        (#[trigger] entries[i]).key,
                    ) && json_object(members[i].value, entries[i].value)
            },
    }
}

impl JsonInput {
    /// Makes the Python object that stands for the value.
    pub fn to_object(&self, py: Python<'_>) -> (handle: Py<PyAny>)
        ensures
            json_object(self@, handle_object(handle)),
        decreases self,
    {
        match self {
            JsonInput::Null => make_none(py),
            JsonInput::Bool(value) => make_bool(*value, py),
            JsonInput::Int(value) => make_int(*value, py),
            JsonInput::Float(value) => value.clone(),
            JsonInput::String(text) => text_to_object(text.as_str(), py),
            JsonInput::Array(items) => {
                let mut handles: Vec<Py<PyAny>> = Vec::new();
                for i in 0..items.len()
                    invariant
                        self matches JsonInput::Array(own) && own == items,
                        handles@.len() == i,
                        forall|j: int|
                            0 <= j < i ==> json_object(
                                items@[j]@,
                                handle_object(#[trigger] handles@[j]),
                            ),
                {
                    handles.push(items[i].to_object(py));
                }
                let ghost objects = Seq::new(handles@.len(), |i: int| handle_object(handles@[i]));
                let list = make_list(py, handles);
                proof {
                    lemma_array_view(*items);
                    assert(list_made(handle_object(list), objects));
                }
                list
            },
            JsonInput::Object(members) => {
                let mut output = output_new(py, None);
                for i in 0..members.len()
                    invariant
                        self matches JsonInput::Object(own) && own == members,
                        stored_entries(output).len() == i,
                        plain_keys(stored_entries(output)),
                        key_count(output) == distinct_keys(stored_entries(output)),
                        forall|j: int|
                            0 <= j < i ==> text_object(
                                members@[j].0@,
                                (#[trigger] stored_entries(output)[j]).key,
                            ) && json_object(members@[j].1@, stored_entries(output)[j].value),
                {
                    let key = text_to_object(members[i].0.as_str(), py);
                    let value = members[i].1.to_object(py);
                    let ghost earlier = stored_entries(output);
                    let stored = output_set_item(&mut output, key, value);
                    assert(stored is Ok);
                    assert(stored_entries(output).drop_last() =~= earlier);
                }
                let ghost entries = stored_entries(output);
                let ghost keys = key_count(output);
                let dict = output_finish(output);
                proof {
                    lemma_object_view(*members);
                    assert(dict_made(handle_object(dict), entries, keys));
                }
                dict
            },
        }
    }
}

/// Makes the Python string that stands for the text.
pub fn text_to_object(text: &str, py: Python<'_>) -> (handle: Py<PyAny>)
    ensures
        text_object(text@, handle_object(handle)),
{
    object_handle(string_as_any(make_string(py, text)), py)
}

/// A JSON value is modelled as what it is: nothing, a truth value, a number, a text, the models of
/// its items in their order, or its members in their order, each with its name and the model of its
/// value.
pub proof fn law_json_view(
    truth: bool,
    number: i64,
    float: Py<PyAny>,
    text: String,
    items: JsonArray,
    members: JsonObject,
)
    ensures
        JsonInput::Null@ == JsonView::Null,
        JsonInput::Bool(truth)@ == JsonView::Bool(truth),
        JsonInput::Int(number)@ == JsonView::Int(number as int),
        JsonInput::Float(float)@ == JsonView::Float(float),
        JsonInput::String(text)@ == JsonView::String(text@),
        JsonInput::Array(items)@ matches JsonView::Array(views) && {
            &&& views.len() == items@.len()
            &&& forall|i: int| 0 <= i < items@.len() ==> #[trigger] views[i] == items@[i]@
        },
        JsonInput::Object(members)@ matches JsonView::Object(views) && {
            &&& views.len() == members@.len()
            &&& forall|i: int|
                0 <= i < members@.len() ==> (#[trigger] views[i]).name == members@[i].0@
                    && views[i].value == members@[i].1@
        },
        array_view(items@).len() == items@.len(),
        forall|i: int| 0 <= i < items@.len() ==> #[trigger] array_view(items@)[i] == items@[i]@,
        object_view(members@).len() == members@.len(),
        forall|i: int|
            0 <= i < members@.len() ==> (#[trigger] object_view(members@)[i]).name
                == members@[i].0@ && object_view(members@)[i].value == members@[i].1@,
{
    lemma_array_view(items);
    lemma_object_view(members);
}

/// A text stands for itself in Python: as a string of the class `str` itself, with a code point for
/// each of its characters.
pub proof fn law_text_object(text: Seq<char>, object: PyAny)
    requires
        text_object(text, object),
    ensures
        is_plain_string(object),
        as_string(object) matches Some(string) && {
            &&& string_points(string).len() == text.len()
            &&& forall|i: int|
                0 <= i < text.len() ==> #[trigger] string_points(string)[i] == text[i] as u32
        },
{
}

/// What stands for a JSON value in Python has the value of it: `None`, the same truth value, the
/// same number, the same `float`, the same text, a list with what stands for each item in its
/// place, or a dictionary in which, for each member in its place, what stands for its value was
/// stored under its name.
pub proof fn law_json_object(json: JsonView, object: PyAny)
    requires
        json_object(json, object),
    ensures
        match json {
            JsonView::Null => is_none(object),
            JsonView::Bool(truth) => bool_value(object) == Some(truth),
            JsonView::Int(number) => int_value(object) == Some(number),
            JsonView::Float(float) => object == handle_object(float),
            JsonView::String(text) => {
                &&& is_plain_string(object)
                &&& as_string(object) is Some
                &&& string_points(as_string(object)->0) == text_points(text)
            },
            JsonView::Array(items) => exists|objects: Seq<PyAny>|
                {
                    &&& #[trigger] list_made(object, objects)
                    &&& objects.len() == items.len()
                    &&& forall|i: int|
                        0 <= i < items.len() ==> json_object(items[i], #[trigger] objects[i])
                },
            JsonView::Object(members) => exists|entries: Seq<StoredEntry>, keys: nat|
                {
                    &&& #[trigger] dict_made(object, entries, keys)
                    &&& entries.len() == members.len()
                    &&& forall|i: int|
                        0 <= i < members.len() ==> {
                            &&& is_plain_string((#[trigger] entries[i]).key)
                            &&& as_string(entries[i].key) is Some
                            &&& string_points(as_string(entries[i].key)->0) == text_points(
                                members[i].name,
                            )
                            &&& json_object(members[i].value, entries[i].value)
                        }
                },
        },
{
    if let JsonView::Object(members) = json {
        let (entries, keys) = choose|entries: Seq<StoredEntry>, keys: nat|
            {
                &&& #[trigger] dict_made(object, entries, keys)
                &&& keys == distinct_keys(entries)
                &&& entries.len() == members.len()
                &&& forall|i: int|
                    0 <= i < members.len() ==> text_object(
                        members[i].name,
                        (#[trigger] entries[i]).key,
                    ) && json_object(members[i].value, entries[i].value)
            };
        assert forall|i: int| 0 <= i < members.len() implies {
            &&& is_plain_string((#[trigger] entries[i]).key)
            &&& as_string(entries[i].key) is Some
            &&& string_points(as_string(entries[i].key)->0) == text_points(members[i].name)
            &&& json_object(members[i].value, entries[i].value)
        } by {
            assert(text_object(members[i].name, entries[i].key));
        }
        assert(dict_made(object, entries, keys));
    }
}

} // verus!
