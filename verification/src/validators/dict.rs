//! The validator for dictionaries.
use crate::build_tools::{get_usize, is_strict, strict_read, usize_read};
use crate::errors::{
    length_check, length_error, line_views, single_error, ErrorView, LineView, LocItem, LocView,
    ValError, ValLineError, ValResult,
};
use crate::input::parse_json::{object_view, JsonObject};
use crate::input::return_enums::{
    dict_begun, entry_answered, mapping_begun, DictGenericIterator, EntrySource, EntryView,
    GenericEntries, GenericMapping, JsonObjectGenericIterator, MappingGenericIterator, MappingView,
};
use crate::input::{
    dict_answered, loc_answered, mapping_result_view, Input, InputValue, InputView, KeyInput,
};
use crate::python::{
    dict_get_item, dict_made, distinct_keys, handle_object, is_plain_string, item_answered,
    key_count, output_finish, output_len, output_new, output_object, output_set_item, plain_keys,
    store_settled, stored_entries, OutputDict, StoredEntry,
};
use crate::validators::{output_view, CombinedValidator, Extra, Validator};
use pyo3::types::{PyAny, PyDict, PyMapping};
use pyo3::{Py, PyErr, Python};
use vstd::prelude::*;

verus! {

/// Whether an output is another object than the input.
pub open spec fn is_another(input: InputView, output: Result<PyAny, ErrorView>) -> bool {
    match (input, output) {
        (InputView::PyAny(read), Ok(made)) => made != read,
        _ => true,
    }
}

/// Validates every key and every value of a dictionary.
#[derive(Debug)]
pub struct DictValidator<V> {
    strict: bool,
    key_validator: Box<V>,
    value_validator: Box<V>,
    min_length: Option<usize>,
    max_length: Option<usize>,
    name: String,
}

impl<V> DictValidator<V> {
    /// Whether only a `dict` passes for a dictionary, where nothing else is said.
    pub closed spec fn strict(&self) -> bool {
        self.strict
    }

    /// The validator for the keys.
    pub closed spec fn key_validator(&self) -> V {
        *self.key_validator
    }

    /// The validator for the values.
    pub closed spec fn value_validator(&self) -> V {
        *self.value_validator
    }

    /// The least number of entries of the output.
    pub closed spec fn min_length(&self) -> Option<usize> {
        self.min_length
    }

    /// The greatest number of entries of the output.
    pub closed spec fn max_length(&self) -> Option<usize> {
        self.max_length
    }

    /// The name of the validator.
    pub closed spec fn full_name(&self) -> Seq<char> {
        self.name@
    }
}

/// The step that a fault of a key itself is reported under.
pub const KEY_LOCATION: &'static str = "[key]";

/// A fault of a part of an entry, seen from the dictionary. A fault of the key is told from one of
/// the value by one more step.
pub open spec fn located_line(line: LineView, loc: LocView, at_key: bool) -> LineView {
    if at_key {
        line.within(LocView::S(KEY_LOCATION@)).within(loc)
    } else {
        line.within(loc)
    }
}

/// Whether the fault of a part of the entry with that key is reported so.
pub open spec fn is_located(
    line: LineView,
    key: InputView,
    at_key: bool,
    located: LineView,
) -> bool {
    exists|loc: LocView|
        {
            &&& #[trigger] loc_answered(key, loc)
            &&& located == located_line(line, loc, at_key)
        }
}

/// Whether the faults of a part of an entry are reported so, one by one and in their order.
pub open spec fn located_lines(
    lines: Seq<LineView>,
    key: InputView,
    at_key: bool,
    located: Seq<LineView>,
) -> bool {
    &&& located.len() == lines.len()
    &&& forall|i: int|
        0 <= i < lines.len() ==> is_located(lines[i], key, at_key, #[trigger] located[i])
}

/// What becomes of a part of an entry.
pub enum Judged<'a> {
    /// The part is accepted, and this object stands for it.
    Accepted(Py<PyAny>),
    /// The part is at fault, and its faults are noted.
    Faulty,
    /// The entry is left out.
    Omitted,
    /// The validation ends.
    Failed(ValError<'a>),
}

/// Notes the faults of a part of an entry.
pub fn note_lines<'a, K: KeyInput<'a>>(
    line_errors: Vec<ValLineError<'a>>,
    key: &'a K,
    at_key: bool,
    errors: &mut Vec<ValLineError<'a>>,
)
    ensures
        exists|located: Seq<LineView>|
            {
                &&& #[trigger] located_lines(
                    line_views(line_errors@),
                    key.as_view(),
                    at_key,
                    located,
                )
                &&& line_views(final(errors)@) == line_views(old(errors)@) + located
            },
{
    let ghost before = line_views(errors@);
    let ghost lines = line_views(line_errors@);
    let ghost mut located: Seq<LineView> = Seq::empty();
    assert(before + located =~= before);
    for err in it: line_errors
        invariant
            located.len() == it.index(),
            lines.len() == it.seq().len(),
            forall|i: int| 0 <= i < lines.len() ==> lines[i] == it.seq()[i]@,
            line_views(errors@) == before + located,
            forall|i: int|
                0 <= i < located.len() ==> is_located(
                    lines[i],
                    key.as_view(),
                    at_key,
                    #[trigger] located[i],
                ),
    {
        let inner = if at_key {
            err.with_outer_location(LocItem::S(KEY_LOCATION.to_owned()))
        } else {
            err
        };
        let loc = key.as_loc_item();
        let ghost loc_view = loc@;
        let outer = inner.with_outer_location(loc);
        let ghost noted = errors@;
        errors.push(outer);
        proof {
            assert(loc_answered(key.as_view(), loc_view));
            let previous = located;
            located = located.push(outer@);
            assert(is_located(lines[previous.len() as int], key.as_view(), at_key, outer@));
            assert(line_views(errors@) =~= line_views(noted).push(outer@));
            assert(before + located =~= (before + previous).push(outer@));
        }
    }
    assert(located.len() == lines.len());
    assert(located_lines(lines, key.as_view(), at_key, located));
}

/// The faults that the output of a part of an entry adds to the report.
pub open spec fn noted_lines(
    output: Result<PyAny, ErrorView>,
    key: InputView,
    at_key: bool,
    noted: Seq<LineView>,
) -> bool {
    match output {
        Err(ErrorView::LineErrors(lines)) => located_lines(lines, key, at_key, noted),
        _ => noted == Seq::<LineView>::empty(),
    }
}

/// Decides what becomes of a part of an entry, and notes its faults.
pub fn judge<'a, K: KeyInput<'a>>(
    output: ValResult<'a, Py<PyAny>>,
    key: &'a K,
    at_key: bool,
    errors: &mut Vec<ValLineError<'a>>,
) -> (judged: Judged<'a>)
    ensures
        match output {
            Ok(handle) => judged == Judged::Accepted(handle),
            Err(ValError::LineErrors(_)) => judged is Faulty,
            Err(ValError::Omit) => judged is Omitted,
            Err(error) => judged == Judged::Failed(error),
        },
        exists|noted: Seq<LineView>|
            {
                &&& #[trigger] noted_lines(output_view(output), key.as_view(), at_key, noted)
                &&& line_views(final(errors)@) == line_views(old(errors)@) + noted
            },
{
    let ghost before = line_views(errors@);
    assert(before =~= before + Seq::<LineView>::empty());
    match output {
        Ok(handle) => {
            assert(noted_lines(output_view(output), key.as_view(), at_key, Seq::empty()));
            Judged::Accepted(handle)
        },
        Err(ValError::LineErrors(line_errors)) => {
            note_lines(line_errors, key, at_key, errors);
            proof {
                let located = choose|located: Seq<LineView>|
                    {
                        &&& #[trigger] located_lines(
                            line_views(line_errors@),
                            key.as_view(),
                            at_key,
                            located,
                        )
                        &&& line_views(errors@) == before + located
                    };
                assert(noted_lines(output_view(output), key.as_view(), at_key, located));
            }
            Judged::Faulty
        },
        Err(ValError::Omit) => {
            assert(noted_lines(output_view(output), key.as_view(), at_key, Seq::empty()));
            Judged::Omitted
        },
        Err(error) => {
            assert(noted_lines(output_view(output), key.as_view(), at_key, Seq::empty()));
            Judged::Failed(error)
        },
    }
}

/// How an entry went through the validation: its key and its value, what the validators gave for
/// them, what was noted, and the guard before the key, between key and value, and after the value.
pub struct EntryRecord<G> {
    pub key: InputView,
    pub value: InputView,
    pub before: G,
    pub between: G,
    pub after: G,
    pub key_output: Result<PyAny, ErrorView>,
    pub key_lines: Seq<LineView>,
    /// Missing where the key left the entry out.
    pub value_output: Option<Result<PyAny, ErrorView>>,
    pub value_lines: Seq<LineView>,
}

impl<G> EntryRecord<G> {
    /// The entry.
    pub open spec fn entry(self) -> EntryView {
        EntryView { key: self.key, value: self.value }
    }

    /// The faults that the entry adds to the report: those of the key, then those of the value.
    pub open spec fn lines(self) -> Seq<LineView> {
        self.key_lines + self.value_lines
    }

    /// What the entry adds to the output: what stands for the key and for the value, where both
    /// are accepted.
    pub open spec fn stored(self) -> Seq<StoredEntry> {
        match (self.key_output, self.value_output) {
            (Ok(key), Some(Ok(value))) => seq![StoredEntry { key, value }],
            _ => Seq::empty(),
        }
    }
}

/// Whether the validator ended the validation, which it does neither by a fault nor by leaving the
/// entry out.
pub open spec fn is_failure(output: Result<PyAny, ErrorView>) -> bool {
    output matches Err(error) && error is InternalErr
}

/// Whether the validator left the entry out.
pub open spec fn is_omission(output: Result<PyAny, ErrorView>) -> bool {
    output matches Err(error) && error is Omit
}

impl<V: Validator> DictValidator<V> {
    /// Whether the key of the entry went through the key validator so.
    pub open spec fn key_recorded(&self, extra: Extra, record: EntryRecord<V::Guard>) -> bool {
        &&& self.key_validator().answers(
            record.key,
            extra,
            record.before,
            record.key_output,
            record.between,
        )
        &&& noted_lines(record.key_output, record.key, true, record.key_lines)
    }

    /// Whether the entry went through the validators so: an entry that the key leaves out is left
    /// there, and any other comes to the value.
    pub open spec fn entry_recorded(&self, extra: Extra, record: EntryRecord<V::Guard>) -> bool {
        &&& self.key_recorded(extra, record)
        &&& match record.value_output {
            None => {
                &&& is_omission(record.key_output) || is_failure(record.key_output)
                &&& record.after == record.between
                &&& record.value_lines == Seq::<LineView>::empty()
            },
            Some(output) => {
                &&& !is_omission(record.key_output) && !is_failure(record.key_output)
                &&& self.value_validator().answers(
                    record.value,
                    extra,
                    record.between,
                    output,
                    record.after,
                )
                &&& noted_lines(output, record.key, false, record.value_lines)
            },
        }
    }

    /// Whether the entry went through without ending the validation.
    pub open spec fn entry_passed(&self, extra: Extra, record: EntryRecord<V::Guard>) -> bool {
        &&& self.entry_recorded(extra, record)
        &&& !is_failure(record.key_output)
        &&& record.value_output matches Some(output) ==> !is_failure(output)
    }

    /// Whether the entries of the source went through one after the other so, each stored before
    /// the next is asked for.
    pub open spec fn walked(
        &self,
        source: EntrySource,
        extra: Extra,
        first: V::Guard,
        walk: Seq<EntryRecord<V::Guard>>,
    ) -> bool
        decreases walk.len(),
    {
        walk.len() > 0 ==> {
            let earlier = walk.drop_last();
            let record = walk.last();
            &&& self.walked(source, extra, first, earlier)
            &&& entry_answered(source, earlier.len(), Some(Ok(record.entry())))
            &&& record.before == guard_after(first, earlier)
            &&& self.entry_passed(extra, record)
            &&& record.stored().len() > 0 ==> store_settled(
                walk_stored(earlier),
                record.stored()[0],
                Ok(()),
            )
        }
    }

    /// Whether the validation ends with the error after those entries.
    pub open spec fn stopped(
        &self,
        source: EntrySource,
        extra: Extra,
        first: V::Guard,
        walk: Seq<EntryRecord<V::Guard>>,
        error: ErrorView,
        last: V::Guard,
    ) -> bool {
        ||| {
            // The source fails.
            &&& entry_answered(source, walk.len(), Some(Err(error)))
            &&& last == guard_after(first, walk)
        }
        ||| exists|record: EntryRecord<V::Guard>|
            {
                &&& #[trigger] self.entry_recorded(extra, record)
                &&& entry_answered(source, walk.len(), Some(Ok(record.entry())))
                &&& record.before == guard_after(first, walk)
                &&& record.after == last
                &&& self.entry_stops(extra, walk_stored(walk), record, error)
            }
    }

    /// Whether the entry ends the validation with the error: the validator for the key fails, or
    /// the one for the value, or the entry cannot be stored.
    pub open spec fn entry_stops(
        &self,
        extra: Extra,
        stored: Seq<StoredEntry>,
        record: EntryRecord<V::Guard>,
        error: ErrorView,
    ) -> bool {
        ||| is_failure(record.key_output) && record.key_output == Err::<PyAny, ErrorView>(error)
        ||| record.value_output matches Some(output) && is_failure(output) && output == Err::<
            PyAny,
            ErrorView,
        >(error)
        ||| {
            &&& self.entry_passed(extra, record)
            &&& record.stored().len() > 0
            &&& error matches ErrorView::InternalErr(exception)
            &&& store_settled(stored, record.stored()[0], Err(exception))
        }
    }

    /// Whether the validator may give `output` for the entries of the source.
    ///
    /// The entries go through one after the other until one of them, or the source, ends the
    /// validation with an error. When all are through, the faults that were noted are the result;
    /// where there are none, it is the dictionary in which the accepted entries were stored, if
    /// its length is within the bounds.
    pub open spec fn answers_source(
        &self,
        input: InputView,
        source: EntrySource,
        extra: Extra,
        before: V::Guard,
        output: Result<PyAny, ErrorView>,
        after: V::Guard,
    ) -> bool {
        exists|walk: Seq<EntryRecord<V::Guard>>|
            {
                &&& #[trigger] self.walked(source, extra, before, walk)
                &&& {
                    ||| output matches Err(error) && self.stopped(
                        source,
                        extra,
                        before,
                        walk,
                        error,
                        after,
                    )
                    ||| {
                        &&& entry_answered(source, walk.len(), None)
                        &&& after == guard_after(before, walk)
                        &&& self.concludes(input, walk_lines(walk), walk_stored(walk), output)
                    }
                }
            }
    }

    /// Whether `output` is the result once all entries are through.
    pub open spec fn concludes(
        &self,
        input: InputView,
        lines: Seq<LineView>,
        stored: Seq<StoredEntry>,
        output: Result<PyAny, ErrorView>,
    ) -> bool {
        if lines.len() > 0 {
            output == Err::<PyAny, ErrorView>(ErrorView::LineErrors(lines))
        } else {
            exists|length: nat|
                {
                    &&& #[trigger] can_hold(stored, length)
                    &&& match length_error(
                        DICT_FIELD_TYPE@,
                        self.min_length(),
                        self.max_length(),
                        length as int,
                    ) {
                        Some(error_type) => output == Err::<PyAny, ErrorView>(
                            single_error(error_type, input),
                        ),
                        None => output matches Ok(object) && dict_made(object, stored, length),
                    }
                }
        }
    }
}

/// What a dictionary is called where its length is at fault.
pub const DICT_FIELD_TYPE: &'static str = "Dictionary";

/// Whether a dictionary in which those entries were stored has been found to have that many keys.
/// Where the keys are of the class `str` itself, it is the number of different texts among them.
pub open spec fn can_hold(stored: Seq<StoredEntry>, length: nat) -> bool {
    &&& length <= stored.len()
    &&& stored.len() > 0 ==> length > 0
    &&& plain_keys(stored) ==> length == distinct_keys(stored)
    &&& exists|output: OutputDict<'static>|
        {
            &&& #[trigger] stored_entries(output) == stored
            &&& key_count(output) == length
        }
}

/// The guard after the entries.
pub open spec fn guard_after<G>(first: G, walk: Seq<EntryRecord<G>>) -> G {
    if walk.len() == 0 {
        first
    } else {
        walk.last().after
    }
}

/// The faults of all the entries, in the order of the entries.
pub open spec fn walk_lines<G>(walk: Seq<EntryRecord<G>>) -> Seq<LineView>
    decreases walk.len(),
{
    if walk.len() == 0 {
        Seq::empty()
    } else {
        walk_lines(walk.drop_last()) + walk.last().lines()
    }
}

/// What all the entries add to the output, in the order of the entries.
pub open spec fn walk_stored<G>(walk: Seq<EntryRecord<G>>) -> Seq<StoredEntry>
    decreases walk.len(),
{
    if walk.len() == 0 {
        Seq::empty()
    } else {
        walk_stored(walk.drop_last()) + walk.last().stored()
    }
}

impl<V: Validator> DictValidator<V> {
    /// Validates the entries one after the other.
    fn validate_entries<'data, I: Input<'data>, E: GenericEntries<'data> + 'data>(
        &self,
        py: Python<'data>,
        input: &'data I,
        entries: E,
        extra: &Extra,
        recursion_guard: &mut V::Guard,
    ) -> (output: ValResult<'data, Py<PyAny>>)
        requires
            entries.wf(),
            entries.position() == 0,
        ensures
            self.answers_source(
                input.as_view(),
                entries.source(),
                *extra,
                *old(recursion_guard),
                output_view(output),
                *final(recursion_guard),
            ),
            is_another(input.as_view(), output_view(output)),
    {
        let ghost source = entries.source();
        let mut remaining = entries;
        let read = match input.as_error_value() {
            InputValue::PyAny(object) => Some(object),
            _ => None,
        };
        let mut output = output_new(py, read);
        let mut errors: Vec<ValLineError<'data>> = Vec::new();
        let ghost first = *recursion_guard;
        let ghost mut walk: Seq<EntryRecord<V::Guard>> = Seq::empty();
        assert(line_views(errors@) =~= Seq::<LineView>::empty());
        loop
            invariant_except_break
                remaining.wf(),
                remaining.position() == walk.len(),
            invariant
                source == entries.source(),
                remaining.source() == source,
                first == *old(recursion_guard),
                self.walked(source, *extra, first, walk),
                *recursion_guard == guard_after(first, walk),
                line_views(errors@) == walk_lines(walk),
                stored_entries(output) == walk_stored(walk),
                key_count(output) <= stored_entries(output).len(),
                stored_entries(output).len() > 0 ==> key_count(output) > 0,
                plain_keys(stored_entries(output)) ==> key_count(output) == distinct_keys(
                    stored_entries(output),
                ),
                input.as_view() matches InputView::PyAny(object) ==> output_object(output)
                    != object,
            ensures
                entry_answered(source, walk.len(), None),
            decreases remaining.budget(),
        {
            let (key, value) = match remaining.next() {
                None => {
                    break;
                },
                Some(Err(error)) => {
                    return Err(error);
                },
                Some(Ok(entry)) => entry,
            };
            let ghost before = *recursion_guard;
            let ghost lines = line_views(errors@);
            let key_result = self.key_validator.validate(py, key, extra, recursion_guard);
            let ghost between = *recursion_guard;
            let ghost key_output = output_view(key_result);
            let output_key = judge(key_result, key, true, &mut errors);
            let ghost key_lines = choose|noted: Seq<LineView>|
                {
                    &&& #[trigger] noted_lines(key_output, key.as_view(), true, noted)
                    &&& line_views(errors@) == lines + noted
                };
            let ghost mut record = EntryRecord {
                key: key.as_view(),
                value: value.as_view(),
                before,
                between,
                after: between,
                key_output,
                key_lines,
                value_output: None,
                value_lines: Seq::empty(),
            };
            let accepted_key = match output_key {
                Judged::Accepted(handle) => Some(handle),
                Judged::Faulty => None,
                Judged::Omitted => {
                    proof {
                        assert(self.entry_passed(*extra, record));
                        lemma_walk_push(walk, record);
                        walk = walk.push(record);
                    }
                    continue;
                },
                Judged::Failed(error) => {
                    assert(self.entry_recorded(*extra, record));
                    return Err(error);
                },
            };
            let value_result = self.value_validator.validate(py, value, extra, recursion_guard);
            let ghost value_output = output_view(value_result);
            let output_value = judge(value_result, key, false, &mut errors);
            let ghost value_lines = choose|noted: Seq<LineView>|
                {
                    &&& #[trigger] noted_lines(value_output, key.as_view(), false, noted)
                    &&& line_views(errors@) == lines + key_lines + noted
                };
            proof {
                record = EntryRecord {
                    after: *recursion_guard,
                    value_output: Some(value_output),
                    value_lines,
                    ..record
                };
                assert(self.entry_recorded(*extra, record));
                lemma_walk_push(walk, record);
                assert(lines + key_lines + value_lines =~= lines + record.lines());
            }
            let accepted_value = match output_value {
                Judged::Accepted(handle) => Some(handle),
                Judged::Faulty => None,
                Judged::Omitted => {
                    proof {
                        assert(self.entry_passed(*extra, record));
                        walk = walk.push(record);
                    }
                    continue;
                },
                Judged::Failed(error) => {
                    return Err(error);
                },
            };
            assert(self.entry_passed(*extra, record));
            if let (Some(output_key), Some(output_value)) = (accepted_key, accepted_value) {
                let ghost earlier = stored_entries(output);
                let ghost entry = StoredEntry {
                    key: handle_object(output_key),
                    value: handle_object(output_value),
                };
                let answer = output_set_item(&mut output, output_key, output_value);
                assert(store_settled(earlier, entry, answer));
                match answer {
                    Ok(unit) => {
                        assert(unit == ());
                    },
                    Err(error) => {
                        return Err(ValError::InternalErr(error));
                    },
                }
                assert(record.stored()[0] == entry);
                assert(earlier.push(entry) =~= earlier + record.stored());
                proof {
                    let stored = stored_entries(output);
                    assert(stored.drop_last() =~= earlier);
                    if plain_keys(stored) {
                        assert forall|i: int| 0 <= i < earlier.len() implies is_plain_string(
                            (#[trigger] earlier[i]).key,
                        ) by {
                            assert(stored[i] == earlier[i]);
                        }
                    }
                }
            }
            proof {
                walk = walk.push(record);
            }
        }
        if errors.len() == 0 {
            let length = output_len(&output);
            assert(can_hold(walk_stored(walk), length as nat));
            match length_check(input, DICT_FIELD_TYPE, self.min_length, self.max_length, length) {
                Ok(()) => Ok(output_finish(output)),
                Err(error) => Err(error),
            }
        } else {
            Err(ValError::LineErrors(errors))
        }
    }
}

/// One more entry adds its own faults and its own part of the output.
proof fn lemma_walk_push<G>(walk: Seq<EntryRecord<G>>, record: EntryRecord<G>)
    ensures
        walk.push(record).drop_last() == walk,
        walk.push(record).last() == record,
        walk_lines(walk.push(record)) == walk_lines(walk) + record.lines(),
        walk_stored(walk.push(record)) == walk_stored(walk) + record.stored(),
        guard_after(record.before, walk.push(record)) == record.after,
{
    assert(walk.push(record).drop_last() =~= walk);
}

/// Whether a walk over the entries of the mapping has begun so.
pub open spec fn source_begun(mapping: MappingView, begun: Result<EntrySource, ErrorView>) -> bool {
    match mapping {
        MappingView::PyDict(dict) => dict_begun(dict, begun),
        MappingView::PyMapping(mapping) => mapping_begun(mapping, begun),
        MappingView::JsonObject(members) => begun == Ok::<EntrySource, ErrorView>(
            EntrySource::Json(members),
        ),
        MappingView::PyGetAttr(_, _) => false,
    }
}

impl<V: Validator> DictValidator<V> {
    /// Whether a validation is strict: as it is told, or else as the validator is.
    pub open spec fn is_strict(&self, extra: Extra) -> bool {
        match extra.strict {
            Some(strict) => strict,
            None => self.strict(),
        }
    }

    /// Whether the validator may give `output` for the entries of the mapping.
    pub open spec fn answers_mapping(
        &self,
        input: InputView,
        mapping: MappingView,
        extra: Extra,
        before: V::Guard,
        output: Result<PyAny, ErrorView>,
        after: V::Guard,
    ) -> bool {
        exists|begun: Result<EntrySource, ErrorView>|
            {
                &&& #[trigger] source_begun(mapping, begun)
                &&& match begun {
                    Err(error) => output == Err::<PyAny, ErrorView>(error) && after == before,
                    Ok(source) => self.answers_source(
                        input,
                        source,
                        extra,
                        before,
                        output,
                        after,
                    ),
                }
            }
    }

    /// Validates the entries of a Python dictionary.
    fn validate_dict<'data, I: Input<'data>>(
        &self,
        py: Python<'data>,
        input: &'data I,
        dict: &'data PyDict,
        extra: &Extra,
        recursion_guard: &mut V::Guard,
    ) -> (output: ValResult<'data, Py<PyAny>>)
        ensures
            self.answers_mapping(
                input.as_view(),
                MappingView::PyDict(*dict),
                *extra,
                *old(recursion_guard),
                output_view(output),
                *final(recursion_guard),
            ),
            is_another(input.as_view(), output_view(output)),
    {
        match DictGenericIterator::new(dict) {
            Ok(entries) => {
                assert(source_begun(MappingView::PyDict(*dict), Ok(entries.source())));
                self.validate_entries(py, input, entries, extra, recursion_guard)
            },
            Err(error) => {
                assert(source_begun(MappingView::PyDict(*dict), Err(error@)));
                Err(error)
            },
        }
    }

    /// Validates the entries of a Python mapping.
    fn validate_mapping<'data, I: Input<'data>>(
        &self,
        py: Python<'data>,
        input: &'data I,
        dict: &'data PyMapping,
        extra: &Extra,
        recursion_guard: &mut V::Guard,
    ) -> (output: ValResult<'data, Py<PyAny>>)
        ensures
            self.answers_mapping(
                input.as_view(),
                MappingView::PyMapping(*dict),
                *extra,
                *old(recursion_guard),
                output_view(output),
                *final(recursion_guard),
            ),
            is_another(input.as_view(), output_view(output)),
    {
        match MappingGenericIterator::new(dict) {
            Ok(entries) => {
                assert(source_begun(MappingView::PyMapping(*dict), Ok(entries.source())));
                self.validate_entries(py, input, entries, extra, recursion_guard)
            },
            Err(error) => {
                assert(source_begun(MappingView::PyMapping(*dict), Err(error@)));
                Err(error)
            },
        }
    }

    /// Validates the members of a JSON object.
    fn validate_json_object<'data, I: Input<'data>>(
        &self,
        py: Python<'data>,
        input: &'data I,
        dict: &'data JsonObject,
        extra: &Extra,
        recursion_guard: &mut V::Guard,
    ) -> (output: ValResult<'data, Py<PyAny>>)
        ensures
            self.answers_mapping(
                input.as_view(),
                MappingView::JsonObject(object_view(dict@)),
                *extra,
                *old(recursion_guard),
                output_view(output),
                *final(recursion_guard),
            ),
            is_another(input.as_view(), output_view(output)),
    {
        match JsonObjectGenericIterator::new(dict) {
            Ok(entries) => {
                assert(source_begun(
                    MappingView::JsonObject(object_view(dict@)),
                    Ok(entries.source()),
                ));
                self.validate_entries(py, input, entries, extra, recursion_guard)
            },
            Err(error) => Err(error),
        }
    }
}

impl<V: Validator> Validator for DictValidator<V> {
    type Guard = V::Guard;

    open spec fn answers(
        &self,
        input: InputView,
        extra: Extra,
        before: V::Guard,
        output: Result<PyAny, ErrorView>,
        after: V::Guard,
    ) -> bool {
        &&& is_another(input, output)
        &&& exists|mapping: Result<MappingView, ErrorView>|
            {
                &&& #[trigger] dict_answered(input, self.is_strict(extra), mapping)
                &&& match mapping {
                    Err(error) => output == Err::<PyAny, ErrorView>(error) && after == before,
                    Ok(mapping) => self.answers_mapping(
                        input,
                        mapping,
                        extra,
                        before,
                        output,
                        after,
                    ),
                }
            }
    }

    /// Beyond the children, being strict makes a difference: only a `dict` is then accepted.
    open spec fn strict_differs(&self, ultra_strict: bool) -> bool {
        ultra_strict ==> {
            ||| self.key_validator().strict_differs(true)
            ||| self.value_validator().strict_differs(true)
        }
    }

    open spec fn name(&self) -> Seq<char> {
        self.full_name()
    }

    fn validate<'data, I: Input<'data>>(
        &self,
        py: Python<'data>,
        input: &'data I,
        extra: &Extra,
        recursion_guard: &mut V::Guard,
    ) -> (output: ValResult<'data, Py<PyAny>>) {
        let strict = match extra.strict {
            Some(strict) => strict,
            None => self.strict,
        };
        let mapping = input.validate_dict(strict);
        assert(dict_answered(
            input.as_view(),
            self.is_strict(*extra),
            mapping_result_view(mapping),
        ));
        match mapping {
            Err(error) => Err(error),
            Ok(GenericMapping::PyDict(dict)) => self.validate_dict(
                py,
                input,
                dict,
                extra,
                recursion_guard,
            ),
            Ok(GenericMapping::PyMapping(mapping)) => self.validate_mapping(
                py,
                input,
                mapping,
                extra,
                recursion_guard,
            ),
            Ok(GenericMapping::PyGetAttr(_, _)) => {
                assert(false);
                vstd::pervasive::unreached()
            },
            Ok(GenericMapping::JsonObject(json_object)) => self.validate_json_object(
                py,
                input,
                json_object,
                extra,
                recursion_guard,
            ),
        }
    }

    fn different_strict_behavior(&self, ultra_strict: bool) -> (differs: bool) {
        if ultra_strict {
            self.key_validator.different_strict_behavior(true)
                || self.value_validator.different_strict_behavior(true)
        } else {
            true
        }
    }

    fn get_name(&self) -> (name: &str) {
        self.name.as_str()
    }
}

/// The type that a schema for dictionaries names.
pub const EXPECTED_TYPE: &'static str = "dict";

/// The name of a validator for dictionaries, made of the names of its children.
pub open spec fn dict_name(key_name: Seq<char>, value_name: Seq<char>) -> Seq<char> {
    EXPECTED_TYPE@ + "["@ + key_name + ","@ + value_name + "]"@
}

impl<V: CombinedValidator> DictValidator<V> {
    /// Whether making the child that the schema describes under the key may give `child`: what
    /// stands there describes it, and where nothing stands there the child accepts anything.
    pub open spec fn child_built(
        schema: PyDict,
        key: Seq<char>,
        config: Option<&PyDict>,
        before: V::Definitions,
        child: Result<V, PyErr>,
        after: V::Definitions,
    ) -> bool {
        exists|item: Option<&PyAny>|
            {
                &&& #[trigger] item_answered(schema, key, item)
                &&& match item {
                    Some(item) => V::built(*item, config, before, child, after),
                    None => V::any_built(schema, config, before, child, after),
                }
            }
    }

    /// Whether making the validator that the schema describes may give `validator`. The child for
    /// the keys is made first, then the one for the values; then strictness and the two bounds are
    /// read. The first of these that fails ends it.
    pub open spec fn built(
        schema: PyDict,
        config: Option<&PyDict>,
        before: V::Definitions,
        validator: Result<DictValidator<V>, PyErr>,
        after: V::Definitions,
    ) -> bool {
        exists|key: Result<V, PyErr>, between: V::Definitions|
            {
                &&& #[trigger] Self::child_built(
                    schema,
                    "keys_schema"@,
                    config,
                    before,
                    key,
                    between,
                )
                &&& match key {
                    Err(exception) => {
                        &&& validator == Err::<DictValidator<V>, PyErr>(exception)
                        &&& after == between
                    },
                    Ok(key) => Self::built_with_key(
                        schema,
                        config,
                        key,
                        between,
                        validator,
                        after,
                    ),
                }
            }
    }

    /// Whether making the validator may go on so once the child for the keys is made.
    pub open spec fn built_with_key(
        schema: PyDict,
        config: Option<&PyDict>,
        key: V,
        before: V::Definitions,
        validator: Result<DictValidator<V>, PyErr>,
        after: V::Definitions,
    ) -> bool {
        exists|value: Result<V, PyErr>|
            {
                &&& #[trigger] Self::child_built(
                    schema,
                    "values_schema"@,
                    config,
                    before,
                    value,
                    after,
                )
                &&& match value {
                    Err(exception) => validator == Err::<DictValidator<V>, PyErr>(exception),
                    Ok(value) => Self::built_with_children(schema, config, key, value, validator),
                }
            }
    }

    /// Whether making the validator may end so once its children are made.
    pub open spec fn built_with_children(
        schema: PyDict,
        config: Option<&PyDict>,
        key: V,
        value: V,
        validator: Result<DictValidator<V>, PyErr>,
    ) -> bool {
        match validator {
            Ok(validator) => {
                &&& validator.key_validator() == key
                &&& validator.value_validator() == value
                &&& validator.full_name() == dict_name(key.name(), value.name())
                &&& strict_read(schema, config, Ok(validator.strict()))
                &&& usize_read(schema, "min_length"@, Ok(validator.min_length()))
                &&& usize_read(schema, "max_length"@, Ok(validator.max_length()))
            },
            Err(exception) => {
                ||| strict_read(schema, config, Err(exception))
                ||| {
                    &&& exists|strict: bool| #[trigger] strict_read(schema, config, Ok(strict))
                    &&& usize_read(schema, "min_length"@, Err(exception))
                }
                ||| {
                    &&& exists|strict: bool| #[trigger] strict_read(schema, config, Ok(strict))
                    &&& exists|min_length: Option<usize>| #[trigger]
                        usize_read(schema, "min_length"@, Ok(min_length))
                    &&& usize_read(schema, "max_length"@, Err(exception))
                }
            },
        }
    }

    /// Makes the child that the schema describes under the key.
    fn build_child(
        schema: &PyDict,
        key: &str,
        config: Option<&PyDict>,
        definitions: &mut V::Definitions,
    ) -> (child: Result<V, PyErr>)
        ensures
            Self::child_built(
                *schema,
                key@,
                config,
                *old(definitions),
                child,
                *final(definitions),
            ),
    {
        match dict_get_item(schema, key) {
            Some(item) => V::build_validator(item, config, definitions),
            None => V::build_any(schema, config, definitions),
        }
    }

    /// Makes the validator that the schema describes.
    pub fn build(
        schema: &PyDict,
        config: Option<&PyDict>,
        definitions: &mut V::Definitions,
    ) -> (validator: Result<DictValidator<V>, PyErr>)
        ensures
            Self::built(*schema, config, *old(definitions), validator, *final(definitions)),
    {
        let key = Self::build_child(schema, "keys_schema", config, definitions);
        let ghost between = *definitions;
        assert(Self::child_built(
            *schema,
            "keys_schema"@,
            config,
            *old(definitions),
            key,
            between,
        ));
        let key_validator = match key {
            Ok(key_validator) => key_validator,
            Err(e) => {
                return Err(e);
            },
        };
        let value = Self::build_child(schema, "values_schema", config, definitions);
        assert(Self::child_built(
            *schema,
            "values_schema"@,
            config,
            between,
            value,
            *definitions,
        ));
        let value_validator = match value {
            Ok(value_validator) => value_validator,
            Err(e) => {
                return Err(e);
            },
        };
        let strict = match is_strict(schema, config) {
            Ok(strict) => strict,
            Err(e) => {
                return Err(e);
            },
        };
        let min_length = match get_usize(schema, "min_length") {
            Ok(min_length) => min_length,
            Err(e) => {
                return Err(e);
            },
        };
        let max_length = match get_usize(schema, "max_length") {
            Ok(max_length) => max_length,
            Err(e) => {
                return Err(e);
            },
        };
        Ok(DictValidator::new(strict, key_validator, value_validator, min_length, max_length))
    }
}

impl<V: Validator> DictValidator<V> {
    /// The validators for the keys and for the values.
    pub fn children(&self) -> (children: (&V, &V))
        ensures
            *children.0 == self.key_validator(),
            *children.1 == self.value_validator(),
    {
        (&self.key_validator, &self.value_validator)
    }

    /// A validator with the given children and bounds.
    pub fn new(
        strict: bool,
        key_validator: V,
        value_validator: V,
        min_length: Option<usize>,
        max_length: Option<usize>,
    ) -> (validator: DictValidator<V>)
        ensures
            validator.strict() == strict,
            validator.key_validator() == key_validator,
            validator.value_validator() == value_validator,
            validator.min_length() == min_length,
            validator.max_length() == max_length,
            validator.full_name() == dict_name(key_validator.name(), value_validator.name()),
    {
        let mut name = EXPECTED_TYPE.to_owned();
        name.append("[");
        name.append(key_validator.get_name());
        name.append(",");
        name.append(value_validator.get_name());
        name.append("]");
        DictValidator {
            strict,
            key_validator: Box::new(key_validator),
            value_validator: Box::new(value_validator),
            min_length,
            max_length,
            name,
        }
    }
}

} // verus!
