//! What the validation of dictionaries comes to, in terms of what the validators for the keys and
//! the values give.
use crate::build_tools::{strict_read, usize_read};
use crate::errors::{
    error_described, length_error, single_error, ErrorTypeView, ErrorView, LineView, LocView,
    ValError,
};
use crate::input::parse_json::{JsonView, MemberView};
use crate::input::return_enums::{
    entry_answered, gives, json_entries, law_dict_begins, law_mapping_begins, law_pair,
    pair_entries, pair_parts, EntrySource, EntryView, MappingView,
};
use crate::input::{
    dict_answered, law_mappings_are_taken, law_others_are_refused, loc_answered, InputView,
};
use crate::python::{
    as_dict, as_string, as_tuple, dict_items_answered, dict_made, distinct_keys, handle_object,
    has_key, is_plain_string, item_answered, items_answered, iter_answered, key_count, key_points,
    mapping_check_answered, plain_keys, sequence_object, store_answered, stored_entries,
    string_points, tuple_items, OutputDict, StoredEntry,
};
use crate::validators::dict::{
    can_hold, dict_name, guard_after, is_failure, is_located, is_omission, located_line,
    noted_lines, source_begun, walk_lines, walk_stored, DictValidator, EntryRecord,
    DICT_FIELD_TYPE,
};
use crate::validators::dict_laws::{
    copied, copies_can_be_stored, dict_holds, hands_on, input_gives, law_dict_input_gives,
    law_json_input_gives, law_mapping_input_gives, mapping_holds,
};
use crate::validators::{output_view, CombinedValidator, Extra, Validator};
use pyo3::types::{PyAny, PyDict, PyIterator, PyMapping, PySequence};
use pyo3::{Py, PyErr};
use vstd::prelude::*;

verus! {

/// What a validator gives is modelled as the object that the handle keeps alive, or as the error.
pub proof fn law_output_view(handle: Py<PyAny>, error: ValError<'_>)
    ensures
        output_view(Ok(handle)) == Ok::<PyAny, ErrorView>(handle_object(handle)),
        output_view(Err(error)) == Err::<PyAny, ErrorView>(error@),
{
}

/// Whether `located` is the fault `line` of a part of the entry with that key, as the dictionary
/// reports it: the same fault, with the step for the key in front of the whole way that it had, and
/// between the two, for a fault of the key itself, the step for keys.
pub open spec fn is_reported(
    line: LineView,
    key: InputView,
    at_key: bool,
    located: LineView,
) -> bool {
    &&& located.error_type == line.error_type
    &&& located.input_value == line.input_value
    &&& exists|loc: LocView|
        {
            &&& #[trigger] loc_answered(key, loc)
            &&& located.location == if at_key {
                seq![loc, LocView::S("[key]"@)] + line.location
            } else {
                seq![loc] + line.location
            }
        }
}

/// Whether `reported` is what the dictionary reports where a validator gave `output` for a part of
/// the entry with that key: every fault of it, each once and in its order, and nothing where it
/// named no faults.
pub open spec fn are_reported(
    output: Result<PyAny, ErrorView>,
    key: InputView,
    at_key: bool,
    reported: Seq<LineView>,
) -> bool {
    match output {
        Err(ErrorView::LineErrors(lines)) => {
            &&& reported.len() == lines.len()
            &&& forall|i: int|
                0 <= i < lines.len() ==> is_reported(lines[i], key, at_key, #[trigger] reported[i])
        },
        _ => reported.len() == 0,
    }
}

/// Where a validator gives so many faults for a part of an entry, so many are reported, the first
/// for the first and so on, each as it was and located under the key.
pub proof fn law_every_fault_is_noted(
    output: Result<PyAny, ErrorView>,
    key: InputView,
    at_key: bool,
    noted: Seq<LineView>,
)
    requires
        noted_lines(output, key, at_key, noted),
    ensures
        are_reported(output, key, at_key, noted),
{
    if let Err(ErrorView::LineErrors(lines)) = output {
        assert forall|i: int| 0 <= i < lines.len() implies is_reported(
            lines[i],
            key,
            at_key,
            #[trigger] noted[i],
        ) by {
            assert(is_located(lines[i], key, at_key, noted[i]));
            let loc = choose|loc: LocView|
                {
                    &&& #[trigger] loc_answered(key, loc)
                    &&& noted[i] == located_line(lines[i], loc, at_key)
                };
            if at_key {
                assert(noted[i].location =~= seq![loc, LocView::S("[key]"@)] + lines[i].location);
            } else {
                assert(noted[i].location =~= seq![loc] + lines[i].location);
            }
        }
    }
}

/// A validator fails where it gives an exception, and leaves the entry out where it says so; faults
/// are neither.
pub proof fn law_kinds_of_outputs(object: PyAny, exception: PyErr, lines: Seq<LineView>)
    ensures
        is_failure(Err(ErrorView::InternalErr(exception))),
        !is_failure(Ok(object)),
        !is_failure(Err(ErrorView::LineErrors(lines))),
        !is_failure(Err(ErrorView::Omit)),
        is_omission(Err(ErrorView::Omit)),
        !is_omission(Ok(object)),
        !is_omission(Err(ErrorView::LineErrors(lines))),
        !is_omission(Err(ErrorView::InternalErr(exception))),
{
}

/// What is stored of an entry: the two objects, where the validators gave one for the key and one
/// for the value, and otherwise nothing.
pub open spec fn pair_given(
    key_output: Result<PyAny, ErrorView>,
    value_output: Option<Result<PyAny, ErrorView>>,
) -> Seq<StoredEntry> {
    if key_output is Ok && value_output is Some && value_output->0 is Ok {
        seq![StoredEntry { key: key_output->Ok_0, value: value_output->0->Ok_0 }]
    } else {
        Seq::empty()
    }
}

/// The faults that entries have been found to have, those of each key before those of its value.
pub open spec fn report<G>(walk: Seq<EntryRecord<G>>) -> Seq<LineView> {
    Seq::new(walk.len(), |i: int| walk[i].key_lines + walk[i].value_lines).flatten()
}

/// What is stored of entries, in their order.
pub open spec fn collected<G>(walk: Seq<EntryRecord<G>>) -> Seq<StoredEntry> {
    Seq::new(walk.len(), |i: int| pair_given(walk[i].key_output, walk[i].value_output)).flatten()
}

proof fn lemma_report<G>(walk: Seq<EntryRecord<G>>)
    ensures
        walk_lines(walk) == report(walk),
        walk_stored(walk) == collected(walk),
    decreases walk.len(),
{
    let faults = Seq::new(walk.len(), |i: int| walk[i].key_lines + walk[i].value_lines);
    let pairs = Seq::new(
        walk.len(),
        |i: int| pair_given(walk[i].key_output, walk[i].value_output),
    );
    if walk.len() > 0 {
        let earlier = walk.drop_last();
        let last = walk.last();
        lemma_report(earlier);
        let earlier_faults = Seq::new(
            earlier.len(),
            |i: int| earlier[i].key_lines + earlier[i].value_lines,
        );
        let earlier_pairs = Seq::new(
            earlier.len(),
            |i: int| pair_given(earlier[i].key_output, earlier[i].value_output),
        );
        earlier_faults.lemma_flatten_push(last.key_lines + last.value_lines);
        earlier_pairs.lemma_flatten_push(pair_given(last.key_output, last.value_output));
        assert(faults =~= earlier_faults.push(last.key_lines + last.value_lines));
        assert(pairs =~= earlier_pairs.push(pair_given(last.key_output, last.value_output)));
        assert(last.stored() =~= pair_given(last.key_output, last.value_output));
    } else {
        assert(faults.flatten() =~= Seq::empty());
        assert(pairs.flatten() =~= Seq::empty());
    }
}

impl<V: Validator> DictValidator<V> {
    /// Whether the entry came to the validators so: the key to the one for keys, and then, unless
    /// that left the entry out, the value to the one for values; neither failed, and the faults of
    /// both are reported.
    pub open spec fn came_through(
        &self,
        entry: EntryView,
        extra: Extra,
        record: EntryRecord<V::Guard>,
    ) -> bool {
        &&& record.key == entry.key
        &&& record.value == entry.value
        &&& self.key_validator().answers(
            entry.key,
            extra,
            record.before,
            record.key_output,
            record.between,
        )
        &&& !(record.key_output matches Err(ErrorView::InternalErr(_)))
        &&& are_reported(record.key_output, entry.key, true, record.key_lines)
        &&& if record.key_output == Err::<PyAny, ErrorView>(ErrorView::Omit) {
            &&& record.value_output is None
            &&& record.value_lines.len() == 0
            &&& record.after == record.between
        } else {
            &&& record.value_output is Some
            &&& self.value_validator().answers(
                entry.value,
                extra,
                record.between,
                record.value_output->0,
                record.after,
            )
            &&& !(record.value_output->0 matches Err(ErrorView::InternalErr(_)))
            &&& are_reported(record.value_output->0, entry.key, false, record.value_lines)
        }
    }

    /// Whether the first entries came to the validators one after the other so, each with the guard
    /// that the one before it had left.
    pub open spec fn came_in_order(
        &self,
        entries: Seq<EntryView>,
        extra: Extra,
        first: V::Guard,
        walk: Seq<EntryRecord<V::Guard>>,
    ) -> bool {
        &&& walk.len() <= entries.len()
        &&& forall|i: int|
            0 <= i < walk.len() ==> {
                &&& self.came_through(entries[i], extra, #[trigger] walk[i])
                &&& walk[i].before == if i == 0 {
                    first
                } else {
                    walk[i - 1].after
                }
            }
    }

    /// Whether `output` is what the faults and the stored pairs come to: the faults, where there
    /// are any, and otherwise a dictionary in which the pairs were stored, whose number of keys was
    /// found to be within the bounds, or the fault that it was not.
    pub open spec fn comes_to(
        &self,
        input: InputView,
        faults: Seq<LineView>,
        pairs: Seq<StoredEntry>,
        output: Result<PyAny, ErrorView>,
    ) -> bool {
        if faults.len() > 0 {
            output == Err::<PyAny, ErrorView>(ErrorView::LineErrors(faults))
        } else {
            exists|keys: nat|
                {
                    &&& #[trigger] can_hold(pairs, keys)
                    &&& match output {
                        Ok(object) => {
                            &&& dict_made(object, pairs, keys)
                            &&& self.min_length() is Some ==> self.min_length()->0 <= keys
                            &&& self.max_length() is Some ==> keys <= self.max_length()->0
                        },
                        Err(ErrorView::LineErrors(lines)) => {
                            &&& lines.len() == 1
                            &&& lines[0].location.len() == 0
                            &&& lines[0].input_value == input
                            &&& if self.min_length() is Some && keys < self.min_length()->0 {
                                lines[0].error_type == (ErrorTypeView::TooShort {
                                    field_type: "Dictionary"@,
                                    min_length: self.min_length()->0 as int,
                                    actual_length: keys as int,
                                })
                            } else {
                                &&& self.max_length() is Some
                                &&& keys > self.max_length()->0
                                &&& lines[0].error_type == (ErrorTypeView::TooLong {
                                    field_type: "Dictionary"@,
                                    max_length: self.max_length()->0 as int,
                                    actual_length: keys as int,
                                })
                            }
                        },
                        _ => false,
                    }
                }
        }
    }

    /// Whether the entry ends the validation with the exception: the validator for keys raised it,
    /// or the one for values did, or storing what they gave did.
    pub open spec fn ends_at(
        &self,
        entry: EntryView,
        extra: Extra,
        pairs: Seq<StoredEntry>,
        before: V::Guard,
        exception: PyErr,
        after: V::Guard,
    ) -> bool {
        let failed = Err::<PyAny, ErrorView>(ErrorView::InternalErr(exception));
        ||| self.key_validator().answers(entry.key, extra, before, failed, after)
        ||| exists|key_output: Result<PyAny, ErrorView>, between: V::Guard|
            {
                &&& #[trigger] self.key_validator().answers(
                    entry.key,
                    extra,
                    before,
                    key_output,
                    between,
                )
                &&& !(key_output matches Err(ErrorView::InternalErr(_)))
                &&& key_output != Err::<PyAny, ErrorView>(ErrorView::Omit)
                &&& {
                    ||| self.value_validator().answers(entry.value, extra, between, failed, after)
                    ||| {
                        &&& key_output is Ok
                        &&& exists|value: PyAny|
                            {
                                &&& #[trigger] self.value_validator().answers(
                                    entry.value,
                                    extra,
                                    between,
                                    Ok(value),
                                    after,
                                )
                                &&& store_answered(
                                    pairs,
                                    StoredEntry { key: key_output->Ok_0, value },
                                    Err(exception),
                                )
                            }
                    }
                }
            }
    }

    /// Whether `output` is what a validation of those entries may come to, where the error comes
    /// after them if there is one.
    pub open spec fn outcome(
        &self,
        input: InputView,
        entries: Seq<EntryView>,
        error: Option<ErrorView>,
        extra: Extra,
        before: V::Guard,
        output: Result<PyAny, ErrorView>,
        after: V::Guard,
    ) -> bool {
        exists|walk: Seq<EntryRecord<V::Guard>>|
            {
                &&& #[trigger] self.came_in_order(entries, extra, before, walk)
                &&& if walk.len() == entries.len() {
                    &&& after == if walk.len() == 0 {
                        before
                    } else {
                        walk.last().after
                    }
                    &&& match error {
                        Some(error) => output == Err::<PyAny, ErrorView>(error),
                        None => self.comes_to(input, report(walk), collected(walk), output),
                    }
                } else {
                    &&& output matches Err(ErrorView::InternalErr(exception))
                    &&& self.ends_at(
                        entries[walk.len() as int],
                        extra,
                        collected(walk),
                        if walk.len() == 0 {
                            before
                        } else {
                            walk.last().after
                        },
                        exception,
                        after,
                    )
                }
            }
    }

    /// What a validation over a source that gives its entries comes to. Every entry comes to the
    /// validators, in its order, and the result is what all their faults and all that was accepted
    /// come to; unless one of the entries ends the validation, with its exception, those before it
    /// having come through and none after it being looked at. An error that the source gives after
    /// the entries is the result in place of all that.
    pub proof fn law_outcome(
        &self,
        input: InputView,
        source: EntrySource,
        entries: Seq<EntryView>,
        error: Option<ErrorView>,
        extra: Extra,
        before: V::Guard,
        output: Result<PyAny, ErrorView>,
        after: V::Guard,
    )
        requires
            gives(source, entries, error),
            self.answers_source(input, source, extra, before, output, after),
        ensures
            self.outcome(input, entries, error, extra, before, output, after),
    {
        let walk = choose|walk: Seq<EntryRecord<V::Guard>>|
            {
                &&& #[trigger] self.walked(source, extra, before, walk)
                &&& {
                    ||| output matches Err(reported) && self.stopped(
                        source,
                        extra,
                        before,
                        walk,
                        reported,
                        after,
                    )
                    ||| {
                        &&& entry_answered(source, walk.len(), None)
                        &&& after == guard_after(before, walk)
                        &&& self.concludes(input, walk_lines(walk), walk_stored(walk), output)
                    }
                }
            };
        self.lemma_came_in_order(source, entries, error, extra, before, walk);
        lemma_report(walk);
        if walk.len() < entries.len() {
            let reported = output->Err_0;
            let record = choose|record: EntryRecord<V::Guard>|
                {
                    &&& #[trigger] self.entry_recorded(extra, record)
                    &&& entry_answered(source, walk.len(), Some(Ok(record.entry())))
                    &&& record.before == guard_after(before, walk)
                    &&& record.after == after
                    &&& self.entry_stops(extra, walk_stored(walk), record, reported)
                };
            assert(record.entry() == entries[walk.len() as int]);
            if !is_failure(record.key_output) {
                assert(self.key_validator().answers(
                    entries[walk.len() as int].key,
                    extra,
                    record.before,
                    record.key_output,
                    record.between,
                ));
                let value_output = record.value_output->0;
                if !is_failure(value_output) {
                    assert(self.value_validator().answers(
                        entries[walk.len() as int].value,
                        extra,
                        record.between,
                        Ok(value_output->Ok_0),
                        after,
                    ));
                    assert(record.stored()[0] == (StoredEntry {
                        key: record.key_output->Ok_0,
                        value: value_output->Ok_0,
                    }));
                }
            }
        } else if error is None && walk_lines(walk).len() == 0 {
            let length = choose|length: nat|
                {
                    &&& #[trigger] can_hold(walk_stored(walk), length)
                    &&& match length_error(
                        DICT_FIELD_TYPE@,
                        self.min_length(),
                        self.max_length(),
                        length as int,
                    ) {
                        Some(error_type) => output == Err::<PyAny, ErrorView>(
                            single_error(error_type, input),
                        ),
                        None => output matches Ok(object) && dict_made(
                            object,
                            walk_stored(walk),
                            length,
                        ),
                    }
                };
            assert(can_hold(collected(walk), length));
        }
    }

    /// What goes through comes to the validators in order.
    proof fn lemma_came_in_order(
        &self,
        source: EntrySource,
        entries: Seq<EntryView>,
        error: Option<ErrorView>,
        extra: Extra,
        first: V::Guard,
        walk: Seq<EntryRecord<V::Guard>>,
    )
        requires
            gives(source, entries, error),
            self.walked(source, extra, first, walk),
        ensures
            self.came_in_order(entries, extra, first, walk),
    {
        self.law_given_entries(source, entries, error, extra, first, walk);
        assert forall|i: int| 0 <= i < walk.len() implies {
            &&& self.came_through(entries[i], extra, #[trigger] walk[i])
            &&& walk[i].before == if i == 0 {
                first
            } else {
                walk[i - 1].after
            }
        } by {
            let record = walk[i];
            self.law_walk_is_a_prefix(source, extra, first, walk, i);
            assert(record.entry() == entries[i]);
            law_every_fault_is_noted(record.key_output, record.key, true, record.key_lines);
            if let Some(value_output) = record.value_output {
                law_every_fault_is_noted(value_output, record.key, false, record.value_lines);
            }
        }
    }
}

/// How many faults an output names.
pub open spec fn fault_count(output: Result<PyAny, ErrorView>) -> nat {
    match output {
        Err(ErrorView::LineErrors(lines)) => lines.len(),
        _ => 0,
    }
}

/// How many faults the validators have named for entries.
pub open spec fn named_faults<G>(walk: Seq<EntryRecord<G>>) -> nat
    decreases walk.len(),
{
    if walk.len() == 0 {
        0
    } else {
        let last = walk.last();
        let of_value = if last.value_output is Some {
            fault_count(last.value_output->0)
        } else {
            0nat
        };
        named_faults(walk.drop_last()) + fault_count(last.key_output) + of_value
    }
}

impl<V: Validator> DictValidator<V> {
    /// As many faults are reported as the validators have named, for all the keys and all the
    /// values together.
    pub proof fn law_faults_add_up(
        &self,
        entries: Seq<EntryView>,
        extra: Extra,
        first: V::Guard,
        walk: Seq<EntryRecord<V::Guard>>,
    )
        requires
            self.came_in_order(entries, extra, first, walk),
        ensures
            report(walk).len() == named_faults(walk),
        decreases walk.len(),
    {
        lemma_report(walk);
        if walk.len() > 0 {
            let earlier = walk.drop_last();
            assert forall|i: int| 0 <= i < earlier.len() implies {
                &&& self.came_through(entries[i], extra, #[trigger] earlier[i])
                &&& earlier[i].before == if i == 0 {
                    first
                } else {
                    earlier[i - 1].after
                }
            } by {
                assert(earlier[i] == walk[i]);
            }
            self.law_faults_add_up(entries, extra, first, earlier);
            lemma_report(earlier);
            assert(self.came_through(entries[walk.len() - 1], extra, walk[walk.len() - 1]));
        }
    }

    /// What the validation of an input that gives its entries comes to.
    pub proof fn law_input_outcome(
        &self,
        input: InputView,
        entries: Seq<EntryView>,
        error: Option<ErrorView>,
        extra: Extra,
        before: V::Guard,
        output: Result<PyAny, ErrorView>,
        after: V::Guard,
    )
        requires
            input_gives(input, self.is_strict(extra), entries, error),
            self.answers(input, extra, before, output, after),
        ensures
            self.outcome(input, entries, error, extra, before, output, after),
            input matches InputView::PyAny(read) ==> output != Ok::<PyAny, ErrorView>(read),
    {
        self.law_input_entries(input, entries, error, extra, before, output, after);
        let source = choose|source: EntrySource|
            {
                &&& #[trigger] gives(source, entries, error)
                &&& self.answers_source(input, source, extra, before, output, after)
            };
        self.law_outcome(input, source, entries, error, extra, before, output, after);
    }

    /// What the validation of a Python `dict` comes to, whose items are pairs of those keys and
    /// those values: what the validation of these keys with these values comes to, in their order.
    pub proof fn law_dict_outcome(
        &self,
        object: PyAny,
        dict: PyDict,
        items: Seq<PyAny>,
        keys: Seq<PyAny>,
        values: Seq<PyAny>,
        extra: Extra,
        before: V::Guard,
        output: Result<PyAny, ErrorView>,
        after: V::Guard,
    )
        requires
            as_dict(object) == Some(dict),
            dict_holds(dict, items),
            items.len() < usize::MAX,
            are_pairs(items, keys, values),
            self.answers(InputView::PyAny(object), extra, before, output, after),
        ensures
            self.outcome(
                InputView::PyAny(object),
                object_entries(keys, values),
                None,
                extra,
                before,
                output,
                after,
            ),
            output != Ok::<PyAny, ErrorView>(object),
    {
        lemma_pairs(items, keys, values);
        law_dict_input_gives(object, dict, items, self.is_strict(extra));
        self.law_input_outcome(
            InputView::PyAny(object),
            object_entries(keys, values),
            None,
            extra,
            before,
            output,
            after,
        );
    }

    /// What the validation of a Python mapping that is no `dict` comes to, where it is not strict
    /// and the items of the mapping are pairs of those keys and those values.
    pub proof fn law_mapping_outcome(
        &self,
        object: PyAny,
        items: Seq<PyAny>,
        keys: Seq<PyAny>,
        values: Seq<PyAny>,
        extra: Extra,
        before: V::Guard,
        output: Result<PyAny, ErrorView>,
        after: V::Guard,
    )
        requires
            as_dict(object) is None,
            forall|check: Option<&PyMapping>| #[trigger]
                mapping_check_answered(object, check) ==> check is Some && mapping_holds(
                    *check->0,
                    items,
                ),
            items.len() < usize::MAX,
            are_pairs(items, keys, values),
            match extra.strict {
                Some(strict) => !strict,
                None => !self.strict(),
            },
            self.answers(InputView::PyAny(object), extra, before, output, after),
        ensures
            self.outcome(
                InputView::PyAny(object),
                object_entries(keys, values),
                None,
                extra,
                before,
                output,
                after,
            ),
            output != Ok::<PyAny, ErrorView>(object),
    {
        lemma_pairs(items, keys, values);
        law_mapping_input_gives(object, items);
        self.law_input_outcome(
            InputView::PyAny(object),
            object_entries(keys, values),
            None,
            extra,
            before,
            output,
            after,
        );
    }

    /// What the validation of a JSON object comes to: what that of its names with its values comes
    /// to, in their order.
    pub proof fn law_json_outcome(
        &self,
        members: Seq<MemberView>,
        extra: Extra,
        before: V::Guard,
        output: Result<PyAny, ErrorView>,
        after: V::Guard,
    )
        requires
            self.answers(
                InputView::JsonInput(JsonView::Object(members)),
                extra,
                before,
                output,
                after,
            ),
        ensures
            self.outcome(
                InputView::JsonInput(JsonView::Object(members)),
                Seq::new(
                    members.len(),
                    |i: int|
                        EntryView {
                            key: InputView::String(members[i].name),
                            value: InputView::JsonInput(members[i].value),
                        },
                ),
                None,
                extra,
                before,
                output,
                after,
            ),
    {
        let entries = Seq::new(
            members.len(),
            |i: int|
                EntryView {
                    key: InputView::String(members[i].name),
                    value: InputView::JsonInput(members[i].value),
                },
        );
        law_json_input_gives(members, self.is_strict(extra));
        assert(json_entries(members) =~= entries);
        self.law_input_outcome(
            InputView::JsonInput(JsonView::Object(members)),
            entries,
            None,
            extra,
            before,
            output,
            after,
        );
    }

    /// Validators that hand every Python object on, without bounds, store the two objects of each
    /// pair that a `dict` holds, as they are and in their order, in another dictionary.
    pub proof fn law_dict_is_copied(
        &self,
        object: PyAny,
        dict: PyDict,
        items: Seq<PyAny>,
        keys: Seq<PyAny>,
        values: Seq<PyAny>,
        extra: Extra,
        before: V::Guard,
        output: Result<PyAny, ErrorView>,
        after: V::Guard,
    )
        requires
            as_dict(object) == Some(dict),
            dict_holds(dict, items),
            items.len() < usize::MAX,
            are_pairs(items, keys, values),
            hands_on(self.key_validator(), extra),
            hands_on(self.value_validator(), extra),
            self.min_length() is None,
            self.max_length() is None,
            copies_can_be_stored(object_entries(keys, values)),
            self.answers(InputView::PyAny(object), extra, before, output, after),
        ensures
            output matches Ok(made) && {
                &&& made != object
                &&& is_made_of(made, keys, values)
            },
    {
        let entries = object_entries(keys, values);
        lemma_pairs(items, keys, values);
        law_dict_input_gives(object, dict, items, self.is_strict(extra));
        self.law_copies_input(object, entries, extra, before, output, after);
        let made = output->Ok_0;
        let length = choose|length: nat| #[trigger] dict_made(made, copied(entries), length);
        assert(dict_made(made, copied(entries), length));
    }

    /// Where each validator has one answer to each part of the entries, and accepts it, what is
    /// stored is what they gave, pair by pair in the order of the entries, and nothing else.
    /// Without bounds it is the result.
    pub proof fn law_given_pairs_are_stored(
        &self,
        input: InputView,
        entries: Seq<EntryView>,
        keys: Seq<PyAny>,
        values: Seq<PyAny>,
        extra: Extra,
        before: V::Guard,
        made: PyAny,
        after: V::Guard,
    )
        requires
            keys.len() == entries.len(),
            values.len() == entries.len(),
            forall|i: int, first: V::Guard, output: Result<PyAny, ErrorView>, last: V::Guard|
                0 <= i < entries.len() && #[trigger] self.key_validator().answers(
                    entries[i].key,
                    extra,
                    first,
                    output,
                    last,
                ) ==> output == Ok::<PyAny, ErrorView>(keys[i]),
            forall|i: int, first: V::Guard, output: Result<PyAny, ErrorView>, last: V::Guard|
                0 <= i < entries.len() && #[trigger] self.value_validator().answers(
                    entries[i].value,
                    extra,
                    first,
                    output,
                    last,
                ) ==> output == Ok::<PyAny, ErrorView>(values[i]),
            input_gives(input, self.is_strict(extra), entries, None),
            self.answers(input, extra, before, Ok(made), after),
        ensures
            is_made_of(made, keys, values),
    {
        let output = Ok::<PyAny, ErrorView>(made);
        self.law_input_outcome(input, entries, None, extra, before, output, after);
        let walk = choose|walk: Seq<EntryRecord<V::Guard>>|
            {
                &&& #[trigger] self.came_in_order(entries, extra, before, walk)
                &&& walk.len() == entries.len()
                &&& self.comes_to(input, report(walk), collected(walk), output)
            };
        let pairs = Seq::new(
            entries.len(),
            |i: int| StoredEntry { key: keys[i], value: values[i] },
        );
        assert forall|i: int| 0 <= i < walk.len() implies pair_given(
            (#[trigger] walk[i]).key_output,
            walk[i].value_output,
        ) == seq![pairs[i]] by {
            assert(self.came_through(entries[i], extra, walk[i]));
        }
        lemma_all_collected(walk, pairs);
    }
}

proof fn lemma_all_collected<G>(walk: Seq<EntryRecord<G>>, pairs: Seq<StoredEntry>)
    requires
        walk.len() == pairs.len(),
        forall|i: int|
            0 <= i < walk.len() ==> pair_given(
                (#[trigger] walk[i]).key_output,
                walk[i].value_output,
            ) == seq![pairs[i]],
    ensures
        collected(walk) == pairs,
    decreases walk.len(),
{
    lemma_report(walk);
    if walk.len() > 0 {
        let earlier = walk.drop_last();
        assert forall|i: int| 0 <= i < earlier.len() implies pair_given(
            (#[trigger] earlier[i]).key_output,
            earlier[i].value_output,
        ) == seq![pairs.drop_last()[i]] by {
            assert(earlier[i] == walk[i]);
        }
        lemma_all_collected(earlier, pairs.drop_last());
        lemma_report(earlier);
        let last = walk[walk.len() - 1];
        assert(pair_given(last.key_output, last.value_output) == seq![pairs[walk.len() - 1]]);
        assert(last.stored() =~= pair_given(last.key_output, last.value_output));
        assert(collected(walk) =~= pairs);
    } else {
        assert(collected(walk) =~= pairs);
    }
}

/// Whether the object was made as a dictionary in which those keys were stored with those values,
/// pair by pair, and nothing else.
pub open spec fn is_made_of(made: PyAny, keys: Seq<PyAny>, values: Seq<PyAny>) -> bool {
    exists|stored: Seq<StoredEntry>, length: nat|
        {
            &&& #[trigger] dict_made(made, stored, length)
            &&& stored.len() == keys.len()
            &&& forall|i: int|
                0 <= i < stored.len() ==> (#[trigger] stored[i]).key == keys[i] && stored[i].value
                    == values[i]
        }
}

/// Whether the items are tuples of two, of those keys and those values.
pub open spec fn are_pairs(items: Seq<PyAny>, keys: Seq<PyAny>, values: Seq<PyAny>) -> bool {
    &&& keys.len() == items.len()
    &&& values.len() == items.len()
    &&& forall|i: int|
        0 <= i < items.len() ==> {
            &&& as_tuple(#[trigger] items[i]) is Some
            &&& tuple_items(as_tuple(items[i])->0) == seq![keys[i], values[i]]
        }
}

/// The entries with those Python objects as keys and values.
pub open spec fn object_entries(keys: Seq<PyAny>, values: Seq<PyAny>) -> Seq<EntryView> {
    Seq::new(
        keys.len(),
        |i: int| EntryView { key: InputView::PyAny(keys[i]), value: InputView::PyAny(values[i]) },
    )
}

proof fn lemma_pairs(items: Seq<PyAny>, keys: Seq<PyAny>, values: Seq<PyAny>)
    requires
        are_pairs(items, keys, values),
    ensures
        forall|i: int| 0 <= i < items.len() ==> pair_parts(#[trigger] items[i]) is Some,
        pair_entries(items) == object_entries(keys, values),
{
    assert forall|i: int| 0 <= i < items.len() implies pair_parts(#[trigger] items[i]) == Some(
        object_entries(keys, values)[i],
    ) by {
        law_pair(items[i], items[i], as_tuple(items[i])->0, keys[i], values[i]);
    }
    assert(pair_entries(items) =~= object_entries(keys, values));
}

/// Whether the output is one fault of the input as a whole.
pub open spec fn is_one_fault(
    input: InputView,
    error_type: ErrorTypeView,
    output: Result<PyAny, ErrorView>,
) -> bool {
    output matches Err(ErrorView::LineErrors(lines)) && {
        &&& lines.len() == 1
        &&& lines[0].error_type == error_type
        &&& lines[0].location.len() == 0
        &&& lines[0].input_value == input
    }
}

impl<V: Validator> DictValidator<V> {
    /// A validation is as strict as it is told to be, and where it is told nothing, as the
    /// validator is.
    pub proof fn law_strictness(&self, extra: Extra)
        ensures
            extra.strict matches Some(strict) ==> self.is_strict(extra) == strict,
            extra.strict is None ==> self.is_strict(extra) == self.strict(),
    {
    }

    /// Being strict makes a difference, unless only the children count and it makes none to either.
    pub proof fn law_strict_differs(&self)
        ensures
            self.strict_differs(false),
            self.strict_differs(true) <==> self.key_validator().strict_differs(true)
                || self.value_validator().strict_differs(true),
    {
    }

    /// A validator goes by the name that it was given.
    pub proof fn law_name(&self)
        ensures
            self.name() == self.full_name(),
    {
    }

    /// What is no mapping has the one fault that a dictionary is wanted, and no child is asked:
    /// text, a JSON value that is no object, and a Python object that is no `dict`, where the
    /// validation is strict or the object is found not to be a mapping.
    pub proof fn law_no_mapping(
        &self,
        input: InputView,
        extra: Extra,
        before: V::Guard,
        output: Result<PyAny, ErrorView>,
        after: V::Guard,
    )
        requires
            self.answers(input, extra, before, output, after),
            match input {
                InputView::String(_) => true,
                InputView::JsonInput(json) => !(json is Object),
                InputView::PyAny(object) => as_dict(object) is None && {
                    ||| match extra.strict {
                        Some(strict) => strict,
                        None => self.strict(),
                    }
                    ||| forall|check: Option<&PyMapping>| #[trigger]
                        mapping_check_answered(object, check) ==> check is None
                },
            },
        ensures
            is_one_fault(input, ErrorTypeView::DictType, output),
            after == before,
    {
        let mapping = choose|mapping: Result<MappingView, ErrorView>|
            {
                &&& #[trigger] dict_answered(input, self.is_strict(extra), mapping)
                &&& match mapping {
                    Err(error) => output == Err::<PyAny, ErrorView>(error) && after == before,
                    Ok(mapping) => self.answers_mapping(
                        input,
                        mapping,
                        extra,
                        before,
                        output,
                        after,
                    ),
                }
            };
        law_others_are_refused(input, self.is_strict(extra), mapping);
    }

    /// A `dict` whose items cannot be had, or cannot be walked, fails with the exception that says
    /// so, and no child is asked.
    pub proof fn law_dict_not_begun(
        &self,
        object: PyAny,
        dict: PyDict,
        extra: Extra,
        before: V::Guard,
        output: Result<PyAny, ErrorView>,
        after: V::Guard,
    )
        requires
            as_dict(object) == Some(dict),
            forall|view: PyAny, iterator: PyIterator|
                !(#[trigger] dict_items_answered(dict, Ok(&view)) && #[trigger] iter_answered(
                    view,
                    Ok(iterator),
                )),
            self.answers(InputView::PyAny(object), extra, before, output, after),
        ensures
            after == before,
            output matches Err(ErrorView::InternalErr(exception)) && {
                ||| dict_items_answered(dict, Err(exception))
                ||| exists|view: PyAny|
                    {
                        &&& #[trigger] dict_items_answered(dict, Ok(&view))
                        &&& iter_answered(view, Err(exception))
                    }
            },
    {
        let begun = self.lemma_begun(
            InputView::PyAny(object),
            MappingView::PyDict(dict),
            extra,
            before,
            output,
            after,
        );
        law_dict_begins(dict, begun);
    }

    /// A mapping whose items cannot be had, or cannot be walked, has the one fault that describes
    /// the exception, and no child is asked.
    pub proof fn law_mapping_not_begun(
        &self,
        object: PyAny,
        mapping: PyMapping,
        extra: Extra,
        before: V::Guard,
        output: Result<PyAny, ErrorView>,
        after: V::Guard,
    )
        requires
            as_dict(object) is None,
            match extra.strict {
                Some(strict) => !strict,
                None => !self.strict(),
            },
            forall|check: Option<&PyMapping>| #[trigger]
                mapping_check_answered(object, check) ==> check == Some(&mapping),
            forall|items: PySequence, iterator: PyIterator|
                !(#[trigger] items_answered(mapping, Ok(&items)) && #[trigger] iter_answered(
                    sequence_object(items),
                    Ok(iterator),
                )),
            self.answers(InputView::PyAny(object), extra, before, output, after),
        ensures
            after == before,
            output matches Err(ErrorView::LineErrors(lines)) && {
                &&& lines.len() == 1
                &&& lines[0].location.len() == 0
                &&& lines[0].input_value == InputView::PyAny(object)
                &&& lines[0].error_type matches ErrorTypeView::MappingType { error: text }
                &&& exists|exception: PyErr|
                    {
                        &&& #[trigger] error_described(exception, text)
                        &&& {
                            ||| items_answered(mapping, Err(exception))
                            ||| exists|items: PySequence|
                                {
                                    &&& #[trigger] items_answered(mapping, Ok(&items))
                                    &&& iter_answered(sequence_object(items), Err(exception))
                                }
                        }
                    }
            },
    {
        let found = choose|found: Result<MappingView, ErrorView>|
            {
                &&& #[trigger] dict_answered(InputView::PyAny(object), false, found)
                &&& found matches Ok(found) ==> self.answers_mapping(
                    InputView::PyAny(object),
                    found,
                    extra,
                    before,
                    output,
                    after,
                )
            };
        law_mappings_are_taken(object, mapping, found);
        let begun = choose|begun: Result<EntrySource, ErrorView>|
            {
                &&& #[trigger] source_begun(MappingView::PyMapping(mapping), begun)
                &&& begun matches Err(error) ==> output == Err::<PyAny, ErrorView>(error) && after
                    == before
            };
        law_mapping_begins(mapping, begun);
    }

    /// How a walk over a `dict` has begun.
    proof fn lemma_begun(
        &self,
        input: InputView,
        mapping: MappingView,
        extra: Extra,
        before: V::Guard,
        output: Result<PyAny, ErrorView>,
        after: V::Guard,
    ) -> (begun: Result<EntrySource, ErrorView>)
        requires
            forall|found: Result<MappingView, ErrorView>| #[trigger]
                dict_answered(input, self.is_strict(extra), found) ==> found == Ok::<
                    MappingView,
                    ErrorView,
                >(mapping),
            self.answers(input, extra, before, output, after),
        ensures
            source_begun(mapping, begun),
            begun matches Err(error) ==> {
                &&& output == Err::<PyAny, ErrorView>(error)
                &&& after == before
            },
    {
        choose|begun: Result<EntrySource, ErrorView>|
            {
                &&& #[trigger] source_begun(mapping, begun)
                &&& begun matches Err(error) ==> output == Err::<PyAny, ErrorView>(error) && after
                    == before
            }
    }
}

/// The name of a validator for dictionaries: `dict`, and in brackets the names of its children.
pub proof fn law_dict_name(key_name: Seq<char>, value_name: Seq<char>)
    ensures
        dict_name(key_name, value_name) == "dict["@ + key_name + seq![','] + value_name + seq![']'],
{
    reveal_strlit("dict");
    reveal_strlit("[");
    reveal_strlit("dict[");
    reveal_strlit(",");
    reveal_strlit("]");
    assert("dict"@ + "["@ =~= "dict["@);
    assert(","@ =~= seq![',']);
    assert("]"@ =~= seq![']']);
}

/// The number of keys is one that a dictionary was found to have in which those pairs were stored.
/// It is no more than the pairs are, at least one if there are any, and where the keys are strings
/// of the class `str` itself, as many as there are different texts: as many as pairs where all
/// differ, and one where all are the same.
pub proof fn law_number_of_keys(stored: Seq<StoredEntry>, keys: nat)
    requires
        can_hold(stored, keys),
    ensures
        exists|output: OutputDict<'static>| #[trigger]
            stored_entries(output) == stored && key_count(output) == keys,
        keys <= stored.len(),
        stored.len() > 0 ==> keys > 0,
        (forall|i: int|
            0 <= i < stored.len() ==> is_plain_string((#[trigger] stored[i]).key)) && (forall|
            i: int,
            j: int,
        |
            0 <= i < j < stored.len() ==> string_points(as_string((#[trigger] stored[i]).key)->0)
                != string_points(as_string((#[trigger] stored[j]).key)->0)) ==> keys
            == stored.len(),
        stored.len() > 0 && (forall|i: int|
            0 <= i < stored.len() ==> is_plain_string((#[trigger] stored[i]).key)) && (forall|
            i: int,
        |
            0 <= i < stored.len() ==> string_points(as_string((#[trigger] stored[i]).key)->0)
                == string_points(as_string(stored[0].key)->0)) ==> keys == 1,
{
    if forall|i: int| 0 <= i < stored.len() ==> is_plain_string((#[trigger] stored[i]).key) {
        assert(plain_keys(stored));
        if forall|i: int, j: int|
            0 <= i < j < stored.len() ==> string_points(as_string((#[trigger] stored[i]).key)->0)
                != string_points(as_string((#[trigger] stored[j]).key)->0) {
            lemma_all_distinct(stored);
        }
        if stored.len() > 0 && forall|i: int|
            0 <= i < stored.len() ==> string_points(as_string((#[trigger] stored[i]).key)->0)
                == string_points(as_string(stored[0].key)->0) {
            lemma_all_same(stored);
        }
    }
}

proof fn lemma_all_distinct(stored: Seq<StoredEntry>)
    requires
        forall|i: int, j: int|
            0 <= i < j < stored.len() ==> string_points(as_string((#[trigger] stored[i]).key)->0)
                != string_points(as_string((#[trigger] stored[j]).key)->0),
    ensures
        distinct_keys(stored) == stored.len(),
    decreases stored.len(),
{
    if stored.len() > 0 {
        let earlier = stored.drop_last();
        let last = stored.len() - 1;
        assert forall|i: int, j: int| 0 <= i < j < earlier.len() implies string_points(
            as_string((#[trigger] earlier[i]).key)->0,
        ) != string_points(as_string((#[trigger] earlier[j]).key)->0) by {
            assert(earlier[i] == stored[i] && earlier[j] == stored[j]);
        }
        lemma_all_distinct(earlier);
        if has_key(earlier, stored.last().key) {
            let i = choose|i: int|
                0 <= i < earlier.len() && key_points((#[trigger] earlier[i]).key) == key_points(
                    stored.last().key,
                );
            assert(stored[i] == earlier[i]);
            assert(string_points(as_string(stored[i].key)->0) != string_points(
                as_string(stored[last].key)->0,
            ));
        }
    }
}

proof fn lemma_all_same(stored: Seq<StoredEntry>)
    requires
        stored.len() > 0,
        forall|i: int|
            0 <= i < stored.len() ==> string_points(as_string((#[trigger] stored[i]).key)->0)
                == string_points(as_string(stored[0].key)->0),
    ensures
        distinct_keys(stored) == 1,
    decreases stored.len(),
{
    let earlier = stored.drop_last();
    if earlier.len() > 0 {
        assert forall|i: int| 0 <= i < earlier.len() implies string_points(
            as_string((#[trigger] earlier[i]).key)->0,
        ) == string_points(as_string(earlier[0].key)->0) by {
            assert(earlier[i] == stored[i]);
        }
        lemma_all_same(earlier);
        assert(earlier[0].key == stored[0].key);
        assert(key_points(earlier[0].key) == key_points(stored[stored.len() - 1].key));
        assert(has_key(earlier, stored.last().key));
    } else {
        assert(distinct_keys(earlier) == 0);
        assert(!has_key(earlier, stored.last().key));
    }
}

/// Whether making a child may give `child`, where the schema holds that under the key of the child:
/// an object there describes it, and without one it is a child that accepts anything.
pub open spec fn is_described<V: CombinedValidator>(
    schema: PyDict,
    item: Option<PyAny>,
    config: Option<&PyDict>,
    before: V::Definitions,
    child: Result<V, PyErr>,
    after: V::Definitions,
) -> bool {
    if item is Some {
        V::built(item->0, config, before, child, after)
    } else {
        V::any_built(schema, config, before, child, after)
    }
}

/// Whether the dictionary answers with this alone when it is asked for what stands under the key.
pub open spec fn answers_with(dict: PyDict, key: Seq<char>, item: Option<PyAny>) -> bool {
    forall|answer: Option<&PyAny>| #[trigger]
        item_answered(dict, key, answer) ==> {
            &&& answer is Some <==> item is Some
            &&& item is Some ==> *answer->0 == item->0
        }
}

impl<V: CombinedValidator> DictValidator<V> {
    /// Each child is made from what stands under its own key, the one for the keys first: an object
    /// there describes it, whatever stands under the key of the other; and where nothing stands
    /// there it accepts anything. The bounds and the strictness are what the schema was found to
    /// say, and the name tells the children. The first part that cannot be made is the result.
    pub proof fn law_children(
        schema: PyDict,
        config: Option<&PyDict>,
        keys: Option<PyAny>,
        values: Option<PyAny>,
        before: V::Definitions,
        validator: Result<DictValidator<V>, PyErr>,
        after: V::Definitions,
    )
        requires
            answers_with(schema, "keys_schema"@, keys),
            answers_with(schema, "values_schema"@, values),
            Self::built(schema, config, before, validator, after),
        ensures
            match validator {
                Ok(validator) => {
                    &&& exists|between: V::Definitions|
                        {
                            &&& #[trigger] is_described(
                                schema,
                                keys,
                                config,
                                before,
                                Ok(validator.key_validator()),
                                between,
                            )
                            &&& is_described(
                                schema,
                                values,
                                config,
                                between,
                                Ok(validator.value_validator()),
                                after,
                            )
                        }
                    &&& usize_read(schema, "min_length"@, Ok(validator.min_length()))
                    &&& usize_read(schema, "max_length"@, Ok(validator.max_length()))
                    &&& strict_read(schema, config, Ok(validator.strict()))
                    &&& validator.full_name() == "dict["@ + validator.key_validator().name()
                        + seq![','] + validator.value_validator().name() + seq![']']
                },
                Err(exception) => {
                    ||| is_described::<V>(schema, keys, config, before, Err(exception), after)
                    ||| exists|key: V, between: V::Definitions|
                        {
                            &&& #[trigger] is_described(
                                schema,
                                keys,
                                config,
                                before,
                                Ok(key),
                                between,
                            )
                            &&& {
                                ||| is_described::<V>(
                                    schema,
                                    values,
                                    config,
                                    between,
                                    Err(exception),
                                    after,
                                )
                                ||| exists|value: V|
                                    {
                                        &&& #[trigger] is_described(
                                            schema,
                                            values,
                                            config,
                                            between,
                                            Ok(value),
                                            after,
                                        )
                                        &&& {
                                            ||| strict_read(schema, config, Err(exception))
                                            ||| usize_read(
                                                schema,
                                                "min_length"@,
                                                Err(exception),
                                            )
                                            ||| usize_read(
                                                schema,
                                                "max_length"@,
                                                Err(exception),
                                            )
                                        }
                                    }
                            }
                        }
                },
            },
    {
        let (key, between) = choose|key: Result<V, PyErr>, between: V::Definitions|
            {
                &&& #[trigger] Self::child_built(
                    schema,
                    "keys_schema"@,
                    config,
                    before,
                    key,
                    between,
                )
                &&& match key {
                    Err(exception) => {
                        &&& validator == Err::<DictValidator<V>, PyErr>(exception)
                        &&& after == between
                    },
                    Ok(key) => Self::built_with_key(
                        schema,
                        config,
                        key,
                        between,
                        validator,
                        after,
                    ),
                }
            };
        assert(is_described(schema, keys, config, before, key, between));
        if let Ok(key) = key {
            assert(is_described(schema, keys, config, before, Ok(key), between));
            let value = choose|value: Result<V, PyErr>|
                {
                    &&& #[trigger] Self::child_built(
                        schema,
                        "values_schema"@,
                        config,
                        between,
                        value,
                        after,
                    )
                    &&& match value {
                        Err(exception) => validator == Err::<DictValidator<V>, PyErr>(exception),
                        Ok(value) => Self::built_with_children(
                            schema,
                            config,
                            key,
                            value,
                            validator,
                        ),
                    }
                };
            assert(is_described(schema, values, config, between, value, after));
            if let Ok(value) = value {
                assert(is_described(schema, values, config, between, Ok(value), after));
                law_dict_name(key.name(), value.name());
            }
        }
    }
}

} // verus!
