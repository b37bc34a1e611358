//! What holds of the validation of dictionaries as a whole.
use crate::build_tools::{holds, law_bound_read, law_strict_read, strict_read, usize_read};
use crate::errors::{length_error, single_error, ErrorTypeView, ErrorView, LineView, LocView};
use crate::input::parse_json::{JsonView, MemberView};
use crate::input::return_enums::{
    dict_view_begun, entry_answered, gives, items_begun, iterator_gives, json_entries,
    law_dict_gives, law_json_gives, law_mapping_gives, pair_entries, pair_parts, EntrySource,
    EntryView, MappingView,
};
use crate::input::{dict_answered, loc_answered, InputView};
use crate::python::{
    as_dict, bool_value, dict_items_answered, dict_made, int_value, is_plain_string,
    items_answered, iter_answered, mapping_check_answered, mapping_object, plain_keys,
    sequence_object, store_settled, StoredEntry,
};
use crate::validators::dict::{
    can_hold, dict_name, guard_after, is_another, is_failure, is_located, is_omission, located_line,
    noted_lines, source_begun, walk_lines, walk_stored, DictValidator, EntryRecord,
    DICT_FIELD_TYPE, KEY_LOCATION,
};
use crate::validators::{CombinedValidator, Extra, Validator};
use pyo3::types::{PyAny, PyDict, PyIterator, PyMapping, PySequence};
use pyo3::PyErr;
use vstd::prelude::*;

verus! {

impl<V: Validator> DictValidator<V> {
    /// The entries that go through are the first ones of the source, in their order.
    pub proof fn law_walk_is_a_prefix(
        &self,
        source: EntrySource,
        extra: Extra,
        first: V::Guard,
        walk: Seq<EntryRecord<V::Guard>>,
        i: int,
    )
        requires
            self.walked(source, extra, first, walk),
            0 <= i < walk.len(),
        ensures
            entry_answered(source, i as nat, Some(Ok(walk[i].entry()))),
            self.entry_passed(extra, walk[i]),
            walk[i].before == guard_after(first, walk.take(i)),
        decreases walk.len(),
    {
        let earlier = walk.drop_last();
        if i < earlier.len() {
            self.law_walk_is_a_prefix(source, extra, first, earlier, i);
            assert(earlier.take(i) =~= walk.take(i));
        } else {
            assert(walk.take(i) =~= earlier);
        }
    }

    /// The entries that a source gives go through in their order, each once.
    pub proof fn law_given_entries(
        &self,
        source: EntrySource,
        entries: Seq<EntryView>,
        error: Option<ErrorView>,
        extra: Extra,
        first: V::Guard,
        walk: Seq<EntryRecord<V::Guard>>,
    )
        requires
            gives(source, entries, error),
            self.walked(source, extra, first, walk),
        ensures
            walk.len() <= entries.len(),
            forall|i: int| 0 <= i < walk.len() ==> (#[trigger] walk[i]).entry() == entries[i],
    {
        if walk.len() > entries.len() {
            self.law_walk_is_a_prefix(source, extra, first, walk, entries.len() as int);
        }
        assert forall|i: int| 0 <= i < walk.len() implies (#[trigger] walk[i]).entry()
            == entries[i] by {
            self.law_walk_is_a_prefix(source, extra, first, walk, i);
        }
    }

    /// Where the source gives its entries, an output has had every one of them looked at, and each
    /// was accepted and stored, or left out, or refused by a validator that named no fault. The
    /// output is the dictionary in which those that were accepted were stored in their order, and
    /// its length is within the bounds.
    pub proof fn law_accepted(
        &self,
        input: InputView,
        source: EntrySource,
        entries: Seq<EntryView>,
        extra: Extra,
        before: V::Guard,
        object: PyAny,
        after: V::Guard,
    )
        requires
            gives(source, entries, None),
            self.answers_source(input, source, extra, before, Ok(object), after),
        ensures
            exists|walk: Seq<EntryRecord<V::Guard>>, length: nat|
                {
                    &&& #[trigger] self.walked_through(source, entries, extra, before, walk, after)
                    &&& walk_lines(walk).len() == 0
                    &&& dict_made(object, walk_stored(walk), length)
                    &&& #[trigger] can_hold(walk_stored(walk), length)
                    &&& self.accepts_length(length)
                    &&& forall|i: int| 0 <= i < walk.len() ==> (#[trigger] walk[i]).settled()
                },
    {
        let walk = choose|walk: Seq<EntryRecord<V::Guard>>|
            {
                &&& #[trigger] self.walked(source, extra, before, walk)
                &&& entry_answered(source, walk.len(), None)
                &&& after == guard_after(before, walk)
                &&& self.concludes(input, walk_lines(walk), walk_stored(walk), Ok(object))
            };
        self.lemma_through(source, entries, extra, before, walk, after);
        let length = choose|length: nat|
            {
                &&& #[trigger] can_hold(walk_stored(walk), length)
                &&& dict_made(object, walk_stored(walk), length)
                &&& self.accepts_length(length)
            };
        assert forall|i: int| 0 <= i < walk.len() implies (#[trigger] walk[i]).settled() by {
            self.law_walk_is_a_prefix(source, extra, before, walk, i);
            lemma_walk_lines_contain(walk, i);
        }
        assert(self.walked_through(source, entries, extra, before, walk, after) && can_hold(
            walk_stored(walk),
            length,
        ));
    }

    /// Where the source gives its entries, the faults that are reported are those of all of them,
    /// in their order, and nothing else. Only where no entry has a fault is there one of the input
    /// as a whole, which is that the number of keys of the output is outside the bounds.
    pub proof fn law_refused(
        &self,
        input: InputView,
        source: EntrySource,
        entries: Seq<EntryView>,
        extra: Extra,
        before: V::Guard,
        lines: Seq<LineView>,
        after: V::Guard,
    )
        requires
            gives(source, entries, None),
            self.answers_source(
                input,
                source,
                extra,
                before,
                Err(ErrorView::LineErrors(lines)),
                after,
            ),
        ensures
            exists|walk: Seq<EntryRecord<V::Guard>>|
                {
                    &&& #[trigger] self.walked_through(source, entries, extra, before, walk, after)
                    &&& if walk_lines(walk).len() > 0 {
                        lines == walk_lines(walk)
                    } else {
                        self.refuses_length(input, walk_stored(walk), lines)
                    }
                },
    {
        let error = ErrorView::LineErrors(lines);
        let output = Err::<PyAny, ErrorView>(error);
        let walk = choose|walk: Seq<EntryRecord<V::Guard>>|
            {
                &&& #[trigger] self.walked(source, extra, before, walk)
                &&& {
                    ||| self.stopped(source, extra, before, walk, error, after)
                    ||| {
                        &&& entry_answered(source, walk.len(), None)
                        &&& after == guard_after(before, walk)
                        &&& self.concludes(input, walk_lines(walk), walk_stored(walk), output)
                    }
                }
            };
        self.law_given_entries(source, entries, None, extra, before, walk);
        self.lemma_through(source, entries, extra, before, walk, after);
        if walk_lines(walk).len() == 0 {
            let length = choose|length: nat|
                {
                    &&& #[trigger] can_hold(walk_stored(walk), length)
                    &&& length_error(
                        DICT_FIELD_TYPE@,
                        self.min_length(),
                        self.max_length(),
                        length as int,
                    ) matches Some(error_type)
                    &&& output == Err::<PyAny, ErrorView>(single_error(error_type, input))
                };
            assert(can_hold(walk_stored(walk), length));
        }
    }

    /// Where the source gives its entries, the validation fails only where one of them makes it
    /// fail: a validator fails on it, or it cannot be stored. What came before it was looked at in
    /// its order, and nothing after it was.
    pub proof fn law_failed(
        &self,
        input: InputView,
        source: EntrySource,
        entries: Seq<EntryView>,
        extra: Extra,
        before: V::Guard,
        exception: PyErr,
        after: V::Guard,
    )
        requires
            gives(source, entries, None),
            self.answers_source(
                input,
                source,
                extra,
                before,
                Err(ErrorView::InternalErr(exception)),
                after,
            ),
        ensures
            self.failed_at_entry(
                source,
                entries,
                extra,
                before,
                ErrorView::InternalErr(exception),
                after,
            ),
    {
        let error = ErrorView::InternalErr(exception);
        let walk = choose|walk: Seq<EntryRecord<V::Guard>>|
            {
                &&& #[trigger] self.walked(source, extra, before, walk)
                &&& self.stopped(source, extra, before, walk, error, after)
            };
        self.lemma_stopped_at_entry(source, entries, None, extra, before, walk, error, after);
    }

    /// Where the source gives some entries and then an error, that error is the result, whatever
    /// faults were noted, unless the validation has failed at one of the entries before.
    pub proof fn law_source_failed(
        &self,
        input: InputView,
        source: EntrySource,
        entries: Seq<EntryView>,
        error: ErrorView,
        extra: Extra,
        before: V::Guard,
        output: Result<PyAny, ErrorView>,
        after: V::Guard,
    )
        requires
            gives(source, entries, Some(error)),
            self.answers_source(input, source, extra, before, output, after),
        ensures
            output matches Err(reported) && {
                ||| reported == error
                ||| self.failed_at_entry(source, entries, extra, before, reported, after)
            },
    {
        let walk = choose|walk: Seq<EntryRecord<V::Guard>>|
            {
                &&& #[trigger] self.walked(source, extra, before, walk)
                &&& {
                    ||| output matches Err(reported) && self.stopped(
                        source,
                        extra,
                        before,
                        walk,
                        reported,
                        after,
                    )
                    ||| entry_answered(source, walk.len(), None)
                }
            };
        self.law_given_entries(source, entries, Some(error), extra, before, walk);
        if let Err(reported) = output {
            if !entry_answered(source, walk.len(), Some(Err(reported))) {
                self.lemma_stopped_at_entry(
                    source,
                    entries,
                    Some(error),
                    extra,
                    before,
                    walk,
                    reported,
                    after,
                );
            }
        }
    }

    /// An output that is reached depends on what the source gives alone: two sources that are found
    /// to give the same at every position, of whatever kind they are, have the same outputs.
    pub proof fn law_entries_alone(
        &self,
        input: InputView,
        source: EntrySource,
        other: EntrySource,
        extra: Extra,
        before: V::Guard,
        output: Result<PyAny, ErrorView>,
        after: V::Guard,
    )
        requires
            forall|position: nat, answer: Option<Result<EntryView, ErrorView>>| #[trigger]
                entry_answered(source, position, answer) <==> #[trigger] entry_answered(
                    other,
                    position,
                    answer,
                ),
        ensures
            self.answers_source(input, source, extra, before, output, after)
                <==> self.answers_source(input, other, extra, before, output, after),
    {
        if self.answers_source(input, source, extra, before, output, after) {
            self.lemma_same_answers(input, source, other, extra, before, output, after);
        }
        if self.answers_source(input, other, extra, before, output, after) {
            self.lemma_same_answers(input, other, source, extra, before, output, after);
        }
    }

    /// Validators that hand every Python object on copy the entries: an output is a dictionary in
    /// which the entries were stored as they came. Where there is none, the length of that
    /// dictionary is outside the bounds, or one of the entries could not be stored.
    pub proof fn law_copies(
        &self,
        input: InputView,
        source: EntrySource,
        entries: Seq<EntryView>,
        extra: Extra,
        before: V::Guard,
        output: Result<PyAny, ErrorView>,
        after: V::Guard,
    )
        requires
            gives(source, entries, None),
            forall|i: int|
                0 <= i < entries.len() ==> (#[trigger] entries[i]).key is PyAny
                    && entries[i].value is PyAny,
            hands_on(self.key_validator(), extra),
            hands_on(self.value_validator(), extra),
            self.answers_source(input, source, extra, before, output, after),
        ensures
            match output {
                Ok(object) => exists|length: nat|
                    {
                        &&& #[trigger] dict_made(object, copied(entries), length)
                        &&& can_hold(copied(entries), length)
                        &&& self.accepts_length(length)
                    },
                Err(ErrorView::LineErrors(lines)) => self.refuses_length(
                    input,
                    copied(entries),
                    lines,
                ),
                Err(ErrorView::InternalErr(exception)) => exists|i: int|
                    #![trigger copied(entries)[i]]
                    0 <= i < entries.len() && store_settled(
                        copied(entries).take(i),
                        copied(entries)[i],
                        Err(exception),
                    ),
                Err(ErrorView::Omit) => false,
            },
    {
        match output {
            Ok(object) => {
                self.law_accepted(input, source, entries, extra, before, object, after);
                let (walk, length) = choose|walk: Seq<EntryRecord<V::Guard>>, length: nat|
                    {
                        &&& #[trigger] self.walked_through(
                            source,
                            entries,
                            extra,
                            before,
                            walk,
                            after,
                        )
                        &&& dict_made(object, walk_stored(walk), length)
                        &&& #[trigger] can_hold(walk_stored(walk), length)
                        &&& self.accepts_length(length)
                    };
                self.lemma_copied(source, entries, extra, before, walk);
                assert(copied(entries).take(walk.len() as int) =~= copied(entries));
            },
            Err(ErrorView::LineErrors(lines)) => {
                self.law_refused(input, source, entries, extra, before, lines, after);
                let walk = choose|walk: Seq<EntryRecord<V::Guard>>|
                    {
                        &&& #[trigger] self.walked_through(
                            source,
                            entries,
                            extra,
                            before,
                            walk,
                            after,
                        )
                        &&& if walk_lines(walk).len() > 0 {
                            lines == walk_lines(walk)
                        } else {
                            self.refuses_length(input, walk_stored(walk), lines)
                        }
                    };
                self.lemma_copied(source, entries, extra, before, walk);
                assert(copied(entries).take(walk.len() as int) =~= copied(entries));
            },
            Err(ErrorView::InternalErr(exception)) => {
                let error = ErrorView::InternalErr(exception);
                self.law_failed(input, source, entries, extra, before, exception, after);
                let (walk, record) = choose|
                    walk: Seq<EntryRecord<V::Guard>>,
                    record: EntryRecord<V::Guard>,
                |
                    {
                        &&& #[trigger] self.walked(source, extra, before, walk)
                        &&& #[trigger] self.entry_recorded(extra, record)
                        &&& walk.len() < entries.len()
                        &&& forall|i: int|
                            0 <= i < walk.len() ==> (#[trigger] walk[i]).entry() == entries[i]
                        &&& record.entry() == entries[walk.len() as int]
                        &&& self.entry_stops(extra, walk_stored(walk), record, error)
                    };
                self.lemma_copied(source, entries, extra, before, walk);
                let i = walk.len() as int;
                assert(entries[i].key is PyAny && entries[i].value is PyAny);
                assert(record.stored()[0] == copied(entries)[i]);
            },
            Err(ErrorView::Omit) => {
                let walk = choose|walk: Seq<EntryRecord<V::Guard>>|
                    {
                        &&& #[trigger] self.walked(source, extra, before, walk)
                        &&& {
                            ||| self.stopped(source, extra, before, walk, ErrorView::Omit, after)
                            ||| self.concludes(
                                input,
                                walk_lines(walk),
                                walk_stored(walk),
                                output,
                            )
                        }
                    };
                self.law_given_entries(source, entries, None, extra, before, walk);
            },
        }
    }

    /// An input that gives its entries is answered for a source that gives them: what the laws say
    /// of such a source holds of the validation of the input, be it a dictionary, another mapping
    /// or a JSON object.
    pub proof fn law_input_entries(
        &self,
        input: InputView,
        entries: Seq<EntryView>,
        error: Option<ErrorView>,
        extra: Extra,
        before: V::Guard,
        output: Result<PyAny, ErrorView>,
        after: V::Guard,
    )
        requires
            input_gives(input, self.is_strict(extra), entries, error),
            self.answers(input, extra, before, output, after),
        ensures
            exists|source: EntrySource|
                {
                    &&& #[trigger] gives(source, entries, error)
                    &&& self.answers_source(input, source, extra, before, output, after)
                },
    {
        let mapping = choose|mapping: Result<MappingView, ErrorView>|
            {
                &&& #[trigger] dict_answered(input, self.is_strict(extra), mapping)
                &&& match mapping {
                    Err(error) => output == Err::<PyAny, ErrorView>(error) && after == before,
                    Ok(mapping) => self.answers_mapping(
                        input,
                        mapping,
                        extra,
                        before,
                        output,
                        after,
                    ),
                }
            };
        let begun = choose|begun: Result<EntrySource, ErrorView>|
            {
                &&& #[trigger] source_begun(mapping->Ok_0, begun)
                &&& match begun {
                    Err(error) => output == Err::<PyAny, ErrorView>(error) && after == before,
                    Ok(source) => self.answers_source(
                        input,
                        source,
                        extra,
                        before,
                        output,
                        after,
                    ),
                }
            };
        assert(gives(begun->Ok_0, entries, error));
    }

    /// An input that gives some entries and then an error is answered with that error, unless the
    /// validation has failed at one of the entries before.
    pub proof fn law_input_failed(
        &self,
        input: InputView,
        entries: Seq<EntryView>,
        error: ErrorView,
        extra: Extra,
        before: V::Guard,
        output: Result<PyAny, ErrorView>,
        after: V::Guard,
    )
        requires
            input_gives(input, self.is_strict(extra), entries, Some(error)),
            self.answers(input, extra, before, output, after),
        ensures
            output matches Err(reported) && {
                ||| reported == error
                ||| exists|source: EntrySource| #[trigger]
                    self.failed_at_entry(source, entries, extra, before, reported, after)
            },
    {
        self.law_input_entries(input, entries, Some(error), extra, before, output, after);
        let source = choose|source: EntrySource|
            {
                &&& #[trigger] gives(source, entries, Some(error))
                &&& self.answers_source(input, source, extra, before, output, after)
            };
        self.law_source_failed(input, source, entries, error, extra, before, output, after);
    }

    /// Whether no entry ends the validation, whatever the validators give: neither fails on its
    /// part of an entry, and what stands for the key can be stored.
    pub open spec fn no_entry_fails(&self, entries: Seq<EntryView>, extra: Extra) -> bool {
        &&& forall|i: int|
            0 <= i < entries.len() ==> never_fails(
                self.key_validator(),
                (#[trigger] entries[i]).key,
                extra,
            ) && never_fails(self.value_validator(), entries[i].value, extra)
        &&& {
            ||| forall|i: int|
                0 <= i < entries.len() ==> gives_storable(
                    self.key_validator(),
                    (#[trigger] entries[i]).key,
                    extra,
                )
            ||| forall|i: int|
                0 <= i < entries.len() ==> gives_plain(
                    self.key_validator(),
                    (#[trigger] entries[i]).key,
                    extra,
                )
        }
    }

    /// An output is owed where no entry ends the validation: all the entries go through, and the
    /// result is their faults, or else the dictionary of what was accepted, or else the fault of
    /// its length. Where the input gives an error after the entries, that error is the result.
    pub proof fn law_owed(
        &self,
        input: InputView,
        entries: Seq<EntryView>,
        error: Option<ErrorView>,
        extra: Extra,
        before: V::Guard,
        output: Result<PyAny, ErrorView>,
        after: V::Guard,
    )
        requires
            input_gives(input, self.is_strict(extra), entries, error),
            self.no_entry_fails(entries, extra),
            self.answers(input, extra, before, output, after),
        ensures
            match error {
                Some(error) => output == Err::<PyAny, ErrorView>(error),
                None => exists|source: EntrySource, walk: Seq<EntryRecord<V::Guard>>|
                    {
                        &&& #[trigger] self.walked_through(
                            source,
                            entries,
                            extra,
                            before,
                            walk,
                            after,
                        )
                        &&& self.concludes(input, walk_lines(walk), walk_stored(walk), output)
                    },
            },
    {
        self.law_input_entries(input, entries, error, extra, before, output, after);
        let source = choose|source: EntrySource|
            {
                &&& #[trigger] gives(source, entries, error)
                &&& self.answers_source(input, source, extra, before, output, after)
            };
        let walk = choose|walk: Seq<EntryRecord<V::Guard>>|
            {
                &&& #[trigger] self.walked(source, extra, before, walk)
                &&& {
                    ||| output matches Err(reported) && self.stopped(
                        source,
                        extra,
                        before,
                        walk,
                        reported,
                        after,
                    )
                    ||| {
                        &&& entry_answered(source, walk.len(), None)
                        &&& after == guard_after(before, walk)
                        &&& self.concludes(input, walk_lines(walk), walk_stored(walk), output)
                    }
                }
            };
        self.law_given_entries(source, entries, error, extra, before, walk);
        if let Err(reported) = output {
            if self.stopped(source, extra, before, walk, reported, after) {
                assert forall|record: EntryRecord<V::Guard>| #[trigger]
                    self.entry_recorded(extra, record) && walk.len() < entries.len()
                        && record.entry() == entries[walk.len() as int] implies !self.entry_stops(
                    extra,
                    walk_stored(walk),
                    record,
                    reported,
                ) by {
                    self.lemma_entry_goes_on(
                        source,
                        entries,
                        extra,
                        before,
                        walk,
                        record,
                        reported,
                    );
                }
            }
        }
        if error is None {
            assert(self.walked_through(source, entries, extra, before, walk, after));
        }
    }

    /// An entry that the validators cannot fail on, and that can be stored, does not end the
    /// validation.
    proof fn lemma_entry_goes_on(
        &self,
        source: EntrySource,
        entries: Seq<EntryView>,
        extra: Extra,
        first: V::Guard,
        walk: Seq<EntryRecord<V::Guard>>,
        record: EntryRecord<V::Guard>,
        error: ErrorView,
    )
        requires
            self.no_entry_fails(entries, extra),
            self.walked(source, extra, first, walk),
            walk.len() < entries.len(),
            forall|i: int| 0 <= i < walk.len() ==> (#[trigger] walk[i]).entry() == entries[i],
            record.entry() == entries[walk.len() as int],
            self.entry_recorded(extra, record),
        ensures
            !self.entry_stops(extra, walk_stored(walk), record, error),
    {
        let at = walk.len() as int;
        assert(never_fails(self.key_validator(), entries[at].key, extra));
        assert(never_fails(self.value_validator(), entries[at].value, extra));
        if record.stored().len() > 0 {
            let entry = record.stored()[0];
            if gives_plain(self.key_validator(), entries[at].key, extra) && forall|i: int|
                0 <= i < entries.len() ==> gives_plain(
                    self.key_validator(),
                    (#[trigger] entries[i]).key,
                    extra,
                ) {
                self.lemma_plain_stored(source, entries, extra, first, walk);
                let stored = walk_stored(walk).push(entry);
                assert forall|i: int| 0 <= i < stored.len() implies is_plain_string(
                    (#[trigger] stored[i]).key,
                ) by {
                    if i < walk_stored(walk).len() {
                        assert(stored[i] == walk_stored(walk)[i]);
                    }
                }
                assert(plain_keys(stored));
            } else {
                assert(gives_storable(self.key_validator(), entries[at].key, extra));
                assert(storable(entry.key));
            }
        }
    }

    /// Where strings of the class `str` itself stand for all keys, these are the keys that are
    /// stored.
    proof fn lemma_plain_stored(
        &self,
        source: EntrySource,
        entries: Seq<EntryView>,
        extra: Extra,
        first: V::Guard,
        walk: Seq<EntryRecord<V::Guard>>,
    )
        requires
            forall|i: int|
                0 <= i < entries.len() ==> gives_plain(
                    self.key_validator(),
                    (#[trigger] entries[i]).key,
                    extra,
                ),
            self.walked(source, extra, first, walk),
            walk.len() <= entries.len(),
            forall|i: int| 0 <= i < walk.len() ==> (#[trigger] walk[i]).entry() == entries[i],
        ensures
            plain_keys(walk_stored(walk)),
        decreases walk.len(),
    {
        if walk.len() > 0 {
            let earlier = walk.drop_last();
            let last = walk.len() - 1;
            assert forall|i: int| 0 <= i < earlier.len() implies (#[trigger] earlier[i]).entry()
                == entries[i] by {
                assert(earlier[i] == walk[i]);
            }
            self.lemma_plain_stored(source, entries, extra, first, earlier);
            assert(walk[last].entry() == entries[last]);
            assert(gives_plain(self.key_validator(), entries[last].key, extra));
            assert forall|i: int| 0 <= i < walk_stored(walk).len() implies is_plain_string(
                (#[trigger] walk_stored(walk)[i]).key,
            ) by {
                if i < walk_stored(earlier).len() {
                    assert(walk_stored(walk)[i] == walk_stored(earlier)[i]);
                }
            }
        }
    }

    /// Validators that hand every Python object on, without bounds, copy the input: the output is
    /// another object than the input, a dictionary in which the entries of the input were stored as
    /// they came.
    pub proof fn law_copies_input(
        &self,
        object: PyAny,
        entries: Seq<EntryView>,
        extra: Extra,
        before: V::Guard,
        output: Result<PyAny, ErrorView>,
        after: V::Guard,
    )
        requires
            input_gives(InputView::PyAny(object), self.is_strict(extra), entries, None),
            forall|i: int|
                0 <= i < entries.len() ==> (#[trigger] entries[i]).key is PyAny
                    && entries[i].value is PyAny,
            hands_on(self.key_validator(), extra),
            hands_on(self.value_validator(), extra),
            self.min_length() is None,
            self.max_length() is None,
            copies_can_be_stored(entries),
            self.answers(InputView::PyAny(object), extra, before, output, after),
        ensures
            output matches Ok(made) && {
                &&& made != object
                &&& exists|length: nat|
                    {
                        &&& #[trigger] dict_made(made, copied(entries), length)
                        &&& can_hold(copied(entries), length)
                    }
            },
    {
        let input = InputView::PyAny(object);
        assert forall|i: int| 0 <= i < entries.len() implies never_fails(
            self.key_validator(),
            (#[trigger] entries[i]).key,
            extra,
        ) && never_fails(self.value_validator(), entries[i].value, extra) by {
            assert(entries[i].key == InputView::PyAny(entries[i].key->PyAny_0));
            assert(entries[i].value == InputView::PyAny(entries[i].value->PyAny_0));
        }
        if plain_keys(copied(entries)) {
            assert forall|i: int| 0 <= i < entries.len() implies gives_plain(
                self.key_validator(),
                (#[trigger] entries[i]).key,
                extra,
            ) by {
                assert(entries[i].key == InputView::PyAny(entries[i].key->PyAny_0));
                assert(is_plain_string(copied(entries)[i].key));
            }
        } else {
            assert forall|i: int| 0 <= i < entries.len() implies gives_storable(
                self.key_validator(),
                (#[trigger] entries[i]).key,
                extra,
            ) by {
                assert(entries[i].key == InputView::PyAny(entries[i].key->PyAny_0));
            }
        }
        assert(self.no_entry_fails(entries, extra));
        self.law_owed(input, entries, None, extra, before, output, after);
        let (source, walk) = choose|source: EntrySource, walk: Seq<EntryRecord<V::Guard>>|
            {
                &&& #[trigger] self.walked_through(source, entries, extra, before, walk, after)
                &&& self.concludes(input, walk_lines(walk), walk_stored(walk), output)
            };
        self.lemma_copied(source, entries, extra, before, walk);
        assert(copied(entries).take(walk.len() as int) =~= copied(entries));
    }

    /// What goes through from one source goes through alike from another of whatever kind, where
    /// the validators and the locations agree on the entries of both, one by one: the same is given
    /// for both, but for the input that a fault reports.
    pub proof fn law_kinds_agree(
        &self,
        input: InputView,
        source: EntrySource,
        entries: Seq<EntryView>,
        other_input: InputView,
        other: EntrySource,
        other_entries: Seq<EntryView>,
        extra: Extra,
        before: V::Guard,
        output: Result<PyAny, ErrorView>,
        after: V::Guard,
    )
        requires
            gives(source, entries, None),
            self.answers_source(input, source, extra, before, output, after),
            has_given(other, other_entries),
            self.entries_agree(entries, other_entries, extra),
        ensures
            exists|other_output: Result<PyAny, ErrorView>|
                {
                    &&& #[trigger] alike(output, other_output)
                    &&& self.answers_source(
                        other_input,
                        other,
                        extra,
                        before,
                        other_output,
                        after,
                    )
                },
    {
        let walk = choose|walk: Seq<EntryRecord<V::Guard>>|
            {
                &&& #[trigger] self.walked(source, extra, before, walk)
                &&& {
                    ||| output matches Err(error) && self.stopped(
                        source,
                        extra,
                        before,
                        walk,
                        error,
                        after,
                    )
                    ||| {
                        &&& entry_answered(source, walk.len(), None)
                        &&& after == guard_after(before, walk)
                        &&& self.concludes(input, walk_lines(walk), walk_stored(walk), output)
                    }
                }
            };
        self.law_given_entries(source, entries, None, extra, before, walk);
        let other_walk = self.lemma_walk_alike(
            source,
            entries,
            other,
            other_entries,
            extra,
            before,
            walk,
        );
        if output matches Err(error) && self.stopped(source, extra, before, walk, error, after) {
            let error = output->Err_0;
            let record = choose|record: EntryRecord<V::Guard>|
                {
                    &&& #[trigger] self.entry_recorded(extra, record)
                    &&& entry_answered(source, walk.len(), Some(Ok(record.entry())))
                    &&& record.before == guard_after(before, walk)
                    &&& record.after == after
                    &&& self.entry_stops(extra, walk_stored(walk), record, error)
                };
            let at = walk.len() as int;
            assert(record.entry() == entries[at]);
            let other_record = self.lemma_record_alike(entries, other_entries, extra, record, at);
            assert(entry_answered(other, at as nat, Some(Ok(other_entries[at]))));
            assert(self.entry_recorded(extra, other_record));
            assert(self.entry_stops(extra, walk_stored(other_walk), other_record, error));
            assert(self.stopped(other, extra, before, other_walk, error, after));
            assert(alike(output, output));
        } else if walk_lines(walk).len() > 0 {
            let other_output = Err::<PyAny, ErrorView>(
                ErrorView::LineErrors(walk_lines(other_walk)),
            );
            assert(alike(output, other_output));
            assert(self.concludes(
                other_input,
                walk_lines(other_walk),
                walk_stored(other_walk),
                other_output,
            ));
        } else {
            let length = choose|length: nat|
                {
                    &&& #[trigger] can_hold(walk_stored(walk), length)
                    &&& match length_error(
                        DICT_FIELD_TYPE@,
                        self.min_length(),
                        self.max_length(),
                        length as int,
                    ) {
                        Some(error_type) => output == Err::<PyAny, ErrorView>(
                            single_error(error_type, input),
                        ),
                        None => output matches Ok(object) && dict_made(
                            object,
                            walk_stored(walk),
                            length,
                        ),
                    }
                };
            assert(can_hold(walk_stored(other_walk), length));
            let other_output = match length_error(
                DICT_FIELD_TYPE@,
                self.min_length(),
                self.max_length(),
                length as int,
            ) {
                Some(error_type) => Err::<PyAny, ErrorView>(single_error(error_type, other_input)),
                None => output,
            };
            assert(alike(output, other_output));
            assert(self.concludes(
                other_input,
                walk_lines(other_walk),
                walk_stored(other_walk),
                other_output,
            ));
        }
    }

    /// Two inputs of whatever kinds that give entries on which the validators and the locations
    /// agree are answered alike, but for the input that a fault reports.
    pub proof fn law_inputs_agree(
        &self,
        input: InputView,
        entries: Seq<EntryView>,
        other_input: InputView,
        mapping: MappingView,
        other: EntrySource,
        other_entries: Seq<EntryView>,
        extra: Extra,
        before: V::Guard,
        output: Result<PyAny, ErrorView>,
        after: V::Guard,
    )
        requires
            input_gives(input, self.is_strict(extra), entries, None),
            self.answers(input, extra, before, output, after),
            dict_answered(other_input, self.is_strict(extra), Ok(mapping)),
            source_begun(mapping, Ok(other)),
            has_given(other, other_entries),
            self.entries_agree(entries, other_entries, extra),
            is_another(other_input, output),
        ensures
            exists|other_output: Result<PyAny, ErrorView>|
                {
                    &&& #[trigger] alike(output, other_output)
                    &&& self.answers(other_input, extra, before, other_output, after)
                },
    {
        self.law_input_entries(input, entries, None, extra, before, output, after);
        let source = choose|source: EntrySource|
            {
                &&& #[trigger] gives(source, entries, None)
                &&& self.answers_source(input, source, extra, before, output, after)
            };
        self.law_kinds_agree(
            input,
            source,
            entries,
            other_input,
            other,
            other_entries,
            extra,
            before,
            output,
            after,
        );
        let other_output = choose|other_output: Result<PyAny, ErrorView>|
            {
                &&& #[trigger] alike(output, other_output)
                &&& self.answers_source(other_input, other, extra, before, other_output, after)
            };
        assert(self.answers_mapping(other_input, mapping, extra, before, other_output, after));
        assert(self.answers(other_input, extra, before, other_output, after));
    }

    /// Whether the validators, and the locations of the keys, agree on entries and others, one by
    /// one.
    pub open spec fn entries_agree(
        &self,
        entries: Seq<EntryView>,
        others: Seq<EntryView>,
        extra: Extra,
    ) -> bool {
        &&& others.len() == entries.len()
        &&& forall|i: int|
            0 <= i < entries.len() ==> {
                &&& agrees_on(
                    self.key_validator(),
                    extra,
                    (#[trigger] entries[i]).key,
                    others[i].key,
                )
                &&& agrees_on(self.value_validator(), extra, entries[i].value, others[i].value)
                &&& located_alike(entries[i].key, others[i].key)
            }
    }

    /// An entry goes through alike where the validators and the locations agree.
    proof fn lemma_record_alike(
        &self,
        entries: Seq<EntryView>,
        others: Seq<EntryView>,
        extra: Extra,
        record: EntryRecord<V::Guard>,
        at: int,
    ) -> (other: EntryRecord<V::Guard>)
        requires
            self.entries_agree(entries, others, extra),
            0 <= at < entries.len(),
            record.entry() == entries[at],
            self.entry_recorded(extra, record),
        ensures
            self.entry_recorded(extra, other),
            other.entry() == others[at],
            other.before == record.before,
            other.after == record.after,
            other.stored() == record.stored(),
            alike_lines(record.lines(), other.lines()),
            alike(record.key_output, other.key_output),
            match record.value_output {
                Some(output) => other.value_output is Some && alike(output, other.value_output->0),
                None => other.value_output is None,
            },
    {
        let key = others[at].key;
        let value = others[at].value;
        assert(agrees_on(self.key_validator(), extra, entries[at].key, key));
        assert(answers_alike(
            self.key_validator(),
            extra,
            key,
            record.before,
            record.key_output,
            record.between,
        ));
        let key_output = choose|output: Result<PyAny, ErrorView>|
            {
                &&& #[trigger] alike(record.key_output, output)
                &&& self.key_validator().answers(
                    key,
                    extra,
                    record.before,
                    output,
                    record.between,
                )
            };
        let key_lines = lemma_noted_alike(
            record.key_output,
            record.key,
            record.key_lines,
            key_output,
            key,
            true,
        );
        let mut value_output: Option<Result<PyAny, ErrorView>> = None;
        let mut value_lines: Seq<LineView> = Seq::empty();
        if let Some(given) = record.value_output {
            assert(answers_alike(
                self.value_validator(),
                extra,
                value,
                record.between,
                given,
                record.after,
            ));
            let found = choose|output: Result<PyAny, ErrorView>|
                {
                    &&& #[trigger] alike(given, output)
                    &&& self.value_validator().answers(
                        value,
                        extra,
                        record.between,
                        output,
                        record.after,
                    )
                };
            value_output = Some(found);
            value_lines = lemma_noted_alike(
                given,
                record.key,
                record.value_lines,
                found,
                key,
                false,
            );
        }
        let other = EntryRecord {
            key,
            value,
            before: record.before,
            between: record.between,
            after: record.after,
            key_output,
            key_lines,
            value_output,
            value_lines,
        };
        lemma_alike_add(record.key_lines, record.value_lines, key_lines, value_lines);
        assert(other.stored() =~= record.stored());
        assert(others[at] == other.entry());
        other
    }

    /// Entries go through alike where the validators and the locations agree.
    proof fn lemma_walk_alike(
        &self,
        source: EntrySource,
        entries: Seq<EntryView>,
        other: EntrySource,
        others: Seq<EntryView>,
        extra: Extra,
        first: V::Guard,
        walk: Seq<EntryRecord<V::Guard>>,
    ) -> (other_walk: Seq<EntryRecord<V::Guard>>)
        requires
            has_given(other, others),
            self.entries_agree(entries, others, extra),
            self.walked(source, extra, first, walk),
            walk.len() <= entries.len(),
            forall|i: int| 0 <= i < walk.len() ==> (#[trigger] walk[i]).entry() == entries[i],
        ensures
            self.walked(other, extra, first, other_walk),
            other_walk.len() == walk.len(),
            guard_after(first, other_walk) == guard_after(first, walk),
            walk_stored(other_walk) == walk_stored(walk),
            alike_lines(walk_lines(walk), walk_lines(other_walk)),
        decreases walk.len(),
    {
        if walk.len() == 0 {
            walk
        } else {
            let earlier = walk.drop_last();
            let last = walk.len() - 1;
            assert forall|i: int| 0 <= i < earlier.len() implies (#[trigger] earlier[i]).entry()
                == entries[i] by {
                assert(earlier[i] == walk[i]);
            }
            let other_earlier = self.lemma_walk_alike(
                source,
                entries,
                other,
                others,
                extra,
                first,
                earlier,
            );
            assert(walk[last].entry() == entries[last]);
            let record = self.lemma_record_alike(entries, others, extra, walk.last(), last);
            let other_walk = other_earlier.push(record);
            assert(other_walk.drop_last() =~= other_earlier);
            assert(entry_answered(other, last as nat, Some(Ok(others[last]))));
            lemma_alike_add(
                walk_lines(earlier),
                walk.last().lines(),
                walk_lines(other_earlier),
                record.lines(),
            );
            other_walk
        }
    }

    /// Whether all the entries went through one after the other so.
    pub open spec fn walked_through(
        &self,
        source: EntrySource,
        entries: Seq<EntryView>,
        extra: Extra,
        first: V::Guard,
        walk: Seq<EntryRecord<V::Guard>>,
        last: V::Guard,
    ) -> bool {
        &&& self.walked(source, extra, first, walk)
        &&& walk.len() == entries.len()
        &&& forall|i: int| 0 <= i < walk.len() ==> (#[trigger] walk[i]).entry() == entries[i]
        &&& last == guard_after(first, walk)
    }

    /// Whether the validation has failed with the error at one of the entries, those before it
    /// having gone through.
    pub open spec fn failed_at_entry(
        &self,
        source: EntrySource,
        entries: Seq<EntryView>,
        extra: Extra,
        first: V::Guard,
        error: ErrorView,
        last: V::Guard,
    ) -> bool {
        exists|walk: Seq<EntryRecord<V::Guard>>, record: EntryRecord<V::Guard>|
            {
                &&& #[trigger] self.walked(source, extra, first, walk)
                &&& #[trigger] self.entry_recorded(extra, record)
                &&& walk.len() < entries.len()
                &&& forall|i: int|
                    0 <= i < walk.len() ==> (#[trigger] walk[i]).entry() == entries[i]
                &&& record.entry() == entries[walk.len() as int]
                &&& record.before == guard_after(first, walk)
                &&& record.after == last
                &&& self.entry_stops(extra, walk_stored(walk), record, error)
            }
    }

    /// Whether a number of keys is within the bounds.
    pub open spec fn accepts_length(&self, length: nat) -> bool {
        length_error(
            DICT_FIELD_TYPE@,
            self.min_length(),
            self.max_length(),
            length as int,
        ) is None
    }

    /// Whether the faults are the one that a dictionary in which those entries were stored has a
    /// number of keys outside the bounds.
    pub open spec fn refuses_length(
        &self,
        input: InputView,
        stored: Seq<StoredEntry>,
        lines: Seq<LineView>,
    ) -> bool {
        exists|length: nat|
            {
                &&& #[trigger] can_hold(stored, length)
                &&& length_error(
                    DICT_FIELD_TYPE@,
                    self.min_length(),
                    self.max_length(),
                    length as int,
                ) matches Some(error_type)
                &&& ErrorView::LineErrors(lines) == single_error(error_type, input)
            }
    }

    /// A walk after which the source is at its end has had all its entries.
    proof fn lemma_through(
        &self,
        source: EntrySource,
        entries: Seq<EntryView>,
        extra: Extra,
        first: V::Guard,
        walk: Seq<EntryRecord<V::Guard>>,
        last: V::Guard,
    )
        requires
            gives(source, entries, None),
            self.walked(source, extra, first, walk),
            entry_answered(source, walk.len(), None),
            last == guard_after(first, walk),
        ensures
            self.walked_through(source, entries, extra, first, walk, last),
    {
        self.law_given_entries(source, entries, None, extra, first, walk);
    }

    /// A walk that is not stopped by its source is stopped at one of the entries.
    proof fn lemma_stopped_at_entry(
        &self,
        source: EntrySource,
        entries: Seq<EntryView>,
        end: Option<ErrorView>,
        extra: Extra,
        first: V::Guard,
        walk: Seq<EntryRecord<V::Guard>>,
        error: ErrorView,
        last: V::Guard,
    )
        requires
            gives(source, entries, end),
            self.walked(source, extra, first, walk),
            self.stopped(source, extra, first, walk, error, last),
            end is None || !entry_answered(source, walk.len(), Some(Err(error))),
        ensures
            self.failed_at_entry(source, entries, extra, first, error, last),
    {
        self.law_given_entries(source, entries, end, extra, first, walk);
        let record = choose|record: EntryRecord<V::Guard>|
            {
                &&& #[trigger] self.entry_recorded(extra, record)
                &&& entry_answered(source, walk.len(), Some(Ok(record.entry())))
                &&& record.before == guard_after(first, walk)
                &&& record.after == last
                &&& self.entry_stops(extra, walk_stored(walk), record, error)
            };
        assert(self.walked(source, extra, first, walk) && self.entry_recorded(extra, record));
    }

    /// What went through from one source may go through from another that gives the same.
    proof fn lemma_same_walk(
        &self,
        source: EntrySource,
        other: EntrySource,
        extra: Extra,
        first: V::Guard,
        walk: Seq<EntryRecord<V::Guard>>,
    )
        requires
            forall|position: nat, answer: Option<Result<EntryView, ErrorView>>| #[trigger]
                entry_answered(source, position, answer) <==> #[trigger] entry_answered(
                    other,
                    position,
                    answer,
                ),
            self.walked(source, extra, first, walk),
        ensures
            self.walked(other, extra, first, walk),
        decreases walk.len(),
    {
        if walk.len() > 0 {
            self.lemma_same_walk(source, other, extra, first, walk.drop_last());
        }
    }

    /// What is an output for one source is one for another that gives the same.
    proof fn lemma_same_answers(
        &self,
        input: InputView,
        source: EntrySource,
        other: EntrySource,
        extra: Extra,
        before: V::Guard,
        output: Result<PyAny, ErrorView>,
        after: V::Guard,
    )
        requires
            forall|position: nat, answer: Option<Result<EntryView, ErrorView>>| #[trigger]
                entry_answered(source, position, answer) <==> #[trigger] entry_answered(
                    other,
                    position,
                    answer,
                ),
            self.answers_source(input, source, extra, before, output, after),
        ensures
            self.answers_source(input, other, extra, before, output, after),
    {
        let walk = choose|walk: Seq<EntryRecord<V::Guard>>|
            {
                &&& #[trigger] self.walked(source, extra, before, walk)
                &&& {
                    ||| output matches Err(error) && self.stopped(
                        source,
                        extra,
                        before,
                        walk,
                        error,
                        after,
                    )
                    ||| {
                        &&& entry_answered(source, walk.len(), None)
                        &&& after == guard_after(before, walk)
                        &&& self.concludes(input, walk_lines(walk), walk_stored(walk), output)
                    }
                }
            };
        self.lemma_same_walk(source, other, extra, before, walk);
    }

    /// Entries that validators hand on are stored as they came, and have no faults.
    proof fn lemma_copied(
        &self,
        source: EntrySource,
        entries: Seq<EntryView>,
        extra: Extra,
        first: V::Guard,
        walk: Seq<EntryRecord<V::Guard>>,
    )
        requires
            forall|i: int|
                0 <= i < entries.len() ==> (#[trigger] entries[i]).key is PyAny
                    && entries[i].value is PyAny,
            hands_on(self.key_validator(), extra),
            hands_on(self.value_validator(), extra),
            self.walked(source, extra, first, walk),
            walk.len() <= entries.len(),
            forall|i: int| 0 <= i < walk.len() ==> (#[trigger] walk[i]).entry() == entries[i],
        ensures
            walk_lines(walk) == Seq::<LineView>::empty(),
            walk_stored(walk) == copied(entries).take(walk.len() as int),
        decreases walk.len(),
    {
        if walk.len() > 0 {
            let earlier = walk.drop_last();
            let last = walk.len() - 1;
            assert forall|i: int| 0 <= i < earlier.len() implies (#[trigger] earlier[i]).entry()
                == entries[i] by {
                assert(earlier[i] == walk[i]);
            }
            self.lemma_copied(source, entries, extra, first, earlier);
            assert(walk[last].entry() == entries[last]);
            assert(entries[last].key is PyAny && entries[last].value is PyAny);
            assert(walk.last().stored() =~= seq![copied(entries)[last]]);
            assert(walk.last().lines() =~= Seq::<LineView>::empty());
            assert(walk_stored(walk) =~= copied(entries).take(walk.len() as int));
        } else {
            assert(walk_stored(walk) =~= copied(entries).take(0));
        }
    }
}

/// Whether the input is taken for a mapping that gives exactly those entries and then the end, or
/// the error where there is one, however it is asked.
pub open spec fn input_gives(
    input: InputView,
    strict: bool,
    entries: Seq<EntryView>,
    error: Option<ErrorView>,
) -> bool {
    forall|mapping: Result<MappingView, ErrorView>| #[trigger]
        dict_answered(input, strict, mapping) ==> mapping is Ok && mapping_gives(
            mapping->Ok_0,
            entries,
            error,
        )
}

/// Whether a walk over the mapping, however it begins, gives exactly those entries and then the
/// end, or the error where there is one.
pub open spec fn mapping_gives(
    mapping: MappingView,
    entries: Seq<EntryView>,
    error: Option<ErrorView>,
) -> bool {
    forall|begun: Result<EntrySource, ErrorView>| #[trigger]
        source_begun(mapping, begun) ==> begun is Ok && gives(begun->Ok_0, entries, error)
}

/// Whether a walk over the items of the dictionary, however it begins, gives exactly those items
/// and then the end.
pub open spec fn dict_holds(dict: PyDict, items: Seq<PyAny>) -> bool {
    forall|view: Result<&PyAny, PyErr>| #[trigger]
        dict_items_answered(dict, view) ==> view is Ok && object_holds(*view->Ok_0, items)
}

/// Whether a walk over the items of the mapping, however it begins, gives exactly those items and
/// then the end.
pub open spec fn mapping_holds(mapping: PyMapping, items: Seq<PyAny>) -> bool {
    forall|sequence: Result<&PySequence, PyErr>| #[trigger]
        items_answered(mapping, sequence) ==> sequence is Ok && object_holds(
            sequence_object(*sequence->Ok_0),
            items,
        )
}

/// Whether every iterator over the object gives exactly those items and then the end.
pub open spec fn object_holds(object: PyAny, items: Seq<PyAny>) -> bool {
    forall|iter: Result<PyIterator, PyErr>| #[trigger]
        iter_answered(object, iter) ==> iter is Ok && iterator_gives(iter->Ok_0, items)
}

/// A Python `dict` gives the entries that it holds, each once and in their order, strict or not.
pub proof fn law_dict_input_gives(
    object: PyAny,
    dict: PyDict,
    items: Seq<PyAny>,
    strict: bool,
)
    requires
        as_dict(object) == Some(dict),
        dict_holds(dict, items),
        items.len() < usize::MAX,
        forall|i: int| 0 <= i < items.len() ==> pair_parts(#[trigger] items[i]) is Some,
    ensures
        input_gives(InputView::PyAny(object), strict, pair_entries(items), None),
{
    assert forall|begun: Result<EntrySource, ErrorView>| #[trigger]
        source_begun(MappingView::PyDict(dict), begun) implies begun is Ok && gives(
        begun->Ok_0,
        pair_entries(items),
        None,
    ) by {
        let view = choose|view: Result<&PyAny, PyErr>|
            {
                &&& #[trigger] dict_items_answered(dict, view)
                &&& view matches Ok(view) ==> dict_view_begun(*view, begun)
            };
        let iter = choose|iter: Result<PyIterator, PyErr>|
            {
                &&& #[trigger] iter_answered(*view->Ok_0, iter)
                &&& iter matches Ok(iterator) ==> begun == Ok::<EntrySource, ErrorView>(
                    EntrySource::Dict { iterator },
                )
            };
        law_dict_gives(iter->Ok_0, items);
    }
}

/// A Python object that passes for a mapping gives the items of that mapping, each once and in
/// their order, unless the validation is strict.
pub proof fn law_mapping_input_gives(object: PyAny, items: Seq<PyAny>)
    requires
        as_dict(object) is None,
        forall|check: Option<&PyMapping>| #[trigger]
            mapping_check_answered(object, check) ==> check is Some && mapping_holds(
                *check->0,
                items,
            ),
        items.len() < usize::MAX,
        forall|i: int| 0 <= i < items.len() ==> pair_parts(#[trigger] items[i]) is Some,
    ensures
        input_gives(InputView::PyAny(object), false, pair_entries(items), None),
{
    assert forall|mapping: PyMapping, begun: Result<EntrySource, ErrorView>|
        mapping_holds(mapping, items) && #[trigger] source_begun(
            MappingView::PyMapping(mapping),
            begun,
        ) implies begun is Ok && gives(begun->Ok_0, pair_entries(items), None) by {
        let sequence = choose|sequence: Result<&PySequence, PyErr>|
            {
                &&& #[trigger] items_answered(mapping, sequence)
                &&& sequence matches Ok(sequence) ==> items_begun(
                    mapping_object(mapping),
                    *sequence,
                    begun,
                )
            };
        let iter = choose|iter: Result<PyIterator, PyErr>|
            {
                &&& #[trigger] iter_answered(sequence_object(*sequence->Ok_0), iter)
                &&& iter matches Ok(iterator) ==> begun == Ok::<EntrySource, ErrorView>(
                    EntrySource::Mapping { object: mapping_object(mapping), iterator },
                )
            };
        law_mapping_gives(mapping_object(mapping), iter->Ok_0, items);
    }
}

/// A JSON object gives its members in their order, strict or not.
pub proof fn law_json_input_gives(members: Seq<MemberView>, strict: bool)
    ensures
        input_gives(
            InputView::JsonInput(JsonView::Object(members)),
            strict,
            json_entries(members),
            None,
        ),
{
    law_json_gives(members);
}

/// Whether the validator does not fail on the input.
pub open spec fn never_fails<V: Validator>(validator: V, input: InputView, extra: Extra) -> bool {
    forall|before: V::Guard, output: Result<PyAny, ErrorView>, after: V::Guard| #[trigger]
        validator.answers(input, extra, before, output, after) ==> !is_failure(output)
}

/// Whether every object that the validator gives for the input can be stored as a key.
pub open spec fn gives_storable<V: Validator>(
    validator: V,
    input: InputView,
    extra: Extra,
) -> bool {
    forall|before: V::Guard, output: Result<PyAny, ErrorView>, after: V::Guard| #[trigger]
        validator.answers(input, extra, before, output, after) ==> (output is Ok ==> storable(
            output->Ok_0,
        ))
}

/// Whether every object that the validator gives for the input is a string of the class `str`
/// itself.
pub open spec fn gives_plain<V: Validator>(validator: V, input: InputView, extra: Extra) -> bool {
    forall|before: V::Guard, output: Result<PyAny, ErrorView>, after: V::Guard| #[trigger]
        validator.answers(input, extra, before, output, after) ==> (output is Ok
            ==> is_plain_string(output->Ok_0))
}

/// Whether the object can be stored as a key in every dictionary.
pub open spec fn storable(key: PyAny) -> bool {
    forall|entries: Seq<StoredEntry>, entry: StoredEntry, answer: Result<(), PyErr>| #[trigger]
        store_settled(entries, entry, answer) && entry.key == key ==> answer is Ok
}

/// Whether the source has given those entries, one after the other, and then the end.
pub open spec fn has_given(source: EntrySource, entries: Seq<EntryView>) -> bool {
    &&& forall|i: nat|
        #![trigger entries[i as int]]
        i < entries.len() ==> entry_answered(source, i, Some(Ok(entries[i as int])))
    &&& entry_answered(source, entries.len(), None)
}

/// Whether two faults are the same but for the input that they report.
pub open spec fn alike_line(line: LineView, other: LineView) -> bool {
    &&& other.error_type == line.error_type
    &&& other.location == line.location
}

/// Whether faults are the same as others, one by one, but for the input that they report.
pub open spec fn alike_lines(lines: Seq<LineView>, others: Seq<LineView>) -> bool {
    &&& others.len() == lines.len()
    &&& forall|i: int|
        #![trigger lines[i]]
        #![trigger others[i]]
        0 <= i < lines.len() ==> alike_line(lines[i], others[i])
}

/// Whether two outputs are the same but for the input that faults report.
pub open spec fn alike(
    output: Result<PyAny, ErrorView>,
    other: Result<PyAny, ErrorView>,
) -> bool {
    match (output, other) {
        (Err(ErrorView::LineErrors(lines)), Err(ErrorView::LineErrors(others))) => alike_lines(
            lines,
            others,
        ),
        _ => output == other,
    }
}

/// Whether the validator may give for the input an output that is the same but for the input that
/// faults report.
pub open spec fn answers_alike<V: Validator>(
    validator: V,
    extra: Extra,
    input: InputView,
    before: V::Guard,
    output: Result<PyAny, ErrorView>,
    after: V::Guard,
) -> bool {
    exists|other: Result<PyAny, ErrorView>|
        {
            &&& #[trigger] alike(output, other)
            &&& validator.answers(input, extra, before, other, after)
        }
}

/// Whether what the validator may give for one input it may give for the other, but for the input
/// that faults report.
pub open spec fn agrees_on<V: Validator>(
    validator: V,
    extra: Extra,
    input: InputView,
    other: InputView,
) -> bool {
    forall|before: V::Guard, output: Result<PyAny, ErrorView>, after: V::Guard| #[trigger]
        validator.answers(input, extra, before, output, after) ==> answers_alike(
            validator,
            extra,
            other,
            before,
            output,
            after,
        )
}

/// Whether what one key may become as a step of a location the other may become too.
pub open spec fn located_alike(key: InputView, other: InputView) -> bool {
    forall|loc: LocView| #[trigger] loc_answered(key, loc) ==> loc_answered(other, loc)
}

/// Faults that are the same one by one stay so when more of them follow.
proof fn lemma_alike_add(
    first: Seq<LineView>,
    then: Seq<LineView>,
    other_first: Seq<LineView>,
    other_then: Seq<LineView>,
)
    requires
        alike_lines(first, other_first),
        alike_lines(then, other_then),
    ensures
        alike_lines(first + then, other_first + other_then),
{
    let lines = first + then;
    let others = other_first + other_then;
    assert forall|i: int|
        #![trigger lines[i]]
        #![trigger others[i]]
        0 <= i < lines.len() implies alike_line(lines[i], others[i]) by {
        if i < first.len() {
            assert(alike_line(first[i], other_first[i]));
        } else {
            assert(alike_line(then[i - first.len()], other_then[i - first.len()]));
        }
    }
}

/// What is noted of a part of an entry is noted alike where the locations of the keys agree.
proof fn lemma_noted_alike(
    output: Result<PyAny, ErrorView>,
    key: InputView,
    noted: Seq<LineView>,
    other_output: Result<PyAny, ErrorView>,
    other_key: InputView,
    at_key: bool,
) -> (other_noted: Seq<LineView>)
    requires
        noted_lines(output, key, at_key, noted),
        alike(output, other_output),
        located_alike(key, other_key),
    ensures
        noted_lines(other_output, other_key, at_key, other_noted),
        alike_lines(noted, other_noted),
{
    match (output, other_output) {
        (Err(ErrorView::LineErrors(lines)), Err(ErrorView::LineErrors(others))) => {
            let step = |i: int|
                choose|loc: LocView|
                    {
                        &&& #[trigger] loc_answered(key, loc)
                        &&& noted[i] == located_line(lines[i], loc, at_key)
                    };
            let other_noted = Seq::new(
                lines.len(),
                |i: int| located_line(others[i], step(i), at_key),
            );
            assert forall|i: int|
                #![trigger noted[i]]
                #![trigger other_noted[i]]
                0 <= i < noted.len() implies is_located(
                others[i],
                other_key,
                at_key,
                other_noted[i],
            ) && alike_line(noted[i], other_noted[i]) by {
                assert(is_located(lines[i], key, at_key, noted[i]));
                assert(loc_answered(other_key, step(i)));
                assert(alike_line(lines[i], others[i]));
            }
            other_noted
        },
        _ => Seq::empty(),
    }
}

/// Whether the validator gives every Python object back as it is.
pub open spec fn hands_on<V: Validator>(validator: V, extra: Extra) -> bool {
    forall|object: PyAny, before: V::Guard, output: Result<PyAny, ErrorView>, after: V::Guard|
        #[trigger]
        validator.answers(InputView::PyAny(object), extra, before, output, after)
            ==> output == Ok::<PyAny, ErrorView>(object)
}

/// Whether entries that are Python objects can be stored as they came.
pub open spec fn copies_can_be_stored(entries: Seq<EntryView>) -> bool {
    ||| forall|i: int| 0 <= i < entries.len() ==> storable((#[trigger] entries[i]).key->PyAny_0)
    ||| plain_keys(copied(entries))
}

/// What is stored of entries that are Python objects, where each is stored as it came.
pub open spec fn copied(entries: Seq<EntryView>) -> Seq<StoredEntry> {
    Seq::new(
        entries.len(),
        |i: int|
            StoredEntry { key: entries[i].key->PyAny_0, value: entries[i].value->PyAny_0 },
    )
}

impl<G> EntryRecord<G> {
    /// Whether the entry was accepted and stored, or left out, or refused by a validator that
    /// named no fault.
    pub open spec fn settled(self) -> bool {
        ||| self.stored().len() == 1
        ||| is_omission(self.key_output)
        ||| is_silent_refusal(self.key_output)
        ||| self.value_output matches Some(output) && (is_omission(output) || is_silent_refusal(
            output,
        ))
    }
}

/// Whether the validator refused the input without naming a fault.
pub open spec fn is_silent_refusal(output: Result<PyAny, ErrorView>) -> bool {
    output matches Err(ErrorView::LineErrors(lines)) && lines.len() == 0
}

/// The report is at least as long as what any one entry adds to it.
proof fn lemma_walk_lines_contain<G>(walk: Seq<EntryRecord<G>>, i: int)
    requires
        0 <= i < walk.len(),
    ensures
        walk_lines(walk).len() >= walk[i].lines().len(),
    decreases walk.len(),
{
    if i < walk.len() - 1 {
        lemma_walk_lines_contain(walk.drop_last(), i);
    }
}

impl<V: Validator> DictValidator<V> {
    /// An output is a dictionary whose length is within the bounds, and which has no more keys than
    /// entries went through.
    pub proof fn law_accepted_length(
        &self,
        input: InputView,
        source: EntrySource,
        extra: Extra,
        before: V::Guard,
        object: PyAny,
        after: V::Guard,
    )
        requires
            self.answers_source(input, source, extra, before, Ok(object), after),
        ensures
            exists|walk: Seq<EntryRecord<V::Guard>>, length: nat|
                {
                    &&& #[trigger] self.walked(source, extra, before, walk)
                    &&& #[trigger] can_hold(walk_stored(walk), length)
                    &&& dict_made(object, walk_stored(walk), length)
                    &&& length <= walk.len()
                    &&& self.min_length() matches Some(min) ==> min <= length
                    &&& self.max_length() matches Some(max) ==> length <= max
                },
    {
        let walk = choose|walk: Seq<EntryRecord<V::Guard>>|
            {
                &&& #[trigger] self.walked(source, extra, before, walk)
                &&& self.concludes(input, walk_lines(walk), walk_stored(walk), Ok(object))
            };
        let length = choose|length: nat|
            {
                &&& #[trigger] can_hold(walk_stored(walk), length)
                &&& dict_made(object, walk_stored(walk), length)
                &&& length_error(
                    DICT_FIELD_TYPE@,
                    self.min_length(),
                    self.max_length(),
                    length as int,
                ) is None
            };
        law_stored_at_most_once(walk);
        assert(self.walked(source, extra, before, walk) && can_hold(walk_stored(walk), length));
    }

    /// A source without entries gives an empty dictionary, unless there is a lower bound above
    /// zero. No child is asked.
    pub proof fn law_empty(
        &self,
        input: InputView,
        source: EntrySource,
        extra: Extra,
        before: V::Guard,
        output: Result<PyAny, ErrorView>,
        after: V::Guard,
    )
        requires
            gives(source, Seq::empty(), None),
            self.answers_source(input, source, extra, before, output, after),
        ensures
            after == before,
            match self.min_length() {
                Some(min) if min > 0 => output == Err::<PyAny, ErrorView>(
                    single_error(
                        ErrorTypeView::TooShort {
                            field_type: DICT_FIELD_TYPE@,
                            min_length: min as int,
                            actual_length: 0,
                        },
                        input,
                    ),
                ),
                _ => output matches Ok(object) && dict_made(object, Seq::empty(), 0),
            },
    {
        let walk = choose|walk: Seq<EntryRecord<V::Guard>>|
            {
                &&& #[trigger] self.walked(source, extra, before, walk)
                &&& {
                    ||| output matches Err(error) && self.stopped(
                        source,
                        extra,
                        before,
                        walk,
                        error,
                        after,
                    )
                    ||| {
                        &&& entry_answered(source, walk.len(), None)
                        &&& after == guard_after(before, walk)
                        &&& self.concludes(input, walk_lines(walk), walk_stored(walk), output)
                    }
                }
            };
        self.law_given_entries(source, Seq::empty(), None, extra, before, walk);
        assert(walk_stored(walk) =~= Seq::empty());
    }

    /// The validator itself never leaves its input out.
    pub proof fn law_never_omits(
        &self,
        input: InputView,
        extra: Extra,
        before: V::Guard,
        output: Result<PyAny, ErrorView>,
        after: V::Guard,
    )
        requires
            self.answers(input, extra, before, output, after),
        ensures
            !is_omission(output),
    {
    }

    /// Every fault that is reported for the entries begins with a step that stands for the key of
    /// the entry, and a fault of the key has the step for keys next.
    pub proof fn law_faults_are_located(
        &self,
        source: EntrySource,
        extra: Extra,
        first: V::Guard,
        walk: Seq<EntryRecord<V::Guard>>,
        i: int,
        j: int,
    )
        requires
            self.walked(source, extra, first, walk),
            0 <= i < walk.len(),
            0 <= j < walk[i].lines().len(),
        ensures
            walk[i].lines()[j].location.len() > 0,
            loc_answered(walk[i].key, walk[i].lines()[j].location[0]),
            j < walk[i].key_lines.len() ==> {
                &&& walk[i].lines()[j].location.len() > 1
                &&& walk[i].lines()[j].location[1] == LocView::S(KEY_LOCATION@)
            },
    {
        self.law_walk_is_a_prefix(source, extra, first, walk, i);
        let record = walk[i];
        if j < record.key_lines.len() {
            assert(record.lines()[j] == record.key_lines[j]);
        } else {
            assert(record.lines()[j] == record.value_lines[j - record.key_lines.len()]);
        }
    }
}

/// The bound that a schema sets by an object of the class `int` itself, or by saying nothing, if it
/// is one.
pub open spec fn plain_bound(item: Option<PyAny>) -> Option<Option<usize>> {
    match item {
        None => Some(None),
        Some(object) => match int_value(object) {
            Some(value) if 0 <= value <= usize::MAX => Some(Some(value as usize)),
            _ => None,
        },
    }
}

/// The strictness that a schema sets by a `bool`, or, where it says nothing, the configuration, if
/// it is one. It is off where nothing is said.
pub open spec fn plain_strict(own: Option<PyAny>, common: Option<PyAny>) -> Option<bool> {
    match (own, common) {
        (Some(object), _) => bool_value(object),
        (None, Some(object)) => bool_value(object),
        (None, None) => Some(false),
    }
}

impl<V: CombinedValidator> DictValidator<V> {
    /// Whether the child that the schema describes under the key can be made.
    pub open spec fn child_can_be_built(
        schema: PyDict,
        key: Seq<char>,
        config: Option<&PyDict>,
    ) -> bool {
        forall|before: V::Definitions, child: Result<V, PyErr>, after: V::Definitions| #[trigger]
            Self::child_built(schema, key, config, before, child, after) ==> child is Ok
    }

    /// A schema whose children can be made, and which sets its bounds and its strictness by plain
    /// numbers and truth values, is one that a validator is made from, with those bounds and that
    /// strictness.
    pub proof fn law_built(
        schema: PyDict,
        config: Option<&PyDict>,
        min: Option<PyAny>,
        max: Option<PyAny>,
        own: Option<PyAny>,
        common: Option<PyAny>,
        before: V::Definitions,
        validator: Result<DictValidator<V>, PyErr>,
        after: V::Definitions,
    )
        requires
            Self::child_can_be_built(schema, "keys_schema"@, config),
            Self::child_can_be_built(schema, "values_schema"@, config),
            holds(schema, "min_length"@, min),
            holds(schema, "max_length"@, max),
            holds(schema, "strict"@, own),
            match config {
                Some(config) => holds(*config, "strict"@, common),
                None => common is None,
            },
            plain_bound(min) is Some,
            plain_bound(max) is Some,
            plain_strict(own, common) is Some,
            Self::built(schema, config, before, validator, after),
        ensures
            validator matches Ok(validator) && {
                &&& plain_bound(min) == Some(validator.min_length())
                &&& plain_bound(max) == Some(validator.max_length())
                &&& plain_strict(own, common) == Some(validator.strict())
                &&& validator.full_name() == dict_name(
                    validator.key_validator().name(),
                    validator.value_validator().name(),
                )
            },
    {
        let (key, between) = choose|key: Result<V, PyErr>, between: V::Definitions|
            {
                &&& #[trigger] Self::child_built(
                    schema,
                    "keys_schema"@,
                    config,
                    before,
                    key,
                    between,
                )
                &&& match key {
                    Err(exception) => {
                        &&& validator == Err::<DictValidator<V>, PyErr>(exception)
                        &&& after == between
                    },
                    Ok(key) => Self::built_with_key(
                        schema,
                        config,
                        key,
                        between,
                        validator,
                        after,
                    ),
                }
            };
        let value = choose|value: Result<V, PyErr>|
            {
                &&& #[trigger] Self::child_built(
                    schema,
                    "values_schema"@,
                    config,
                    between,
                    value,
                    after,
                )
                &&& match value {
                    Err(exception) => validator == Err::<DictValidator<V>, PyErr>(exception),
                    Ok(value) => Self::built_with_children(
                        schema,
                        config,
                        key->Ok_0,
                        value,
                        validator,
                    ),
                }
            };
        match validator {
            Ok(made) => {
                law_bound_read(schema, "min_length"@, min, Ok(made.min_length()));
                law_bound_read(schema, "max_length"@, max, Ok(made.max_length()));
                law_strict_read(schema, config, own, common, Ok(made.strict()));
            },
            Err(exception) => {
                if strict_read(schema, config, Err(exception)) {
                    law_strict_read(schema, config, own, common, Err(exception));
                }
                if usize_read(schema, "min_length"@, Err(exception)) {
                    law_bound_read(schema, "min_length"@, min, Err(exception));
                }
                if usize_read(schema, "max_length"@, Err(exception)) {
                    law_bound_read(schema, "max_length"@, max, Err(exception));
                }
            },
        }
    }
}

/// No more entries are stored than go through.
pub proof fn law_stored_at_most_once<G>(walk: Seq<EntryRecord<G>>)
    ensures
        walk_stored(walk).len() <= walk.len(),
    decreases walk.len(),
{
    if walk.len() > 0 {
        law_stored_at_most_once(walk.drop_last());
    }
}

} // verus!
