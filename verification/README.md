# pydantic_core

Validation of dictionary-like data, from Python objects through `pyo3` or from parsed JSON, with
contracts that Verus proves.

* `src/python.rs` declares the items of `pyo3` that the library calls. All contracts that are taken
  on trust stand there.
* `src/errors.rs` holds what a failed validation reports: faults, each with a location and a value.
* `src/input/` holds the data that is validated: what can be an input, parsed JSON, and the mappings,
  iterators, strings and bytes that the methods of an input hand back.
* `src/validators/` holds the validators. `dict.rs` validates every key and every value of a
  dictionary; it is generic over the validators for the two. `dict_laws.rs` proves what holds of it
  as a whole.
* `src/type_validators/` holds the validator for `None`.
* `src/build_tools.rs` reads schemas.
* `app/` holds the impls of `pyo3` traits around the library.

A call into the interpreter can run Python code, so a contract does not say which answer such a call
gets. It says what the library makes of every answer: the names that end in `_answered` relate a
call to an answer that it has got, and the contracts are stated over them. An answer of an iterator
is tied to how often the iterator had been asked before, so that every item counts, each once and in
its order. The laws then say what follows for an input that gives certain entries.
