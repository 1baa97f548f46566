# ferris-agent-bridge: durable runtime state

The runtime state of a bridge between chat platforms and local agents, as a
library that is verified with [Verus](https://github.com/verus-lang/verus): the
records that are kept across restarts, the rules by which they change, what
makes a state valid, how snapshots of different age are merged, and how a state
file of any supported version is read.

## Layout

- `src/session.rs`, `message.rs`, `event.rs`, `queue.rs`, `run.rs`, `outbox.rs`:
  the records. Each has a model (`...View`) on which its contract is stated, a
  check of its soundness (`flaw`), and its steps.
- `src/state/`: the runtime state. `view.rs` says what makes a state valid and
  which fault is reported of one that is not; the other modules hold the
  operations. `keeping.rs`, `keeping_queue.rs` and `laws.rs` prove that every
  operation keeps a valid state valid, and what else holds of them.
- `src/format/`: the state file and the rules of its versions.
- `src/store/`: the store. Its operations decide on the content of the file and
  give back what has to happen to it; `settle` takes the report of how that
  went. `laws.rs`, `merge_laws.rs` and `addition_laws.rs` prove what holds across
  operations: what is written is what is loaded, a save takes nothing away from
  what is stored, and what was done can be repeated.
- `src/paths.rs`: lexical normalization of paths.
- `src/fault.rs`, `keyed.rs`, `text.rs`: what the contracts are made of.
- `app/`: the file system around the library: the JSON form of a state file,
  atomic writes, the path and the lock of a store.
- `tests/`: tests of the library on concrete values.

Error texts are part of the contracts: an operation that refuses says in its
`ensures` which text it refuses with, and on which inputs.

The only thing that the library takes on trust is the reading of the wall clock
(`src/clock.rs`), of which it assumes nothing. An operation that reads the clock
states what holds for whatever time came back, and stands next to one that takes
the time as an argument.
