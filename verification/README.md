# radicle-context-cob

A Radicle collaborative object type (`me.hdh.context`) for storing AI session
context: observation records of development sessions — what was tried, what
was learned, what constraints exist, and what went wrong.

The library in `src/` is verified with Verus:

- `state.rs` — the context state, its view, and `step`, the effect of one action;
- `actions.rs` — the actions (`open`, `link.*`, `unlink.*`) and how the command
  line builds an `open` action;
- `cob.rs` — authorization, and evaluating root and later operations beside
  their concurrent operations (a concurrent link wins over an unlink);
- `laws.rs` — properties of evaluation: idempotence, commutation of
  non-conflicting actions and of concurrent operations, undoing a link,
  immutability of the core fields, concatenation of operation histories;
- `sorted_set.rs` and `order.rs` — sets of strings and ids kept in ascending
  byte order, as `BTreeSet` yields them;
- `ids.rs` — object ids, public keys, authors and timestamps, with parsing and
  printing through the radicle crates;
- `render.rs` — the text that `rad-context list` and `rad-context show` print.

`app/` is the `rad-context` command line and the glue to radicle's storage:
serialized forms of the actions and of the state, the store of contexts, and
the `Cob`/`Evaluate` implementations that hand operations to the library.
