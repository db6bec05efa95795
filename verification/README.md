# undo

An undo-redo library whose behaviour is stated in contracts and proved with
Verus.

Every modification of a target is made by an action that knows how to apply
itself and how to take itself back. `Record` keeps the actions in a list;
`History` keeps a tree of branches, so that no action is lost when a new one
is made after an undo. Both can batch calls (`Queue`), take calls back
together (`Checkpoint`), notify a slot of their changes (`Event`, `Slot`) and
display themselves as text.

## Layout

- `src/lib.rs`: the `Action` trait, whose spec functions describe what an
  action does, `Merged` and `At`.
- `src/record.rs` and `src/record/`: the record, its builder, queue,
  checkpoint and display.
- `src/history.rs` and `src/history/`: the history, its builder, queue,
  checkpoint and display (the tree drawn as a graph).
- `src/entry.rs`: an action with the times it was applied, undone and redone;
  a time is held as its distance from the start of UNIX time (`Time`).
- `src/socket.rs`: events and slots.
- `src/format.rs`: the text layout of the displays; colored output is stated
  as a sequence of pieces, each painted one written plain or styled.
- `src/add.rs`, `src/join.rs`, `src/from_fn.rs`, `src/any.rs`: ready-made
  actions.
- `src/laws.rs`: properties that hold across the operations.
- `app/lib.rs`: what the verifier does not check: serializable copies of the
  plain types, of entries and of records, and displays with times written
  by a function of the caller.
- `tests/`: tests on concrete values.
