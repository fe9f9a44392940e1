# typepython_checking

The checking passes of the TypePython type checker that work on what binding has already
collected about a module: its declarations, call sites, assignments, `match` statements and
effect annotations. Each pass is a function from plain values to diagnostics, written in Verus
with a contract that states exactly which diagnostics it reports.

Layout:

- `src/` holds the verified library, one module per concern (effect rows and summaries, taint
  tracking, class hierarchy checks, `match` exhaustiveness, signatures and generic bindings, text
  helpers). `src/laws.rs`, `src/declaration_laws.rs` and `src/warning_laws.rs` state and prove properties
  that relate several operations.
  Checks that depend on resolving types (assignability, member lookup, overload selection)
  take what was resolved as plain values, such as a rendered type and an assignability verdict,
  and decide from those which diagnostics to report.
- `tests/` runs the library on concrete modules.
- `app/` reads module sources from disk for the checks that suggest edits in a file.

## Keyed collections

The checker groups and looks up facts by names, owner names and pairs of them. Those collections
are held as vectors with a stated invariant rather than as `BTreeMap` or `BTreeSet`:
`table::KeyTable`, `table::LineTable` and `generic_solution::NameTable` (each key at most
once, viewed as a `Map`), `effect_row::EffectRow` (sorted, duplicate-free labels),
`owners::OwnerRanges` (owners in strictly rising order), `taint::TaintFacts` and
`taint::TaintContexts`. Their contracts are stated over `Seq`, `Set` and `Map` views, and where a
pass reports in key order, that order is produced by a verified sort and stated in its contract.

This was a design choice: vstd does specify `BTreeMap` and
`BTreeSet`, but with string or tuple-of-string keys their ordering facts rest on `Ord` impls that
the verifier does not read, and whether the std forms would have verified here was not tried.
