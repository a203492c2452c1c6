# kite_sql

The planning core of an embedded SQL database, with its behaviour stated in contracts and proved by
Verus.

- `src/types`, `src/expression`, `src/catalog.rs`: values, expressions in an arena, columns and
  tables; key ranges that predicates ask for.
- `src/planner`: plans, their arena, the columns that they deliver, and how they are shown.
- `src/optimizer`: batches of rewriting rules, the choice of implementations, and the rules that
  push predicates down, remove sorts and filters, and turn joins into index lookups.
- `src/binder`, `src/orm`: typed models and queries, and the plans that they are bound to.
- `src/execution`: which executor runs which operator, and what executors share.
- `src/db`: the database, its catalog, transactions and results.
- `src/storage.rs`: what a storage has to offer. `src/notation.rs` names the mathematical types for
  implementors of the traits.
- `app`: calendar and decimal types of other crates, the LMDB environment, and standard iterators.
- `tests`: the library at work on concrete values.

A storage brings its executors, its cost model and further rules as the associated types of
`Storage`; `EmptyStorage` is the smallest one and keeps nothing.
