# name_table

Nested module name tables, verified with Verus. Each module table maps exact
spellings to table-local IDs; an identity is the root selector followed by the
chain of local IDs down to its entry. Seals declare spellings and resolve
lookup-only references atomically; renames change one spelling while keeping
its identity. Every operation is staged against a base revision, committed
only over that revision, and recorded under an idempotency key so that an
identical retry replays its receipt.

## Layout

- `src/` — the verified library.
  - `identity`, `name`, `request`, `state`, `error`: the records and their views.
  - `table`: the state, its view, and lookups and resolutions.
  - `validation`, `canonical`, `spelling_set`, `order`: request checks, the
    canonical (order-independent) form of a seal, and the sorts behind it.
  - `seal`, `reference`, `changes`, `stage`: applying a seal to a staged state.
  - `rename`: the identity-preserving rename.
  - `consistency`: the stored invariants, checked after every operation:
    snapshots in locator order, heads in address order, receipts in key order.
  - `arrangement`: the order a state stores its records in (heads by address,
    receipts by key), and why that order changes no lookup and no check.
  - `transaction`: staged operations, commit and rollback.
  - `archive`: the archive envelope and rebuilding a state from its records.
  - `association`: pure facts about opaque encoded names.
  - `laws`, `preservation`, `recorded`: properties of the library as a whole,
    proved.
- `tests/` — scenario tests run against the compiled library.
- `app/` — the `std::error::Error` forms of the failures and the rkyv archive
  of a state inside the envelope.
