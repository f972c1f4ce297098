# otp

Operational transformation on JSON documents, and the logic of a boulder gym
service built on it, verified with Verus.

A document changes by operations: an `Assign` sets or deletes the member that a
dotted path names, a `Splice` replaces a range of the array that a path names.
Operations made in parallel against the same revision are rebased over each
other; conflicting ones are dropped.

## Layout

- `src/json.rs`: JSON values whose objects keep their members ordered by key.
- `src/operation.rs`: operations, applying them, and their errors.
- `src/path.rs`: resolving dotted paths (`is_reachable`).
- `src/rebase.rs`: transforming an operation after another (`op_ot`) and rebasing.
- `src/avers.rs`: `apply`, `op_ot` and `rebase` over stored patches, with their own errors.
- `src/laws.rs`: properties of applying and rebasing, proved.
- `src/model.rs`: objects, patches, snapshots, accounts and boulders.
- `src/updates.rs`: what storing a client's operation computes.
- `src/access.rs`: who may read and change objects.
- `src/passport.rs`: login by email.
- `src/feed.rs`: subscriptions and the patches sent to subscribers.
- `src/profile.rs`: public profiles and boulder statistics.
- `src/keys.rs`, `src/error.rs`, `src/text.rs`: database keys, errors, text.
- `app/`: the HTTP and websocket server around the library, with the database,
  the mail service and the clock.
- `tests/`: tests of the library.
