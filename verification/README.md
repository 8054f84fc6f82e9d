# matrix_core

A kernel for composing components: identities and generations, owned
resources, reactive dependencies, admission tickets with mediated commits, and
dependency calls under operator grants. It also holds the launch policy of
component processes and the wire logic of a component's session.

The library decides; it never waits, reads or sends. An operation that may
have to wait for calls to drain is handed out as a `Job`, which the caller
advances. Clock readings, file contents and the replies of other processes
come in as arguments.

## Layout

- `src/kernel/`: the kernel. `tickets`, `dependency`, `acquire`, `resolve`,
  `lifecycle`, `reconcile`, `jobs`, `operations`, `reload`, `dispatch` and
  `inventory` each hold a part of it; `laws`, `stable`, `bounded` and
  `validity` state what holds across them.
- `src/calls.rs`, `context.rs`, `resources.rs`, `registry.rs`, `bus.rs`: its
  tables.
- `src/deps.rs`, `graph.rs`, `manifest.rs`, `external.rs`: declarations and
  the dependency graph.
- `src/journal.rs`, `json.rs`: the journal and its values.
- `src/guard.rs`: sandbox policy, system call filter, restart budget.
- `src/component.rs`: messages and waits of a component's session.
- `src/text.rs`, `strmap.rs`, `num.rs`, `time.rs`, `identity.rs`, `fsm.rs`,
  `leases.rs`: what the others are made of.
- `app/`: threads, files, processes and sockets around the library.
- `tests/`: scenarios.

## Contracts

Each type has a view, and each operation of the kernel is a function on
`KernelV`, the view of its state; the executable function is proved to compute
exactly that. JSON texts go through `serde_json`, and the numbers of system
calls come from `libc`: what is believed of them stands in `src/json.rs` and
`src/guard.rs`.
