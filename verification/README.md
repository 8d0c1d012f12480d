# orka

A workflow engine: pipelines of named steps with `before`, `on` and `after` handlers, run
against a shared context, with skip conditions, sub-contexts, conditional scopes, bounded
fan-out, cooperative cancellation, run-scoped resources, finish handlers, and a trace of
everything that happened.

The decisions of the engine are verified with Verus; the waiting is not its business. A run, a
conditional step, a sub-context handler and a bounded join are state machines that ask for one
piece of outside work at a time and are told the result. Beside each stands a description of
everything it will do, as a function of all the answers it gets, and the machine is proved to
follow it.

## Layout

- `src/pipeline/`: what a pipeline is (`definition`, `hooks`), when one is sound (`validate`,
  `validate_laws`), what a run does (`run`, `run_laws`), the dry run (`plan`), and who observes
  (`observe`).
- `src/conditional.rs`, `src/subcontext.rs`: conditional scopes and sub-context handlers.
- `src/fanout/`: branches over a collection, their bounded join, and the policies.
- `src/cancel.rs`, `src/cancel_laws.rs`, `src/resources.rs`, `src/context_data.rs`,
  `src/lock.rs`: what runs share.
- `src/trace.rs`, `src/observer.rs`: events, queries over them, observers.
- `src/registry.rs`: pipelines by the type of their context.
- `src/test_util.rs`: helpers for testing pipelines.
- `tests/`: the library on concrete values, with a synchronous driver for its machines.
- `app/`: the asynchronous face, which wraps closures and futures around the library.

What handles share lies behind a lock, and what a call finds there is whatever some handle left.
So the contract of such a call has two parts: which operation was run on which lock, and, in the
operation's own contract, what it does to the value it finds.

Functions named `law_..` state what holds of the library as a whole. Calls into `anyhow`,
`parking_lot` and the parts of `std` that have no specification go through a few wrappers, each
with a comment that says what is taken on trust.
