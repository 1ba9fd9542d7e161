# async_di

The verified core of an asynchronous dependency-injection container.

- `src/` is the library, with its proofs: the provider registry
  (`ResolverBuilder`), the resolve worker as a state machine (`Worker`, which
  takes `WorkerMessage`s and returns `Action`s), how a resolve call settles
  (`settle_reply`) and how a provider's failure is reported (`provider_failure`),
  plus `Named`, `StaticProvider` and `Error`.  `src/laws.rs` proves what holds
  of each of the worker's steps, `src/run.rs` what holds over a whole run.
- `app/` is the container itself: tokio channels and tasks that run the worker,
  the `Provider` trait for users, `Container`, `Resolver`, `ResolverRef` and
  `Deferred`.
- `tests/` drives the worker through the container's scenarios.
