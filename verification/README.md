# Cubic

The runtime core and the client state machine of Cubic, verified with Verus.

- `src/runtime.rs`: the worker that hands tasks out and the main thread that runs those that need it.
- `src/table.rs`: where the closures and futures wait while the messages carry their keys.
- `src/common/runtime.rs`: background tasks, the handles on their results, the stop signal and the
  supervisor that keeps running tasks.
- `src/client/application.rs`: the life of the windowed client, as states, events and effects.
- `src/client/render/context.rs`: how the window's surface is configured.
- `src/channel.rs`, `src/task_result.rs`, `src/token.rs`: what is relied on of `tokio` and `tokio_util`.
- `app/`: threads, executor, window and graphics device around the library. `standalone` as the first
  argument starts the windowed client; without it a greeting is run as a task.
