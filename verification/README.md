# pocker

A small runtime for deterministic, non-blocking state machines that are written as `async` code, and
a process tracer that is built on it.

* `src/` is the library. Every function in it states what it does in `requires` and `ensures`
  clauses, and Verus proves them.
* `tests/` runs the library on concrete values, together with `futures_lite`.
* `app/` runs the library's state machines on the system: it polls futures, forks, and sends
  `ptrace` requests.

## The runtime

A machine runs in steps. Where it cannot go on, it waits for a *reason*. Between two steps the caller
looks at the pending reasons, picks one, and unblocks it with a response. One reason can be unblocked
for each step, and one future takes the response: the first that is polled. What nobody takes is
forgotten when the step ends.

The table of pending reasons has a fixed size. A future that finds no room in it fails with
`TooManyPending`; a machine that never has more futures than there are places never meets that error.

Tasks that would block the machine can be left to a worker. A `TaskTracker` carries them there and
back.

## The tracer

Each traced process has a thread. `EventLoop` says what the thread has to do next, and is told what
came of it; `Startup` does the same for the first process. Neither of them touches the system.

## What is taken on trust

* `core::array::from_fn` fills an array with what its argument returns for each index.
* `backtrace::trace` is called for the stack pointer. Nothing is claimed of what it finds.
