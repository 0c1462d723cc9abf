# async_runtime

A single-threaded async runtime built on a kqueue reactor, with its
scheduling and readiness logic verified in Verus.

- `src/` is the verified library. Each part of the runtime is a state machine
  over plain values, with contracts and laws:
  - `executor.rs`: the scheduler (task table, run queue, turns, when to block,
    when to finish) and the `Yield` future;
  - `runs.rs`: laws over whole runs of the executor (no busy polling,
    self-waking runs never block and reach `Finish`, polls within a budget,
    an empty spawn queue at `Finish`);
  - `reactor.rs`: kernel change records and the ident-to-waker table that
    decides whom an event wakes;
  - `timer.rs`: timer idents and the timer future's poll decision;
  - `net.rs`: the accept and read futures' poll decisions and the echo step;
  - `listener.rs`, `stream.rs`, `task_list.rs`: the readiness-driven task list
    and its listener and echo tasks;
  - `compare.rs`: the computing parts of the busy-poll comparison.
- `app/` is the program: it polls the real futures, builds wakers, makes the
  kqueue system calls (macOS) and runs the loop the scheduler drives.
- `tests/` runs the library on concrete scenarios.
