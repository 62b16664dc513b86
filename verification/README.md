# handmade_async

Futures, timers and runtime loops built by hand, with their behaviour proved
in Verus.

Time is a `u64` count of nanoseconds, read by the caller and handed in.

- `src/` is the verified library:
  - `poll`, `context`, `future`: the result of a poll, the context a poll
    runs in (its instant, the earliest wake time asked for, printed lines,
    spawned jobs), and the `Future` trait whose `poll` is specified by a
    `poll_step` relation;
  - `sleep`, `work`, `start_end`, `job`: concrete futures;
  - `combinators`: `join`, `join3`, `first`, `timeout`;
  - `wakers`: a timer tree of wakers keyed by wake time;
  - `executor`: the task loop that polls every task each round;
  - `echo`: the bytes an echo server writes back.
- `tests/` runs the library on concrete timelines.
- `app/` holds the demo programs: reading the clock, sleeping, printing,
  threads, tokio, io_uring, and the std `Future` adapters.
