# cynthia

The decisions of an asynchronous runtime, written in Rust and proved with Verus.

`src/` holds everything that decides something: queues, locks, events, the state of tasks, the
reactor with its sockets and timers, the pool of threads for what blocks, pipes, buffers, streams
and the adapters around them, files, processes, and the order of the calls that set up pollers and
connections. Time is a number of nanoseconds, a task is known by the number of its waker, and
whoever is to be woken up is added to a list. What takes several steps, between which others may
make theirs, is a machine: one call of `step`, `poll` or `done` for each step, with a contract that
says what the step did.

`app/` is the part that talks to the system: it makes the calls that the library asks for, keeps
the wakers and threads that the numbers stand for, and gives the library's types the interfaces
of the standard library and of `futures-io`.

| module     | what it is about                                                       |
|------------|------------------------------------------------------------------------|
| `task`     | polls, contexts and wakers                                             |
| `utils`    | slots, random numbers, buffers, closures that run side by side         |
| `platform` | queues, events, locks for tasks and for threads, wait groups, buffers  |
| `io`       | errors, streams, timers, sockets, the reactor and who drives it        |
| `runtime`  | the state of a task, threads for what blocks, pipes to them            |
| `net`      | addresses, connecting, pollers                                         |
| `future`   | combinators, timeouts, reading and writing                             |
| `fs`       | files, options, directories                                            |
| `process`  | commands and children                                                  |

Laws that relate several functions are public proof functions whose names begin with `law_`.
