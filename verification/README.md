# parfum

Green threads: a cooperative scheduler with preemption checks, stacks that grow
on demand, and mailboxes, as a library verified with Verus.

- `src/context.rs`: the registers of a thread that has not run yet.
- `src/thread.rs`, `src/message.rs`: threads, the table of them, their mailboxes.
- `src/queue.rs`: the run queues, on crossbeam's `Injector` and `Worker`.
- `src/runtime.rs`: spawning, yielding, ending, preemption checks, `send` and
  `try_recv`; that no thread is lost, and that turns go round.
- `src/stack.rs`: the layout of a stack, the registry of stack regions, what a
  fault does.
- `src/msqueue.rs`, `src/treiber.rs`: a queue and a stack that are linked through
  the threads in them.
- `src/preemptive.rs`: where `#[preemptive]` puts its checks.
- `app/`: what runs this on arm64: mappings, signals, the register switch, the
  attribute on syntax trees, and a demo.
