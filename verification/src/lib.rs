//! Green threads in user space: the scheduler, the stacks and the mailboxes.
//!
//! The library holds the rules of the runtime as ordinary values and functions:
//! what a fresh thread looks like, which thread runs next, where its stack lies
//! and which page of it a fault makes usable, who gets which message, and where a
//! function that gives way checks for it. The operating system (mappings, signals,
//! timers) and the machine (the register switch) stay outside: a function that
//! needs one of them returns the step to take, and is called again with what came
//! of it.
//!
//! State is passed along by `&mut`: whoever shares it between operating system
//! threads keeps others out for the time of a call.
pub mod context;
pub mod message;
pub mod msqueue;
pub mod preemptive;
pub mod queue;
pub mod runtime;
pub mod stack;
pub mod thread;
pub mod treiber;
