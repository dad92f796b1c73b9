use crossbeam::deque::{Injector, Worker};
use parfum::queue::{next_runnable, Stolen};
use parfum::runtime::{
    check_preemption, end_with, end_yield, retry_end, retry_yield, send, spawn_fn, try_recv,
    yield_to, yield_with, Carrier, EndStep, Runtime, YieldStep, IDLE_SLEEP_MILLIS, NO_SENDER,
    PREEMPTION_INTERVAL_MICROS,
};
use parfum::thread::{ClosureWrapper, Scheduler, SendError, ThreadId, ThreadState};
use std::cell::Cell;

const TEXT: u64 = 1;
const NUMBER: u64 = 2;

fn spawn(runtime: &mut Runtime<String>) -> ThreadId {
    spawn_fn(runtime, (0x9000, 0x5000), 0x100, 0x200, 0x300)
}

fn state(runtime: &Runtime<String>, tid: usize) -> ThreadState {
    runtime.scheduler.thread(tid).state
}

// Taking a thread off the shared queue may have to be repeated.
fn end(runtime: &mut Runtime<String>, carrier: &mut Carrier) -> usize {
    let mut step = end_yield(runtime, carrier);
    loop {
        match step {
            EndStep::Switch { to } => return to,
            EndStep::Refused => step = retry_end(runtime, carrier),
            EndStep::Sleep => panic!("no thread in line"),
        }
    }
}

fn give_way(runtime: &mut Runtime<String>, carrier: &mut Carrier) -> (usize, usize) {
    let mut step = yield_to(runtime, carrier);
    loop {
        match step {
            YieldStep::Switch { from, to } => return (from, to),
            YieldStep::Refused { from } => step = retry_yield(runtime, carrier, from),
            YieldStep::Wait { .. } => panic!("no thread in line"),
            YieldStep::Return => panic!("no thread on the carrier"),
        }
    }
}

#[test]
fn thread_states_have_their_numbers() {
    assert_eq!(ThreadState::RUNNING as usize, 0);
    assert_eq!(ThreadState::WAITING as usize, 1);
    assert_eq!(ThreadState::YIELD as usize, 2);
    assert_eq!(ThreadState::READY as usize, 3);
    assert_eq!(ThreadState::EXITED as usize, 4);
}

#[test]
fn intervals() {
    assert_eq!(PREEMPTION_INTERVAL_MICROS, 10_000);
    assert_eq!(IDLE_SLEEP_MILLIS, 1000);
    assert_eq!(NO_SENDER, usize::MAX);
}

#[test]
fn spawned_thread_is_ready_on_its_stack() {
    let mut runtime: Runtime<String> = Runtime::new();
    let a = spawn(&mut runtime);
    let b = spawn_fn(&mut runtime, (0x8888, 0x4000), 0x10, 0x20, 0x30);
    assert_ne!(a, b);
    let thread = runtime.scheduler.thread(1);
    assert_eq!(thread.tid, 1);
    assert_eq!(thread.state, ThreadState::READY);
    assert_eq!(thread.ticks, 100);
    assert_eq!(thread.stack_top, 0x8888);
    assert_eq!(thread.stack_bottom, 0x4000);
    assert_eq!(thread.next, None);
    assert!(thread.mailbox.is_empty());
    assert_eq!(thread.context.sp, 0x8880);
    assert_eq!(thread.context.pc, 0x10);
    assert_eq!(thread.context.regs[0], 0x20);
    assert_eq!(thread.context.regs[30], 0x30);
    assert_eq!(thread.context.regs[1], 0);
}

#[test]
fn scheduler_finds_threads_by_name() {
    let mut scheduler: Scheduler<String> = Scheduler::new();
    let mut injector: Injector<usize> = Injector::new();
    let a = scheduler.spawn_fn(&mut injector, (32, 16), 1, 2, 3);
    assert_eq!(scheduler.find(a), Some(0));
    let b = scheduler.spawn_fn(&mut injector, (32, 16), 1, 2, 3);
    assert_eq!(scheduler.find(b), Some(1));
    assert_eq!(scheduler.find(a), Some(0));
    assert_eq!(injector.len(), 2);
    let mut worker = Worker::new_fifo();
    assert_eq!(take(&mut worker, &mut injector), Some(0));
    assert_eq!(take(&mut worker, &mut injector), Some(1));
    assert_eq!(take(&mut worker, &mut injector), None);
}

// Repeats an attempt that was refused.
fn take(worker: &mut Worker<usize>, injector: &mut Injector<usize>) -> Option<usize> {
    loop {
        match next_runnable(worker, injector) {
            Stolen::Success(thread) => return Some(thread),
            Stolen::Empty => return None,
            Stolen::Retry => assert!(!injector.is_empty()),
        }
    }
}

#[test]
fn own_queue_comes_before_the_shared_one() {
    let mut worker: Worker<usize> = Worker::new_fifo();
    let mut injector: Injector<usize> = Injector::new();
    assert_eq!(next_runnable(&mut worker, &mut injector), Stolen::Empty);
    worker.push(5);
    worker.push(6);
    injector.push(7);
    assert_eq!(next_runnable(&mut worker, &mut injector), Stolen::Success(5));
    assert_eq!(next_runnable(&mut worker, &mut injector), Stolen::Success(6));
    assert_eq!(take(&mut worker, &mut injector), Some(7));
    assert_eq!(next_runnable(&mut worker, &mut injector), Stolen::Empty);
}

#[test]
fn nothing_to_run() {
    let mut runtime: Runtime<String> = Runtime::new();
    let mut carrier = Carrier::new();
    assert_eq!(end_yield(&mut runtime, &mut carrier), EndStep::Sleep);
    assert_eq!(retry_end(&mut runtime, &mut carrier), EndStep::Sleep);
    assert_eq!(carrier.current, None);
}

#[test]
fn yield_without_a_thread_returns() {
    let mut runtime: Runtime<String> = Runtime::new();
    let mut carrier = Carrier::new();
    spawn(&mut runtime);
    assert_eq!(yield_to(&mut runtime, &mut carrier), YieldStep::Return);
    assert_eq!(carrier.current, None);
    assert_eq!(state(&runtime, 0), ThreadState::READY);
    assert_eq!(runtime.injector.len(), 1);
}

#[test]
fn turns_go_round() {
    let mut runtime: Runtime<String> = Runtime::new();
    let mut carrier = Carrier::new();
    for _ in 0..3 {
        spawn(&mut runtime);
    }
    assert_eq!(end(&mut runtime, &mut carrier), 0);
    assert_eq!(carrier.current, Some(0));
    assert_eq!(state(&runtime, 0), ThreadState::RUNNING);
    assert_eq!(give_way(&mut runtime, &mut carrier), (0, 1));
    assert_eq!(state(&runtime, 0), ThreadState::YIELD);
    assert_eq!(state(&runtime, 1), ThreadState::RUNNING);
    assert_eq!(state(&runtime, 2), ThreadState::READY);
    assert_eq!(give_way(&mut runtime, &mut carrier), (1, 2));
    assert_eq!(give_way(&mut runtime, &mut carrier), (2, 0));
    assert_eq!(carrier.current, Some(0));
    assert_eq!(runtime.injector.len(), 2);
    assert_eq!(give_way(&mut runtime, &mut carrier), (0, 1));
}

#[test]
fn single_thread_yields_to_itself() {
    let mut runtime: Runtime<String> = Runtime::new();
    let mut carrier = Carrier::new();
    spawn(&mut runtime);
    assert_eq!(end(&mut runtime, &mut carrier), 0);
    assert_eq!(give_way(&mut runtime, &mut carrier), (0, 0));
    assert_eq!(state(&runtime, 0), ThreadState::RUNNING);
    assert_eq!(runtime.injector.len(), 0);
}

#[test]
fn ended_thread_never_runs_again() {
    let mut runtime: Runtime<String> = Runtime::new();
    let mut carrier = Carrier::new();
    spawn(&mut runtime);
    spawn(&mut runtime);
    assert_eq!(end(&mut runtime, &mut carrier), 0);
    assert_eq!(end(&mut runtime, &mut carrier), 1);
    assert_eq!(state(&runtime, 0), ThreadState::EXITED);
    assert_eq!(state(&runtime, 1), ThreadState::RUNNING);
    for _ in 0..3 {
        assert_eq!(give_way(&mut runtime, &mut carrier), (1, 1));
    }
    assert_eq!(state(&runtime, 0), ThreadState::EXITED);
    assert_eq!(end_yield(&mut runtime, &mut carrier), EndStep::Sleep);
    assert_eq!(state(&runtime, 1), ThreadState::EXITED);
    assert_eq!(carrier.current, Some(1));
    // A thread spawned while the carrier sleeps is run by the next look.
    spawn(&mut runtime);
    let mut step = retry_end(&mut runtime, &mut carrier);
    while step == EndStep::Refused {
        step = retry_end(&mut runtime, &mut carrier);
    }
    assert_eq!(step, EndStep::Switch { to: 2 });
}

#[test]
fn steps_follow_what_was_taken() {
    let mut runtime: Runtime<String> = Runtime::new();
    let mut carrier = Carrier::new();
    spawn(&mut runtime);
    spawn(&mut runtime);
    assert_eq!(
        yield_with(&mut runtime, &mut carrier, 0, Stolen::Empty),
        YieldStep::Wait { from: 0 }
    );
    assert_eq!(
        yield_with(&mut runtime, &mut carrier, 0, Stolen::Retry),
        YieldStep::Refused { from: 0 }
    );
    assert_eq!(carrier.current, None);
    assert_eq!(
        yield_with(&mut runtime, &mut carrier, 0, Stolen::Success(1)),
        YieldStep::Switch { from: 0, to: 1 }
    );
    assert_eq!(carrier.current, Some(1));
    assert_eq!(state(&runtime, 1), ThreadState::RUNNING);
    assert_eq!(end_with(&mut runtime, &mut carrier, Stolen::Empty), EndStep::Sleep);
    assert_eq!(end_with(&mut runtime, &mut carrier, Stolen::Retry), EndStep::Refused);
    assert_eq!(carrier.current, Some(1));
    assert_eq!(
        end_with(&mut runtime, &mut carrier, Stolen::Success(0)),
        EndStep::Switch { to: 0 }
    );
    assert_eq!(carrier.current, Some(0));
}

#[test]
fn waiting_yield_goes_on_once_a_thread_is_in_line() {
    let mut runtime: Runtime<String> = Runtime::new();
    let mut carrier = Carrier::new();
    assert_eq!(retry_yield(&mut runtime, &mut carrier, 0), YieldStep::Wait { from: 0 });
    spawn(&mut runtime);
    let mut step = retry_yield(&mut runtime, &mut carrier, 0);
    while step == (YieldStep::Refused { from: 0 }) {
        step = retry_yield(&mut runtime, &mut carrier, 0);
    }
    assert_eq!(step, YieldStep::Switch { from: 0, to: 0 });
}

#[test]
fn preemption_request_is_used_up() {
    let mut runtime: Runtime<String> = Runtime::new();
    let mut carrier = Carrier::new();
    spawn(&mut runtime);
    spawn(&mut runtime);
    end(&mut runtime, &mut carrier);
    let mut requested = false;
    assert_eq!(check_preemption(&mut requested, &mut runtime, &mut carrier), None);
    assert_eq!(carrier.current, Some(0));
    requested = true;
    let step = check_preemption(&mut requested, &mut runtime, &mut carrier).unwrap();
    assert!(!requested);
    assert!(step == YieldStep::Switch { from: 0, to: 1 } || step == YieldStep::Refused { from: 0 });
    assert_ne!(state(&runtime, 0), ThreadState::RUNNING);
    assert_eq!(check_preemption(&mut requested, &mut runtime, &mut carrier), None);
}

#[test]
fn preemption_without_a_thread() {
    let mut runtime: Runtime<String> = Runtime::new();
    let mut carrier = Carrier::new();
    let mut requested = true;
    assert_eq!(
        check_preemption(&mut requested, &mut runtime, &mut carrier),
        Some(YieldStep::Return)
    );
    assert!(!requested);
}

#[test]
fn messages_arrive_by_type_and_in_order() {
    let mut runtime: Runtime<String> = Runtime::new();
    let mut carrier = Carrier::new();
    let a = spawn(&mut runtime);
    let b = spawn(&mut runtime);
    end(&mut runtime, &mut carrier);
    assert_eq!(send(&mut runtime, &carrier, b, TEXT, "one".to_string()), Ok(()));
    assert_eq!(send(&mut runtime, &carrier, b, NUMBER, "2".to_string()), Ok(()));
    assert_eq!(send(&mut runtime, &carrier, b, TEXT, "three".to_string()), Ok(()));
    // Nothing came for the thread that sent.
    assert_eq!(try_recv(&mut runtime, &carrier, TEXT), None);
    give_way(&mut runtime, &mut carrier);
    assert_eq!(try_recv(&mut runtime, &carrier, NUMBER), Some((a, "2".to_string())));
    assert_eq!(try_recv(&mut runtime, &carrier, NUMBER), None);
    // One more lines up behind those that wait.
    assert_eq!(send(&mut runtime, &carrier, b, TEXT, "four".to_string()), Ok(()));
    assert_eq!(try_recv(&mut runtime, &carrier, TEXT), Some((a, "one".to_string())));
    assert_eq!(try_recv(&mut runtime, &carrier, TEXT), Some((a, "three".to_string())));
    assert_eq!(try_recv(&mut runtime, &carrier, TEXT), Some((b, "four".to_string())));
    assert_eq!(try_recv(&mut runtime, &carrier, TEXT), None);
}

#[test]
fn message_to_oneself() {
    let mut runtime: Runtime<String> = Runtime::new();
    let mut carrier = Carrier::new();
    let a = spawn(&mut runtime);
    end(&mut runtime, &mut carrier);
    assert_eq!(send(&mut runtime, &carrier, a, TEXT, "me".to_string()), Ok(()));
    assert_eq!(try_recv(&mut runtime, &carrier, TEXT), Some((a, "me".to_string())));
    assert!(runtime.scheduler.thread(0).mailbox.is_empty());
}

#[test]
fn message_from_outside_has_no_sender_to_answer() {
    let mut runtime: Runtime<String> = Runtime::new();
    let mut carrier = Carrier::new();
    let a = spawn(&mut runtime);
    assert_eq!(send(&mut runtime, &carrier, a, TEXT, "hello".to_string()), Ok(()));
    assert_eq!(runtime.scheduler.thread(0).mailbox[0].sender, usize::MAX);
    assert_eq!(try_recv(&mut runtime, &carrier, TEXT), None);
    end(&mut runtime, &mut carrier);
    let (from, text) = try_recv(&mut runtime, &carrier, TEXT).unwrap();
    assert_eq!(text, "hello");
    assert_eq!(
        send(&mut runtime, &carrier, from, TEXT, "back".to_string()),
        Err(SendError::ThreadNotFound)
    );
    assert!(runtime.scheduler.thread(0).mailbox.is_empty());
}

#[test]
fn wrapped_closure_runs_once() {
    let count = Cell::new(0);
    let wrapper = Box::new(ClosureWrapper { closure: Some(|| count.set(count.get() + 1)) });
    wrapper.call();
    assert_eq!(count.get(), 1);
    let boxed: Box<dyn FnOnce()> = Box::new(|| {});
    Box::new(ClosureWrapper { closure: Some(boxed) }).call();
    let none: Option<Box<dyn FnOnce()>> = None;
    Box::new(ClosureWrapper { closure: none }).call();
}

#[test]
fn carriers_share_the_threads() {
    let mut runtime: Runtime<String> = Runtime::new();
    let mut one = Carrier::new();
    let mut two = Carrier::new();
    for _ in 0..3 {
        spawn(&mut runtime);
    }
    assert_eq!(end(&mut runtime, &mut one), 0);
    assert_eq!(end(&mut runtime, &mut two), 1);
    assert_eq!(state(&runtime, 0), ThreadState::RUNNING);
    assert_eq!(state(&runtime, 1), ThreadState::RUNNING);
    assert_eq!(give_way(&mut runtime, &mut one), (0, 2));
    assert_eq!(give_way(&mut runtime, &mut two), (1, 0));
    assert_eq!(one.current, Some(2));
    assert_eq!(two.current, Some(0));
    assert_eq!(state(&runtime, 1), ThreadState::YIELD);
    assert_eq!(runtime.injector.len(), 1);
}
