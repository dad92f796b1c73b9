use parfum::context::ThreadContext;
use parfum::msqueue::{MsQueue, DUMMY};
use parfum::thread::{GreenThread, ThreadState};
use parfum::treiber::TreiberStack;

fn table(n: usize) -> Vec<GreenThread<u8>> {
    let mut threads = Vec::new();
    for tid in 0..n {
        threads.push(GreenThread {
            context: ThreadContext::zeroed(),
            stack_top: 0,
            stack_bottom: 0,
            tid,
            state: ThreadState::READY,
            ticks: 100,
            next: None,
            mailbox: Vec::new(),
        });
    }
    threads
}

#[test]
fn new_queue_is_its_dummy() {
    let queue: MsQueue<u8> = MsQueue::new();
    assert_eq!(queue.head, DUMMY);
    assert_eq!(queue.tail, DUMMY);
    assert_eq!(queue.dummy.tid, usize::MAX);
    assert_eq!(queue.dummy.ticks, 0);
    assert_eq!(queue.dummy.next, None);
    assert_eq!(queue.dummy.state, ThreadState::RUNNING);
}

#[test]
fn queue_is_first_in_first_out() {
    let mut threads = table(4);
    let mut queue = MsQueue::new();
    assert_eq!(queue.dequeue(&threads), None);
    queue.enqueue(&mut threads, 2);
    queue.enqueue(&mut threads, 0);
    queue.enqueue(&mut threads, 3);
    assert_eq!(queue.dummy.next, Some(2));
    assert_eq!(threads[2].next, Some(0));
    assert_eq!(threads[3].next, None);
    assert_eq!(queue.dequeue(&threads), Some(2));
    queue.enqueue(&mut threads, 1);
    assert_eq!(queue.dequeue(&threads), Some(0));
    assert_eq!(queue.dequeue(&threads), Some(3));
    // A thread that left comes back once another one has left after it.
    queue.enqueue(&mut threads, 0);
    assert_eq!(queue.dequeue(&threads), Some(1));
    assert_eq!(queue.dequeue(&threads), Some(0));
    assert_eq!(queue.dequeue(&threads), None);
    assert_eq!(queue.dequeue(&threads), None);
}

#[test]
fn queue_outlives_growth_of_the_table() {
    let mut threads = table(2);
    let mut queue = MsQueue::new();
    queue.enqueue(&mut threads, 1);
    threads.append(&mut table(1));
    queue.enqueue(&mut threads, 2);
    assert_eq!(queue.dequeue(&threads), Some(1));
    assert_eq!(queue.dequeue(&threads), Some(2));
}

#[test]
fn last_dequeued_thread_is_still_the_head() {
    let mut threads = table(1);
    let mut queue = MsQueue::new();
    queue.enqueue(&mut threads, 0);
    assert_eq!(queue.dequeue(&threads), Some(0));
    queue.enqueue(&mut threads, 0);
    assert_eq!(threads[0].next, Some(0));
    assert_eq!(queue.dequeue(&threads), Some(0));
    assert_eq!(queue.dequeue(&threads), Some(0));
}

#[test]
fn stack_is_last_in_first_out() {
    let mut threads = table(3);
    let mut stack = TreiberStack::new();
    assert_eq!(stack.pop(&threads), None);
    stack.push(&mut threads, 1);
    assert_eq!(threads[1].context.regs[31], 0);
    stack.push(&mut threads, 0);
    assert_eq!(threads[0].context.regs[31], 2);
    stack.push(&mut threads, 2);
    assert_eq!(stack.pop(&threads), Some(2));
    assert_eq!(stack.pop(&threads), Some(0));
    stack.push(&mut threads, 2);
    assert_eq!(stack.pop(&threads), Some(2));
    assert_eq!(stack.pop(&threads), Some(1));
    assert_eq!(stack.pop(&threads), None);
    assert_eq!(stack.head, None);
}

#[test]
fn bystanders_do_not_matter() {
    let mut threads = table(3);
    threads[2].next = Some(77);
    threads[2].context.regs[31] = 99;
    let mut queue = MsQueue::new();
    queue.enqueue(&mut threads, 1);
    queue.enqueue(&mut threads, 0);
    assert_eq!(queue.dequeue(&threads), Some(1));
    assert_eq!(queue.dequeue(&threads), Some(0));
    assert_eq!(queue.dequeue(&threads), None);
    let mut stack = TreiberStack::new();
    stack.push(&mut threads, 0);
    stack.push(&mut threads, 1);
    assert_eq!(stack.pop(&threads), Some(1));
    assert_eq!(stack.pop(&threads), Some(0));
    assert_eq!(stack.pop(&threads), None);
    assert_eq!(threads[2].next, Some(77));
    assert_eq!(threads[2].context.regs[31], 99);
    // What it held is replaced once it is put in line itself.
    queue.enqueue(&mut threads, 2);
    stack.push(&mut threads, 2);
    assert_eq!(queue.dequeue(&threads), Some(2));
    assert_eq!(queue.dequeue(&threads), None);
    assert_eq!(stack.pop(&threads), Some(2));
    assert_eq!(stack.pop(&threads), None);
}
