use std::cell::Cell;
use std::rc::Rc;

use engine::{JobQueue, ThreadLock};

#[test]
fn jobs_come_out_in_the_order_they_went_in() {
    let mut queue: JobQueue<u64> = JobQueue::new();
    queue.assign_job(10);
    queue.assign_job(20);
    queue.assign_job(30);

    assert_eq!(queue.get_job(), Some(10));
    assert_eq!(queue.get_job(), Some(20));
    assert_eq!(queue.get_job(), Some(30));
    assert_eq!(queue.get_job(), None);
    assert_eq!(queue.get_job(), None);
}

#[test]
fn draining_runs_every_submitted_job_exactly_once() {
    let counter = Rc::new(Cell::new(0u64));
    let mut queue: JobQueue<Box<dyn FnOnce()>> = JobQueue::new();

    for _ in 0..100 {
        let handle = Rc::clone(&counter);
        queue.assign_job(Box::new(move || {
            handle.set(handle.get() + 1);
        }));
    }

    // a worker loop: take jobs until the queue reports empty, running each
    while let Some(job) = queue.get_job() {
        job();
    }
    // the drain barrier is open only once every job has been handed out
    queue.wait_for_clear();
    assert_eq!(counter.get(), 100);
}

#[test]
fn a_drained_queue_accepts_new_jobs() {
    let mut queue: JobQueue<u64> = JobQueue::new();
    queue.assign_job(1);
    assert_eq!(queue.get_job(), Some(1));
    assert_eq!(queue.get_job(), None);

    queue.assign_job(2);
    assert_eq!(queue.get_job(), Some(2));
    assert_eq!(queue.get_job(), None);
}

#[test]
fn an_open_gate_lets_a_waiter_pass() {
    let mut gate = ThreadLock::new();
    // a fresh gate is open
    gate.wait();
    gate.block();
    gate.unblock();
    gate.wait();
}
