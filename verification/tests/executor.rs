use async_state_machine_example::poll_once;
use async_state_machine_example::AsyncStateMachine;
use std::cell::Cell;
use std::future::Future;
use std::pin::Pin;
use std::task::Context;
use std::task::Poll;

/// Suspends once, then completes.
struct YieldOnce {
    yielded: bool,
}

impl Future for YieldOnce {
    type Output = ();

    fn poll(mut self: Pin<&mut Self>, _cx: &mut Context<'_>) -> Poll<()> {
        if self.yielded {
            Poll::Ready(())
        } else {
            self.yielded = true;
            Poll::Pending
        }
    }
}

fn yield_once() -> YieldOnce {
    YieldOnce { yielded: false }
}

#[test]
fn test_poll_once() {
    let mut future = Box::pin(async {
        let mut i = 0;
        loop {
            if i == 2 {
                return 42;
            } else {
                i += 1;
                yield_once().await
            }
        }
    });

    // i = 0. Not done.
    assert_eq!(poll_once(future.as_mut()), None);
    // i = 1. Not done.
    assert_eq!(poll_once(future.as_mut()), None);
    // i = 2. Done!
    assert_eq!(poll_once(future.as_mut()), Some(42));
}

#[test]
fn poll_once_takes_a_type_erased_future() {
    let mut future: Pin<Box<dyn Future<Output = u8>>> = Box::pin(async {
        yield_once().await;
        9u8
    });
    assert_eq!(poll_once(future.as_mut()), None);
    assert_eq!(poll_once(future.as_mut()), Some(9));
}

#[test]
fn poll_once_completes_at_once_without_suspension() {
    let mut future = Box::pin(async { 5u64 });
    assert_eq!(poll_once(future.as_mut()), Some(5));
}

#[test]
fn machine_reports_completion_once() {
    let mut future = Box::pin(async {
        yield_once().await;
        7u32
    });
    let mut machine = AsyncStateMachine::new(future.as_mut());
    assert!(!machine.is_finished());
    assert_eq!(machine.exec(), None);
    assert!(!machine.is_finished());
    assert_eq!(machine.exec(), Some(7));
    assert!(machine.is_finished());
}

#[test]
fn machine_counts_to_the_value_like_the_free_function() {
    let mut future = Box::pin(async {
        let mut i = 0;
        loop {
            if i == 2 {
                return 42;
            } else {
                i += 1;
                yield_once().await
            }
        }
    });
    let mut machine = AsyncStateMachine::new(future.as_mut());
    assert_eq!(machine.exec(), None);
    assert_eq!(machine.exec(), None);
    assert_eq!(machine.exec(), Some(42));
    assert!(machine.is_finished());
}

#[test]
fn each_step_does_one_unit_of_work() {
    let work = Cell::new(0u32);
    let mut future = Box::pin(async {
        for _ in 0..5 {
            work.set(work.get() + 1);
            yield_once().await;
        }
        work.get()
    });
    let mut machine = AsyncStateMachine::new(future.as_mut());
    assert_eq!(work.get(), 0);
    for done in 1..=5u32 {
        assert_eq!(machine.exec(), None);
        assert_eq!(work.get(), done);
        assert!(!machine.is_finished());
    }
    assert_eq!(machine.exec(), Some(5));
    assert_eq!(work.get(), 5);
    assert!(machine.is_finished());
}

#[test]
fn a_step_resumes_where_the_last_one_stopped() {
    let trace = Cell::new(0u32);
    let mut future = Box::pin(async {
        trace.set(trace.get() * 10 + 1);
        yield_once().await;
        trace.set(trace.get() * 10 + 2);
        yield_once().await;
        trace.set(trace.get() * 10 + 3);
    });
    let mut machine = AsyncStateMachine::new(future.as_mut());
    assert_eq!(machine.exec(), None);
    assert_eq!(trace.get(), 1);
    assert_eq!(machine.exec(), None);
    assert_eq!(trace.get(), 12);
    assert_eq!(machine.exec(), Some(()));
    assert_eq!(trace.get(), 123);
}
