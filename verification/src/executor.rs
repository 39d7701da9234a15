//! The single-step execution engine.
//!
//! A suspendable computation is a future. The engine resumes it once per
//! call, up to its next suspension point or to its end, and reports which of
//! the two happened.

use core::future::Future;
use core::pin::Pin;
use core::task::Context;
use core::task::Waker;
use vstd::prelude::*;

verus! {

/// `core::pin::Pin`, carried through as an opaque value.
#[verifier::external_type_specification]
#[verifier::external_body]
#[verifier::reject_recursive_types(Ptr)]
pub struct ExPin<Ptr>(Pin<Ptr>);

/// `core::task::Waker`, carried through as an opaque value.
#[verifier::external_type_specification]
#[verifier::external_body]
pub struct ExWaker(Waker);

/// `core::task::Context`, carried through as an opaque value.
#[verifier::external_type_specification]
#[verifier::external_body]
pub struct ExContext<'a>(Context<'a>);

/// `futures::task::noop_waker_ref` hands out a reference to a waker whose
/// wake-up does nothing. Nothing is claimed of the waker.
pub assume_specification[ futures::task::noop_waker_ref ]() -> (waker: &'static Waker);

/// `Context::from_waker` builds a task context around a waker. Nothing is
/// claimed of the context.
pub assume_specification<'a>[ Context::<'a>::from_waker ](waker: &'a Waker) -> (cx: Context<'a>);

/// `Pin::as_mut` reborrows a pinned pointer for a shorter time. Nothing is
/// claimed of the reborrow.
pub assume_specification<'a, Ptr: core::ops::DerefMut>[ Pin::<Ptr>::as_mut ](
    pin: &'a mut Pin<Ptr>,
) -> (reborrowed: Pin<&'a mut Ptr::Target>) where Ptr: core::ops::DerefMut;

/// Calls `Future::poll` once and turns `Poll::Ready(value)` into
/// `Some(value)`, `Poll::Pending` into `None`.
///
/// Nothing is claimed of the result: it is whatever the future answers.
/// `Future::poll` leaves open what happens when a future that has already
/// returned its value is polled again (it may panic); this crate's callers
/// keep track of completion and do not poll again after it.
#[verifier::external_body]
fn poll_with<T, F>(f: Pin<&mut F>, cx: &mut Context<'_>) -> (result: Option<T>) where
    F: Future<Output = T> + ?Sized,
 {
    match f.poll(cx) {
        core::task::Poll::Ready(value) => Some(value),
        core::task::Poll::Pending => None,
    }
}

/// Polls a future one time, with a waker that does nothing, and returns its
/// value if it completes.
///
/// The future must not have completed before: nothing here can see whether it
/// has, so the caller answers for it. [`AsyncStateMachine`] keeps that record.
pub fn poll_once<T, F>(f: Pin<&mut F>) -> (result: Option<T>) where F: Future<Output = T> + ?Sized {
    let mut cx = Context::from_waker(futures::task::noop_waker_ref());
    poll_with(f, &mut cx)
}

/// Executes a future one step per call.
///
/// The machine counts the steps it has taken and remembers whether the
/// computation has finished. Once it has, no further step may be taken.
#[verifier::reject_recursive_types(F)]
#[verifier::reject_recursive_types(T)]
pub struct AsyncStateMachine<'a, F, T> where F: Future<Output = T> {
    fut: Pin<&'a mut F>,
    finished: bool,
    steps: Ghost<nat>,
}

impl<'a, F, T> AsyncStateMachine<'a, F, T> where F: Future<Output = T> {
    /// Whether a step has returned the computation's value.
    pub closed spec fn finished(&self) -> bool {
        self.finished
    }

    /// How many times the computation has been resumed through this machine.
    pub closed spec fn steps(&self) -> nat {
        self.steps@
    }

    /// Creates a machine that has taken no step yet.
    ///
    /// `fut` must be pinned, on the heap or on the stack, and must not have
    /// completed already.
    pub fn new(fut: Pin<&'a mut F>) -> (machine: Self)
        ensures
            !machine.finished(),
            machine.steps() == 0,
    {
        Self { fut: fut, finished: false, steps: Ghost(0) }
    }

    /// Whether the computation has finished.
    pub fn is_finished(&self) -> (finished: bool)
        ensures
            finished == self.finished(),
    {
        self.finished
    }

    /// Records what one resumption of the computation reported and hands it
    /// on: one more step is counted, and a reported value finishes the
    /// machine.
    fn settle(&mut self, polled: Option<T>) -> (result: Option<T>)
        requires
            !old(self).finished(),
        ensures
            result == polled,
            final(self).finished() == polled.is_some(),
            final(self).steps() == old(self).steps() + 1,
    {
        if polled.is_some() {
            self.finished = true;
        }
        self.steps = Ghost((self.steps@ + 1) as nat);
        polled
    }

    /// Resumes the computation exactly once.
    ///
    /// Returns `Some(value)` if the computation ran to its end, `None` if it
    /// stopped at a suspension point. After `Some`, the machine is finished
    /// for good and must not be stepped again.
    pub fn exec(&mut self) -> (result: Option<T>)
        requires
            !old(self).finished(),
        ensures
            final(self).finished() == result.is_some(),
            final(self).steps() == old(self).steps() + 1,
    {
        let polled = poll_once(self.fut.as_mut());
        self.settle(polled)
    }
}

} // verus!
