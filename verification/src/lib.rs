//! A cooperative execution core for callers that cannot block.
//!
//! A long-running operation is written as sequential code with suspension
//! points and driven forward one step per call:
//!
//! - [`AsyncStateMachine`] is the step executor: it resumes a computation
//!   once per call and reports whether it finished.
//! - [`register::ByteRegister`] is the one-byte slot through which a
//!   computation hands output to its driver.
//! - [`async_serialize::AsyncSerializer`] is the chunked producer: it fills
//!   buffers of any size from a suspended computation.
//! - [`sync_serialize::SyncSerializer`] produces the same stream from an
//!   explicit state tag and cursor, without suspending anything.
//! - [`record`] defines the stream that both produce.

pub mod async_serialize;
pub mod executor;
pub mod record;
pub mod register;
pub mod serializer;
pub mod sync_serialize;

pub use executor::poll_once;
pub use executor::AsyncStateMachine;
