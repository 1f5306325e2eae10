//! Runners: the concurrency strategies a server executes its per-request
//! work under. The inline strategy is verified here; the thread-per-task
//! and bounded-pool strategies live in the application shell, driving the
//! verified scheduling state in [`threadpool`].
use vstd::prelude::*;

pub mod threadpool;

verus! {

/// Runs each unit of work at once, on the calling thread.
pub struct SimpleRunner;

impl SimpleRunner {
    /// Run one unit of work to completion before returning: the work has
    /// been performed, so its postcondition holds.
    pub fn run<F: FnOnce() -> ()>(&mut self, f: F)
        requires
            call_requires(f, ()),
        ensures
            call_ensures(f, (), ()),
    {
        f();
    }
}

} // verus!
