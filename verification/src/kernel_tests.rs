//! Test cases for a kernel: each is an application that checks the kernel
//! from the inside, and reports to a test driver.
use vstd::prelude::*;

pub mod startup_hook_disallowed_services;
pub mod task_misc;
pub mod time_set_event;

verus! {

/// What a test case needs of the test driver that runs it: access to the
/// `App` structure of the case, and a way to report how the case ended.
pub trait Driver<App> {
    /// The `App` of the current test case.
    fn app() -> &'static App;

    /// Tells the test runner that the test has succeeded.
    fn success();

    /// Tells the test runner that the test has failed.
    fn fail();
}

} // verus!
