//! The run mode of a job: execute the snippet as a program, or run its tests.
use vstd::prelude::*;

verus! {

/// Whether a submitted snippet is built and executed as a program (`Run`)
/// or handed to the build tool's test harness (`Test`).
#[derive(Debug, Clone, Copy, PartialEq, Eq, Structural)]
pub enum RunMode {
    Run,
    Test,
}

/// Parses the client's mode string: `"test"` selects `Test`,
/// anything else falls back to `Run`.
pub fn parse_mode(mode: &str) -> (m: RunMode)
    ensures
        m == (if mode@ == "test"@ {
            RunMode::Test
        } else {
            RunMode::Run
        }),
{
    let key = mode.to_owned();
    let test_key = "test".to_owned();
    if key == test_key {
        RunMode::Test
    } else {
        RunMode::Run
    }
}

} // verus!
