//! The kernel's in-emulator test harness: the exit codes it reports and the
//! runner that executes test cases.
use vstd::prelude::*;

verus! {

/// What the kernel reports to the emulator on exit.
#[derive(PartialEq, Eq, Structural, Debug, Clone, Copy)]
pub enum QemuExitCode {
    Success,
    Failed,
}

impl QemuExitCode {
    /// The value written to the emulator's exit port.
    pub fn code(self) -> (r: u32)
        ensures
            self == QemuExitCode::Success ==> r == 0x10,
            self == QemuExitCode::Failed ==> r == 0x11,
    {
        match self {
            QemuExitCode::Success => 0x10,
            QemuExitCode::Failed => 0x11,
        }
    }
}

/// A test case the runner can execute; a failing one panics.
pub trait Testable {
    fn run(&self);
}

/// Runs every test in order. A failing test panics before this returns, so
/// reaching the end means success.
pub fn test_runner<T: Testable>(tests: &[T]) -> (r: QemuExitCode)
    ensures
        r == QemuExitCode::Success,
{
    let mut i: usize = 0;
    while i < tests.len()
        invariant
            0 <= i <= tests@.len(),
        decreases tests@.len() - i,
    {
        tests[i].run();
        i = i + 1;
    }
    QemuExitCode::Success
}

/// The harness's smoke test: one equals one.
pub fn trivial_assertion() -> (r: bool)
    ensures
        r,
{
    let one: u32 = 1;
    one == 1
}

} // verus!
