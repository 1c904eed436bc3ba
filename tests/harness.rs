use std::cell::Cell;

use rust_kernel::{test_runner, trivial_assertion, QemuExitCode, Testable};

struct Counted<'a>(&'a Cell<u32>);

impl Testable for Counted<'_> {
    fn run(&self) {
        self.0.set(self.0.get() + 1);
    }
}

#[test]
fn exit_codes() {
    assert_eq!(QemuExitCode::Success.code(), 0x10);
    assert_eq!(QemuExitCode::Failed.code(), 0x11);
}

#[test]
fn runner_runs_every_test() {
    let runs = Cell::new(0u32);
    let tests = [Counted(&runs), Counted(&runs), Counted(&runs)];
    assert_eq!(test_runner(&tests), QemuExitCode::Success);
    assert_eq!(runs.get(), 3);
}

#[test]
fn trivial_assertion_holds() {
    assert!(trivial_assertion());
}
