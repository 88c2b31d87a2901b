use core::cell::Cell;
use rusty_os::{test_runner, QemuExitCode, Testable};

#[test]
fn exit_codes_match_the_port_protocol() {
    assert_eq!(QemuExitCode::Success.port_value(), 0x10);
    assert_eq!(QemuExitCode::Failed.port_value(), 0x11);
}

struct Probe<'a>(&'a Cell<u32>);

impl Testable for Probe<'_> {
    fn run(&self) {
        self.0.set(self.0.get() + 1);
    }
}

#[test]
fn test_runner_runs_every_test_and_reports_success() {
    let count = Cell::new(0u32);
    let first = Probe(&count);
    let second = Probe(&count);
    let tests: [&dyn Testable; 2] = [&first, &second];
    let code = test_runner(&tests);
    assert_eq!(code, QemuExitCode::Success);
    assert_eq!(count.get(), 2);
}

#[test]
fn test_runner_accepts_an_empty_suite() {
    let tests: [&dyn Testable; 0] = [];
    assert_eq!(test_runner(&tests), QemuExitCode::Success);
}
