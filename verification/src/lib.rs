//! Text-mode console core of a minimal kernel: a scroll-capable VGA writer
//! with a character-cell codec, plus the exit-code side of its test harness.

use vstd::prelude::*;

pub mod vga_buffer;

verus! {

/// Exit status that the test harness reports through the emulator's exit port.
#[derive(Debug, Clone, Copy, PartialEq, Eq, Structural)]
pub enum QemuExitCode {
    Success,
    Failed,
}

impl QemuExitCode {
    /// The value written to the exit port for this status.
    pub fn port_value(self) -> (v: u32)
        ensures
            self == QemuExitCode::Success ==> v == 0x10,
            self == QemuExitCode::Failed ==> v == 0x11,
    {
        match self {
            QemuExitCode::Success => 0x10,
            QemuExitCode::Failed => 0x11,
        }
    }
}

/// One unit test of the harness: an implementor runs its check and panics
/// on failure, so coming back at all means the test passed.
pub trait Testable {
    fn run(&self);
}

/// Runs every test in order. Reaching the end means every test came back,
/// and the code handed out for the exit port is always success; a failing
/// test never returns here.
pub fn test_runner(tests: &[&dyn Testable]) -> (code: QemuExitCode)
    ensures
        code == QemuExitCode::Success,
{
    let mut i: usize = 0;
    while i < tests.len()
        decreases tests.len() - i,
    {
        tests[i].run();
        i = i + 1;
    }
    QemuExitCode::Success
}

} // verus!
