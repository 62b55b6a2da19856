//! The processor.

use vstd::prelude::*;

verus! {

pub const PSCI_SYSTEM_RESET: u64 = 0x8400_0009;
pub const PSCI_SYSTEM_OFF: u64 = 0x8400_0008;

/// Something that is tried to leave the kernel.
#[derive(Debug, Clone, Copy, PartialEq, Eq, Structural)]
pub enum ResetStep {
    /// A call of the firmware.
    Hvc(u64),
    /// A breakpoint, for a debugger that waits for one.
    Brk,
}

/// The number of the processor that this runs on, out of its affinity register.
pub fn cpu_id(mpidr: u64) -> (id: u8)
    ensures
        id == mpidr % 4,
{
    (mpidr % 4) as u8
}

/// The processor's frequency is not known.
pub fn cpu_frequency() -> (mhz: u16)
    ensures
        mhz == 0,
{
    0
}

/// What is tried, in order, to reset the machine. When all of it returns there is
/// nothing left but to spin.
pub fn reset() -> (steps: [ResetStep; 3])
    ensures
        steps@ == seq![
            ResetStep::Hvc(PSCI_SYSTEM_RESET),
            ResetStep::Hvc(PSCI_SYSTEM_OFF),
            ResetStep::Brk,
        ],
{
    let steps: [ResetStep; 3] = [
        ResetStep::Hvc(PSCI_SYSTEM_RESET),
        ResetStep::Hvc(PSCI_SYSTEM_OFF),
        ResetStep::Brk,
    ];
    assert(steps@ =~= seq![
        ResetStep::Hvc(PSCI_SYSTEM_RESET),
        ResetStep::Hvc(PSCI_SYSTEM_OFF),
        ResetStep::Brk,
    ]);
    steps
}

} // verus!
