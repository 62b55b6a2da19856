//! Exceptions.

use vstd::prelude::*;

use crate::hal::config::KernelConfig;
use crate::hal::init::is_apple;
use crate::hal::interrupt::{timer_interrupt_vector, TIMER_VECTOR};
use crate::hw::{address, at, Access, Bus, Hardware};
use crate::irq::aic::{get_irq_num, or_else, reported_irq};

verus! {

/// The timer has fired.
pub const CNTP_CTL_ISTATUS: u64 = 0x4;
/// The timer's interrupt is masked.
pub const CNTP_CTL_IMASK: u64 = 0x2;

/// Distance between the two halves of a GIC.
pub const GIC_CPU_OFFSET: u64 = 0x1_0000;

/// Where Apple's event register is, if the device tree does not say.
pub const AIC_EVENT_DEFAULT: u64 = 0xc000;

/// The interrupt controller's physical address.
pub open spec fn aic_of(config: KernelConfig<'_>) -> u64 {
    or_else(config.apple.aic_base, config.gic_base)
}

/// The address of Apple's event register.
pub open spec fn event_register(config: KernelConfig<'_>) -> u64 {
    at(
        at(aic_of(config), or_else(config.apple.aic_event_offset, AIC_EVENT_DEFAULT)),
        config.phys_to_virt_offset,
    )
}

/// `trace` asks Apple's interrupt controller, if there is one.
pub open spec fn asks_aic(config: KernelConfig<'_>, trace: Seq<Access>, irq: u64) -> bool {
    if aic_of(config) == 0 {
        trace.len() == 0 && irq == 0
    } else {
        &&& trace.len() == 1
        &&& trace[0] matches Access::Read32 { addr, val } && addr == event_register(config) && irq
            == match reported_irq(val) {
            Some(num) => num,
            None => 0,
        }
    }
}

/// What finding the pending interrupt leads to. A GIC knows all of them. On Apple
/// machines the timer is looked at first, because it is no event of the interrupt
/// controller.
pub open spec fn finds_irq(config: KernelConfig<'_>, trace: Seq<Access>, irq: u64) -> bool {
    if !is_apple(config.firmware_type) {
        trace == seq![
            Access::GicIrq {
                cpu: at(at(config.gic_base, GIC_CPU_OFFSET), config.phys_to_virt_offset),
                dist: at(config.gic_base, config.phys_to_virt_offset),
                irq,
            },
        ]
    } else {
        &&& trace.len() >= 1
        &&& trace[0] matches Access::TimerControl { val: first } && {
            if first & CNTP_CTL_ISTATUS == 0 {
                asks_aic(config, trace.skip(1), irq)
            } else {
                &&& trace.len() >= 2
                &&& trace[1] matches Access::TimerControl { val: second } && {
                    if second & CNTP_CTL_IMASK == 0 {
                        trace.len() == 2 && irq == TIMER_VECTOR
                    } else {
                        asks_aic(config, trace.skip(2), irq)
                    }
                }
            }
        }
    }
}

/// Asks Apple's interrupt controller.
fn ask_aic<H: Hardware>(bus: &mut Bus<H>, config: &KernelConfig<'_>) -> (irq: u64)
    ensures
        crate::hw::extends(old(bus).log(), final(bus).log()),
        asks_aic(*config, crate::hw::since(old(bus).log(), final(bus).log()), irq),
{
    let ghost start = bus.log();
    proof {
        crate::hw::lemma_since_self(start);
    }
    let aic_base: u64 = or_else(config.apple.aic_base, config.gic_base);
    if aic_base == 0 {
        return 0;
    }
    let event_offset: u64 = or_else(config.apple.aic_event_offset, AIC_EVENT_DEFAULT);
    let irq: u64 = get_irq_num(
        bus,
        address(address(aic_base, event_offset), config.phys_to_virt_offset),
    );
    proof {
        crate::hw::lemma_since_one(start, bus.log().last());
    }
    irq
}

/// The number of the pending interrupt, or zero if there is none.
pub fn pending_irq<H: Hardware>(bus: &mut Bus<H>, config: &KernelConfig<'_>) -> (irq: u64)
    ensures
        crate::hw::extends(old(bus).log(), final(bus).log()),
        finds_irq(*config, crate::hw::since(old(bus).log(), final(bus).log()), irq),
{
    let ghost start = bus.log();
    if !is_apple(config.firmware_type) {
        let irq: u64 = bus.gic_irq(
            address(
                address(config.gic_base, GIC_CPU_OFFSET),
                config.phys_to_virt_offset,
            ),
            address(config.gic_base, config.phys_to_virt_offset),
        );
        proof {
            crate::hw::lemma_since_one(start, bus.log().last());
        }
        return irq;
    }
    let first: u64 = bus.timer_control();
    if first & CNTP_CTL_ISTATUS != 0 {
        let second: u64 = bus.timer_control();
        if second & CNTP_CTL_IMASK == 0 {
            proof {
                assert(bus.log().take(start.len() as int) =~= start);
            }
            return timer_interrupt_vector();
        }
    }
    let ghost asked = bus.log();
    let irq: u64 = ask_aic(bus, config);
    proof {
        assert(asked.take(start.len() as int) =~= start);
        crate::hw::lemma_since_chain(start, asked, bus.log());
        let trace = crate::hw::since(start, bus.log());
        let n = asked.len() - start.len();
        assert(trace.skip(n) =~= crate::hw::since(asked, bus.log()));
        assert(trace[0] == asked[start.len() as int]);
    }
    irq
}

/// The kind of an exception.
#[derive(Debug, Clone, Copy, PartialEq, Eq, Structural)]
pub enum Kind {
    Synchronous,
    Irq,
    Fiq,
    Other,
}

/// Splits a trap number: the source is in its low half, and the kind above.
pub fn split_trap_num(trap_num: u64) -> (parts: (u16, u16))
    ensures
        parts.0 == trap_num % 0x1_0000,
        parts.1 == (trap_num / 0x1_0000) % 0x1_0000,
{
    ((trap_num % 0x1_0000) as u16, ((trap_num / 0x1_0000) % 0x1_0000) as u16)
}

/// What is done about an exception.
#[derive(Debug, Clone, Copy, PartialEq, Eq, Structural)]
pub enum TrapAction {
    /// The instruction that caused it is dealt with.
    Synchronous,
    /// The interrupt is handled.
    Interrupt(u64),
    /// There is no interrupt after all.
    Nothing,
    /// There is no way to go on.
    Panic,
}

/// Finds out what is to be done about an exception. Apple processors signal every
/// interrupt on the fast line, so both kinds of interrupts are the same.
pub fn trap_handler<H: Hardware>(bus: &mut Bus<H>, config: &KernelConfig<'_>, kind: Kind) -> (action:
    TrapAction)
    ensures
        crate::hw::extends(old(bus).log(), final(bus).log()),
        match kind {
            Kind::Synchronous => action == TrapAction::Synchronous && final(bus).log() == old(
                bus,
            ).log(),
            Kind::Other => action == TrapAction::Panic && final(bus).log() == old(bus).log(),
            _ => exists|irq: u64|
                {
                    &&& #[trigger] finds_irq(
                        *config,
                        crate::hw::since(old(bus).log(), final(bus).log()),
                        irq,
                    )
                    &&& action == if irq != 0 {
                        TrapAction::Interrupt(irq)
                    } else {
                        TrapAction::Nothing
                    }
                },
        },
{
    proof {
        crate::hw::lemma_since_self(bus.log());
    }
    match kind {
        Kind::Synchronous => TrapAction::Synchronous,
        Kind::Other => TrapAction::Panic,
        _ => {
            let vector: u64 = pending_irq(bus, config);
            if vector != 0 {
                TrapAction::Interrupt(vector)
            } else {
                TrapAction::Nothing
            }
        },
    }
}

/// Why an instruction trapped.
#[derive(Debug, Clone, Copy, PartialEq, Eq, Structural)]
pub enum TrapReason {
    /// A page was not to be accessed like this: its address, and the access.
    PageFault(u64, u64),
    SoftwareBreakpoint,
    Other,
}

/// What is done about an instruction that trapped.
#[derive(Debug, Clone, Copy, PartialEq, Eq, Structural)]
pub enum SyncAction {
    /// The page fault is handed to the memory manager.
    HandlePageFault(u64, u64),
    /// The kernel goes on at the given address.
    Resume(u64),
    /// The trap is reported.
    Report,
}

/// The address behind a breakpoint at `elr`.
pub fn breakpoint(elr: u64) -> (next: u64)
    ensures
        next == at(elr, 4),
{
    address(elr, 4)
}

/// Finds out what is to be done about an instruction at `elr` that trapped.
pub fn sync_handler(reason: TrapReason, elr: u64) -> (action: SyncAction)
    ensures
        action == match reason {
            TrapReason::PageFault(vaddr, flags) => SyncAction::HandlePageFault(vaddr, flags),
            TrapReason::SoftwareBreakpoint => SyncAction::Resume(at(elr, 4)),
            TrapReason::Other => SyncAction::Report,
        },
{
    match reason {
        TrapReason::PageFault(vaddr, flags) => SyncAction::HandlePageFault(vaddr, flags),
        TrapReason::SoftwareBreakpoint => SyncAction::Resume(breakpoint(elr)),
        TrapReason::Other => SyncAction::Report,
    }
}

/// On an Apple machine whose timer has not fired, the interrupt is the one that the event
/// register reports, under its whole number. The register is where the configuration says,
/// in the direct map.
pub proof fn law_reported_interrupt_is_found(
    config: KernelConfig<'_>,
    trace: Seq<Access>,
    irq: u64,
    control: u64,
)
    requires
        finds_irq(config, trace, irq),
        is_apple(config.firmware_type),
        trace[0] == (Access::TimerControl { val: control }),
        control & 4 == 0,
        config.apple.aic_base != 0,
        config.apple.aic_event_offset != 0,
        config.apple.aic_base + config.apple.aic_event_offset + config.phys_to_virt_offset
            <= u64::MAX,
    ensures
        trace.len() == 2,
        trace[1] matches Access::Read32 { addr, val } && {
            &&& addr == config.apple.aic_base + config.apple.aic_event_offset
                + config.phys_to_virt_offset
            &&& (val / 0x1_0000) % 0x100 == 1 ==> irq == val % 0x1_0000
            &&& (val / 0x1_0000) % 0x100 != 1 ==> irq == 0
        },
{
    let rest = trace.skip(1);
    assert(rest[0] == trace[1]);
}

/// On an Apple machine a timer that has fired and is not masked is the interrupt that is
/// found, and the interrupt controller is left alone: asking it would take an event away.
pub proof fn law_timer_comes_first(
    config: KernelConfig<'_>,
    trace: Seq<Access>,
    irq: u64,
    first: u64,
    second: u64,
)
    requires
        finds_irq(config, trace, irq),
        is_apple(config.firmware_type),
        trace[0] == (Access::TimerControl { val: first }),
        first & 4 != 0,
        trace[1] == (Access::TimerControl { val: second }),
        second & 2 == 0,
    ensures
        irq == 30,
        trace.len() == 2,
{
}

/// Elsewhere the interrupt is the one that the GIC gives. Its two halves are in the direct
/// map, a fixed distance apart.
pub proof fn law_gic_is_asked(config: KernelConfig<'_>, trace: Seq<Access>, irq: u64)
    requires
        finds_irq(config, trace, irq),
        !is_apple(config.firmware_type),
        config.gic_base + 0x1_0000 + config.phys_to_virt_offset <= u64::MAX,
    ensures
        trace.len() == 1,
        trace[0] matches Access::GicIrq { cpu, dist, irq: given } && {
            &&& given == irq
            &&& dist == config.gic_base + config.phys_to_virt_offset
            &&& cpu - dist == 0x1_0000
        },
{
}

} // verus!
