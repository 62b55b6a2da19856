//! Interrupts.

use vstd::prelude::*;

verus! {

/// The interrupt of the generic timer.
pub const TIMER_VECTOR: u64 = 30;

/// The bit of the exception mask that masks ordinary interrupts.
pub const DAIF_I: u64 = 0x80;

/// Something that is done to wait for an interrupt.
#[derive(Debug, Clone, Copy, PartialEq, Eq, Structural)]
pub enum WaitAction {
    /// The serial port is served as if it had raised an interrupt.
    PollUart,
    /// Interrupts are unmasked.
    IntrOn,
    /// The processor sleeps until an interrupt arrives.
    Wfi,
    /// Interrupts are masked.
    IntrOff,
}

/// What is done to wait for an interrupt. On Apple machines the serial port does
/// not raise any, so it is served before and after.
pub open spec fn waiting(is_apple: bool) -> Seq<WaitAction> {
    let sleep = seq![WaitAction::IntrOn, WaitAction::Wfi, WaitAction::IntrOff];
    if is_apple {
        seq![WaitAction::PollUart] + sleep + seq![WaitAction::PollUart]
    } else {
        sleep
    }
}

/// What is done to wait for an interrupt, in order.
pub fn wait_for_interrupt(is_apple: bool) -> (actions: Vec<WaitAction>)
    ensures
        actions@ == waiting(is_apple),
{
    let mut actions: Vec<WaitAction> = Vec::new();
    if is_apple {
        actions.push(WaitAction::PollUart);
    }
    actions.push(WaitAction::IntrOn);
    actions.push(WaitAction::Wfi);
    actions.push(WaitAction::IntrOff);
    if is_apple {
        actions.push(WaitAction::PollUart);
    }
    assert(actions@ =~= waiting(is_apple));
    actions
}

/// What is done about an interrupt.
#[derive(Debug, Clone, Copy, PartialEq, Eq, Structural)]
pub enum IrqAction {
    /// The serial port is served, and the timer is armed again.
    Tick,
    /// The interrupt controller handles it.
    Dispatch(u64),
}

/// What is done about interrupt `vector`. On Apple machines the timer bypasses the
/// interrupt controller, and would fire forever if it were not armed again.
pub fn handle_irq(vector: u64, is_apple: bool) -> (action: IrqAction)
    ensures
        action == (if vector == TIMER_VECTOR && is_apple {
            IrqAction::Tick
        } else {
            IrqAction::Dispatch(vector)
        }),
{
    if vector == timer_interrupt_vector() && is_apple {
        return IrqAction::Tick;
    }
    IrqAction::Dispatch(vector)
}

/// The interrupt of the generic timer.
pub fn timer_interrupt_vector() -> (vector: u64)
    ensures
        vector == TIMER_VECTOR,
{
    TIMER_VECTOR
}

/// Whether interrupts are unmasked, out of the exception mask.
pub fn intr_get(daif: u64) -> (on: bool)
    ensures
        on == (daif & DAIF_I == 0),
{
    daif & DAIF_I == 0
}

/// Whoever waits for an interrupt sleeps with interrupts on, and has them off again
/// afterwards; nothing happens between switching them on and going to sleep.
pub proof fn law_sleep_can_be_ended(is_apple: bool)
    ensures
        ({
            let actions = waiting(is_apple);
            let n = if is_apple {
                1int
            } else {
                0
            };
            &&& actions.len() == 3 + 2 * n
            &&& actions[n] == WaitAction::IntrOn
            &&& actions[n + 1] == WaitAction::Wfi
            &&& actions[n + 2] == WaitAction::IntrOff
            &&& is_apple ==> actions[0] == WaitAction::PollUart && actions[4]
                == WaitAction::PollUart
        }),
{
}

} // verus!
