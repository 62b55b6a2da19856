//! Power states of devices behind the Apple PMGR.
//!
//! A device whose power domain is off must not be touched: the SoC fabric would
//! answer with an asynchronous error.

use vstd::prelude::*;

use crate::hal::early::{crlf, early_hex, early_puts, hex, sent};
use crate::hw::{
    address, at, extends, hints_between, lemma_since_add, lemma_since_chain, lemma_since_one, since,
    Access, Bus, Hardware,
};
use crate::uart::uart_s5l::UTXH;

verus! {

pub const PMGR_AUTO_ENABLE: u32 = 0x1000_0000;
pub const PMGR_PS_RESET: u32 = 0x1000;
pub const PMGR_DEV_DISABLE: u32 = 0x400;
pub const PMGR_WAS_CLKGATED: u32 = 0x200;
pub const PMGR_WAS_PWRGATED: u32 = 0x100;
pub const PMGR_PS_ACTUAL_MASK: u32 = 0xf0;
pub const PMGR_PS_TARGET_MASK: u32 = 0xf;

/// The actual state of an active device, in place.
pub const PMGR_PS_ACTUAL_ACTIVE: u32 = 0xf0;
pub const PMGR_PS_ACTIVE: u32 = 0xf;

/// Repetitions allowed while waiting for a state change.
pub const PS_WAIT_SPINS: u64 = 2_000_000;

/// Repetitions of a wait that lets a domain discharge.
pub const DISCHARGE_SPINS: u64 = 10_000;

/// Whether a state register reports an active device.
pub open spec fn spec_is_on(reg: u32) -> bool {
    reg & PMGR_PS_ACTUAL_MASK == PMGR_PS_ACTUAL_ACTIVE
}

#[verifier::when_used_as_spec(spec_is_on)]
pub fn is_on(reg: u32) -> (on: bool)
    ensures
        on == spec_is_on(reg),
{
    reg & PMGR_PS_ACTUAL_MASK == PMGR_PS_ACTUAL_ACTIVE
}

/// The register value that powers a device on: all inhibiting and sticky bits
/// cleared, and the active state as target.
pub open spec fn power_on_value(reg: u32) -> u32 {
    (reg & !(PMGR_DEV_DISABLE | PMGR_PS_RESET | PMGR_AUTO_ENABLE | PMGR_WAS_CLKGATED
        | PMGR_WAS_PWRGATED | PMGR_PS_TARGET_MASK)) | PMGR_PS_ACTIVE
}

/// The register value that powers a device off and holds it in reset.
pub open spec fn power_off_value(reg: u32) -> u32 {
    ((reg & !(PMGR_PS_TARGET_MASK | PMGR_AUTO_ENABLE)) | PMGR_DEV_DISABLE) | PMGR_PS_RESET
}

/// The characters of a literal.
pub open spec fn text(s: &str) -> Seq<u8> {
    crlf(vstd::utf8::encode_utf8(s@))
}

/// `trace` reads the state register at `addr` until the device is on (`until_on`)
/// or off, or until it has asked for too many repetitions; `cur` was read last.
pub open spec fn waits(addr: u64, until_on: bool, cur: u32, trace: Seq<Access>) -> bool {
    &&& 1 <= trace.len() <= PS_WAIT_SPINS + 1
    &&& trace.last() == Access::Read32 { addr, val: cur }
    &&& is_on(cur) != until_on ==> trace.len() == PS_WAIT_SPINS + 1
    &&& forall|i: int|
        0 <= i < trace.len() - 1 ==> (#[trigger] trace[i] matches Access::Read32 { addr: a, val }
            && a == addr && is_on(val) != until_on)
}

/// What is reported before a device is powered on.
pub open spec fn report_before(offset: u64, reg: u32) -> Seq<u8> {
    text("HVLOG: pmgr: ") + hex(offset as nat) + text(" pre=") + hex(reg as nat)
}

/// What is reported once a device was powered on, or failed to.
pub open spec fn report_after(cur: u32) -> Seq<u8> {
    text(" post=") + hex(cur as nat) + if is_on(cur) {
        text(" active\n")
    } else {
        text(" TIMED OUT\n")
    }
}

/// What is reported when a device failed to power off.
pub open spec fn report_stuck(offset: u64) -> Seq<u8> {
    text("HVLOG: pmgr: reset ") + hex(offset as nat) + text(" timed out waiting for power-off\n")
}

/// The parts of powering a device on.
pub struct PowerOnRun {
    pub reg: u32,
    pub wait: Seq<Access>,
    pub cur: u32,
}

impl PowerOnRun {
    pub open spec fn trace(self, uart_base: u64, addr: u64, offset: u64) -> Seq<Access> {
        let port = at(uart_base, UTXH);
        seq![Access::Read32 { addr, val: self.reg }] + sent(port, report_before(offset, self.reg))
            + seq![Access::Write32 { addr, val: power_on_value(self.reg) }] + self.wait + sent(
            port,
            report_after(self.cur),
        )
    }

    /// The busy-wait hints, if `start` accesses were made before: they are given
    /// while waiting.
    pub open spec fn hints(self, start: nat, offset: u64) -> Seq<nat> {
        hints_between(start + report_before(offset, self.reg).len() + 2, self.wait.len())
    }
}

/// `trace` powers on the device whose state register is at `addr`, and reports
/// it. `start` accesses were made before, and `hints` are the busy-wait hints.
pub open spec fn powers_on(
    uart_base: u64,
    addr: u64,
    offset: u64,
    trace: Seq<Access>,
    start: nat,
    hints: Seq<nat>,
) -> bool {
    exists|run: PowerOnRun|
        {
            &&& trace == #[trigger] run.trace(uart_base, addr, offset)
            &&& hints == run.hints(start, offset)
            &&& waits(addr, true, run.cur, run.wait)
        }
}

/// The parts of a power cycle.
pub struct ResetRun {
    pub reg: u32,
    pub wait: Seq<Access>,
    pub cur: u32,
    pub on: Seq<Access>,
    pub on_hints: Seq<nat>,
}

impl ResetRun {
    pub open spec fn trace(self, uart_base: u64, addr: u64, offset: u64) -> Seq<Access> {
        seq![Access::Read32 { addr, val: self.reg }] + seq![
            Access::Write32 { addr, val: power_off_value(self.reg) },
        ] + self.wait + sent(
            at(uart_base, UTXH),
            if is_on(self.cur) {
                report_stuck(offset)
            } else {
                Seq::empty()
            },
        ) + self.on
    }

    /// The busy-wait hints, if `start` accesses were made before, and `before_on`
    /// before the device is powered on again: they are given while waiting, and
    /// many in a row let the domain discharge before it is powered on.
    pub open spec fn hints(self, start: nat, before_on: nat) -> Seq<nat> {
        hints_between(start + 2, self.wait.len()) + Seq::new(
            DISCHARGE_SPINS as nat,
            |i: int| before_on,
        ) + self.on_hints
    }
}

/// `trace` powers the device off and on again. `start` accesses were made before,
/// and `hints` are the busy-wait hints.
pub open spec fn power_cycles(
    uart_base: u64,
    addr: u64,
    offset: u64,
    trace: Seq<Access>,
    start: nat,
    hints: Seq<nat>,
) -> bool {
    exists|run: ResetRun|
        {
            let before_on = (start + trace.len() - run.on.len()) as nat;
            &&& trace == #[trigger] run.trace(uart_base, addr, offset)
            &&& hints == run.hints(start, before_on)
            &&& waits(addr, false, run.cur, run.wait)
            &&& powers_on(uart_base, addr, offset, run.on, before_on, run.on_hints)
        }
}

/// Waits for a device to be on or off; returns what was read last.
fn wait_for<H: Hardware>(bus: &mut Bus<H>, addr: u64, until_on: bool) -> (cur: u32)
    ensures
        extends(old(bus).log(), final(bus).log()),
        waits(addr, until_on, cur, since(old(bus).log(), final(bus).log())),
        final(bus).hints() == old(bus).hints() + hints_between(
            old(bus).log().len(),
            since(old(bus).log(), final(bus).log()).len(),
        ),
{
    let ghost start = bus.log();
    let ghost hinted = bus.hints();
    proof {
        crate::hw::lemma_since_self(start);
        assert(bus.hints() =~= hinted + hints_between(start.len(), 1));
    }
    let mut spins: u64 = 0;
    loop
        invariant
            start == old(bus).log(),
            hinted == old(bus).hints(),
            bus.hints() == hinted + hints_between(start.len(), (spins + 1) as nat),
            extends(start, bus.log()),
            spins <= PS_WAIT_SPINS,
            since(start, bus.log()).len() == spins,
            forall|i: int|
                0 <= i < spins ==> (#[trigger] since(start, bus.log())[i] matches Access::Read32 {
                    addr: a,
                    val,
                } && a == addr && is_on(val) != until_on),
        decreases PS_WAIT_SPINS - spins,
    {
        let ghost before = bus.log();
        let cur: u32 = bus.read32(addr);
        proof {
            crate::hw::lemma_since_push(start, before, Access::Read32 { addr, val: cur });
        }
        if is_on(cur) == until_on {
            return cur;
        }
        spins += 1;
        if spins > PS_WAIT_SPINS {
            return cur;
        }
        bus.spin_loop();
        assert(bus.hints() =~= hinted + hints_between(start.len(), (spins + 1) as nat));
    }
}

/// Powers on the device whose state register is `offset` bytes into the PMGR
/// window at `pmgr_base`, and waits for it to become active. What happened is
/// reported on the serial port at `uart_base`.
pub fn power_on<H: Hardware>(bus: &mut Bus<H>, uart_base: u64, pmgr_base: u64, offset: u64)
    ensures
        extends(old(bus).log(), final(bus).log()),
        old(bus).hints().is_prefix_of(final(bus).hints()),
        powers_on(
            uart_base,
            at(pmgr_base, offset),
            offset,
            since(old(bus).log(), final(bus).log()),
            old(bus).log().len(),
            final(bus).hints().skip(old(bus).hints().len() as int),
        ),
{
    let ghost l0 = bus.log();
    let ghost h0 = bus.hints();
    let ghost port = at(uart_base, UTXH);
    let addr: u64 = address(pmgr_base, offset);
    let reg: u32 = bus.read32(addr);
    let ghost l1 = bus.log();
    early_puts(bus, uart_base, "HVLOG: pmgr: ");
    early_hex(bus, uart_base, offset);
    early_puts(bus, uart_base, " pre=");
    early_hex(bus, uart_base, reg as u64);
    let ghost l2 = bus.log();
    let target: u32 = (reg & !(PMGR_DEV_DISABLE | PMGR_PS_RESET | PMGR_AUTO_ENABLE
        | PMGR_WAS_CLKGATED | PMGR_WAS_PWRGATED | PMGR_PS_TARGET_MASK)) | PMGR_PS_ACTIVE;
    bus.write32(addr, target);
    let ghost l3 = bus.log();
    let cur: u32 = wait_for(bus, addr, true);
    let ghost l4 = bus.log();
    early_puts(bus, uart_base, " post=");
    early_hex(bus, uart_base, cur as u64);
    if is_on(cur) {
        early_puts(bus, uart_base, " active\n");
    } else {
        early_puts(bus, uart_base, " TIMED OUT\n");
    }
    proof {
        let run = PowerOnRun { reg, wait: since(l3, l4), cur };
        lemma_since_one(l0, Access::Read32 { addr, val: reg });
        assert(l2 =~= l1 + sent(port, report_before(offset, reg)));
        lemma_since_add(l1, sent(port, report_before(offset, reg)));
        lemma_since_chain(l0, l1, l2);
        lemma_since_one(l2, Access::Write32 { addr, val: target });
        lemma_since_chain(l0, l2, l3);
        lemma_since_chain(l0, l3, l4);
        assert(bus.log() =~= l4 + sent(port, report_after(cur)));
        lemma_since_add(l4, sent(port, report_after(cur)));
        lemma_since_chain(l0, l4, bus.log());
        assert(since(l0, bus.log()) == run.trace(uart_base, addr, offset));
        assert(bus.hints().skip(h0.len() as int) =~= run.hints(l0.len(), offset));
        assert(h0.is_prefix_of(bus.hints()));
    }
}

/// Powers a device off and on again, so that a coprocessor behind it starts from
/// a clean state. Pulsing its reset while it stays powered would not do that.
pub fn reset<H: Hardware>(bus: &mut Bus<H>, uart_base: u64, pmgr_base: u64, offset: u64)
    ensures
        extends(old(bus).log(), final(bus).log()),
        old(bus).hints().is_prefix_of(final(bus).hints()),
        power_cycles(
            uart_base,
            at(pmgr_base, offset),
            offset,
            since(old(bus).log(), final(bus).log()),
            old(bus).log().len(),
            final(bus).hints().skip(old(bus).hints().len() as int),
        ),
{
    let ghost l0 = bus.log();
    let ghost h0 = bus.hints();
    let ghost port = at(uart_base, UTXH);
    let addr: u64 = address(pmgr_base, offset);
    let reg: u32 = bus.read32(addr);
    let ghost l1 = bus.log();
    let off: u32 = ((reg & !(PMGR_PS_TARGET_MASK | PMGR_AUTO_ENABLE)) | PMGR_DEV_DISABLE)
        | PMGR_PS_RESET;
    bus.write32(addr, off);
    let ghost l2 = bus.log();
    let cur: u32 = wait_for(bus, addr, false);
    let ghost l3 = bus.log();
    if is_on(cur) {
        early_puts(bus, uart_base, "HVLOG: pmgr: reset ");
        early_hex(bus, uart_base, offset);
        early_puts(bus, uart_base, " timed out waiting for power-off\n");
    }
    let ghost l4 = bus.log();
    let ghost h4 = bus.hints();
    let mut i: u64 = 0;
    assert(bus.hints() =~= h4 + Seq::new(0, |k: int| l4.len()));
    while i < DISCHARGE_SPINS
        invariant
            i <= DISCHARGE_SPINS,
            bus.log() == l4,
            bus.hints() == h4 + Seq::new(i as nat, |k: int| l4.len()),
        decreases DISCHARGE_SPINS - i,
    {
        bus.spin_loop();
        i += 1;
        assert(bus.hints() =~= h4 + Seq::new(i as nat, |k: int| l4.len()));
    }
    let ghost h5 = bus.hints();
    power_on(bus, uart_base, pmgr_base, offset);
    proof {
        let run = ResetRun {
            reg,
            wait: since(l2, l3),
            cur,
            on: since(l4, bus.log()),
            on_hints: bus.hints().skip(h5.len() as int),
        };
        let stuck = sent(
            port,
            if is_on(cur) {
                report_stuck(offset)
            } else {
                Seq::empty()
            },
        );
        lemma_since_one(l0, Access::Read32 { addr, val: reg });
        lemma_since_one(l1, Access::Write32 { addr, val: off });
        lemma_since_chain(l0, l1, l2);
        lemma_since_chain(l0, l2, l3);
        assert(l4 =~= l3 + stuck);
        lemma_since_add(l3, stuck);
        lemma_since_chain(l0, l3, l4);
        lemma_since_chain(l0, l4, bus.log());
        assert(since(l0, bus.log()) == run.trace(uart_base, addr, offset));
        assert(bus.hints() =~= h5 + run.on_hints);
        assert(bus.hints().skip(h0.len() as int) =~= run.hints(l0.len(), l4.len()));
        assert(h0.is_prefix_of(bus.hints()));
    }
}

/// Whether a device is active, or is set to be enabled automatically.
pub fn is_active<H: Hardware>(bus: &mut Bus<H>, pmgr_base: u64, offset: u64) -> (active: bool)
    ensures
        exists|reg: u32|
            {
                &&& final(bus).log() == old(bus).log().push(
                    Access::Read32 { addr: at(pmgr_base, offset), val: reg },
                )
                &&& active == (#[trigger] is_on(reg) || reg & PMGR_AUTO_ENABLE != 0)
            },
{
    let reg: u32 = bus.read32(address(pmgr_base, offset));
    let on: bool = is_on(reg);
    on || reg & PMGR_AUTO_ENABLE != 0
}

/// Powering a device on asks for the active state and clears what inhibits it.
pub proof fn law_power_on_value(reg: u32)
    ensures
        power_on_value(reg) & PMGR_PS_TARGET_MASK == PMGR_PS_ACTIVE,
        power_on_value(reg) & PMGR_DEV_DISABLE == 0,
        power_on_value(reg) & PMGR_PS_RESET == 0,
        power_on_value(reg) & PMGR_AUTO_ENABLE == 0,
{
    let v = power_on_value(reg);
    assert(v & PMGR_PS_TARGET_MASK == PMGR_PS_ACTIVE && v & PMGR_DEV_DISABLE == 0 && v
        & PMGR_PS_RESET == 0 && v & PMGR_AUTO_ENABLE == 0) by (bit_vector)
        requires
            v == (reg & !(PMGR_DEV_DISABLE | PMGR_PS_RESET | PMGR_AUTO_ENABLE | PMGR_WAS_CLKGATED
                | PMGR_WAS_PWRGATED | PMGR_PS_TARGET_MASK)) | PMGR_PS_ACTIVE,
    ;
}

/// Powering a device off asks for the off state and holds the device in reset.
pub proof fn law_power_off_value(reg: u32)
    ensures
        power_off_value(reg) & PMGR_PS_TARGET_MASK == 0,
        power_off_value(reg) & PMGR_DEV_DISABLE != 0,
        power_off_value(reg) & PMGR_PS_RESET != 0,
        power_off_value(reg) & PMGR_AUTO_ENABLE == 0,
{
    let v = power_off_value(reg);
    assert(v & PMGR_PS_TARGET_MASK == 0 && v & PMGR_DEV_DISABLE != 0 && v & PMGR_PS_RESET != 0 && v
        & PMGR_AUTO_ENABLE == 0) by (bit_vector)
        requires
            v == ((reg & !(PMGR_PS_TARGET_MASK | PMGR_AUTO_ENABLE)) | PMGR_DEV_DISABLE)
                | PMGR_PS_RESET,
    ;
}

/// What `trace` stores to the register at `addr`, in order.
pub open spec fn put(trace: Seq<Access>, addr: u64) -> Seq<u32>
    decreases trace.len(),
{
    if trace.len() == 0 {
        Seq::empty()
    } else {
        let before = put(trace.drop_last(), addr);
        match trace.last() {
            Access::Write32 { addr: a, val } if a == addr => before.push(val),
            _ => before,
        }
    }
}

/// What `trace` loads from the register at `addr`, in order.
pub open spec fn got(trace: Seq<Access>, addr: u64) -> Seq<u32>
    decreases trace.len(),
{
    if trace.len() == 0 {
        Seq::empty()
    } else {
        let before = got(trace.drop_last(), addr);
        match trace.last() {
            Access::Read32 { addr: a, val } if a == addr => before.push(val),
            _ => before,
        }
    }
}

proof fn lemma_put_add(a: Seq<Access>, b: Seq<Access>, addr: u64)
    ensures
        put(a + b, addr) == put(a, addr) + put(b, addr),
        got(a + b, addr) == got(a, addr) + got(b, addr),
    decreases b.len(),
{
    if b.len() == 0 {
        assert(a + b =~= a);
        assert(put(a + b, addr) =~= put(a, addr) + put(b, addr));
        assert(got(a + b, addr) =~= got(a, addr) + got(b, addr));
    } else {
        lemma_put_add(a, b.drop_last(), addr);
        assert((a + b).drop_last() =~= a + b.drop_last());
        assert((a + b).last() == b.last());
        assert(put(a + b, addr) =~= put(a, addr) + put(b, addr));
        assert(got(a + b, addr) =~= got(a, addr) + got(b, addr));
    }
}

proof fn lemma_put_one(access: Access, addr: u64)
    ensures
        put(seq![access], addr) == (match access {
            Access::Write32 { addr: a, val } if a == addr => seq![val],
            _ => Seq::empty(),
        }),
        got(seq![access], addr) == (match access {
            Access::Read32 { addr: a, val } if a == addr => seq![val],
            _ => Seq::empty(),
        }),
{
    let one = seq![access];
    assert(one.drop_last() =~= Seq::<Access>::empty());
    assert(put(one.drop_last(), addr) =~= Seq::<u32>::empty());
    assert(got(one.drop_last(), addr) =~= Seq::<u32>::empty());
    assert(one.last() == access);
}

proof fn lemma_put_sent(port: u64, bytes: Seq<u8>, addr: u64)
    requires
        port != addr,
    ensures
        put(sent(port, bytes), addr) == Seq::<u32>::empty(),
        got(sent(port, bytes), addr) == Seq::<u32>::empty(),
    decreases bytes.len(),
{
    let all = sent(port, bytes);
    if bytes.len() > 0 {
        lemma_put_sent(port, bytes.drop_last(), addr);
        assert(all.drop_last() =~= sent(port, bytes.drop_last()));
        assert(all.last() == all[bytes.len() - 1]);
    }
}

proof fn lemma_put_wait(addr: u64, until_on: bool, cur: u32, wait: Seq<Access>)
    requires
        forall|i: int|
            0 <= i < wait.len() ==> (#[trigger] wait[i] matches Access::Read32 { addr: a, val } && a
                == addr),
    ensures
        put(wait, addr) == Seq::<u32>::empty(),
        got(wait, addr).len() == wait.len(),
        wait.len() > 0 ==> got(wait, addr).last() == wait.last()->Read32_val,
    decreases wait.len(),
{
    if wait.len() > 0 {
        let rest = wait.drop_last();
        assert forall|i: int| 0 <= i < rest.len() implies (
        #[trigger] rest[i] matches Access::Read32 { addr: a, val } && a == addr) by {
            assert(rest[i] == wait[i]);
        }
        lemma_put_wait(addr, until_on, cur, rest);
        assert(wait.last() == wait[wait.len() - 1]);
    }
}

proof fn lemma_state_bits(reg: u32)
    by (bit_vector)
    ensures
        (reg & 0xf0 == 0xf0) == ((reg / 0x10) % 0x10 == 0xf),
        ({
            let on = (reg & !(0x400u32 | 0x1000 | 0x1000_0000 | 0x200 | 0x100 | 0xf)) | 0xf;
            &&& on % 0x10 == 0xf
            &&& (on / 0x10) % 0x10 == (reg / 0x10) % 0x10
            &&& (on / 0x100) % 8 == 0
            &&& (on / 0x800) % 2 == (reg / 0x800) % 2
            &&& (on / 0x1000) % 2 == 0
            &&& (on / 0x2000) % 0x8000 == (reg / 0x2000) % 0x8000
            &&& (on / 0x1000_0000) % 2 == 0
            &&& on / 0x2000_0000 == reg / 0x2000_0000
        }),
        ({
            let off = ((reg & !(0xfu32 | 0x1000_0000)) | 0x400) | 0x1000;
            &&& off % 0x10 == 0
            &&& (off / 0x10) % 0x40 == (reg / 0x10) % 0x40
            &&& (off / 0x400) % 2 == 1
            &&& (off / 0x800) % 2 == (reg / 0x800) % 2
            &&& (off / 0x1000) % 2 == 1
            &&& (off / 0x2000) % 0x8000 == (reg / 0x2000) % 0x8000
            &&& (off / 0x1000_0000) % 2 == 0
            &&& off / 0x2000_0000 == reg / 0x2000_0000
        }),
{
}

/// A device is powered on by one store to its own register. The store asks for the
/// active state, clears what inhibits it and what is sticky, and keeps every other bit
/// as it was read.
pub proof fn law_device_is_asked_to_power_on(
    uart_base: u64,
    addr: u64,
    offset: u64,
    trace: Seq<Access>,
    start: nat,
    hints: Seq<nat>,
)
    requires
        powers_on(uart_base, addr, offset, trace, start, hints),
        addr != at(uart_base, 0x20),
    ensures
        put(trace, addr).len() == 1,
        trace[0] matches Access::Read32 { addr: a, val: reg } && a == addr && {
            let on = put(trace, addr)[0];
            &&& on % 0x10 == 0xf
            &&& (on / 0x10) % 0x10 == (reg / 0x10) % 0x10
            &&& (on / 0x100) % 8 == 0
            &&& (on / 0x800) % 2 == (reg / 0x800) % 2
            &&& (on / 0x1000) % 2 == 0
            &&& (on / 0x2000) % 0x8000 == (reg / 0x2000) % 0x8000
            &&& (on / 0x1000_0000) % 2 == 0
            &&& on / 0x2000_0000 == reg / 0x2000_0000
        },
        (got(trace, addr).last() / 0x10) % 0x10 == 0xf || got(trace, addr).len() == 2_000_002,
{
    let run = choose|run: PowerOnRun|
        {
            &&& trace == #[trigger] run.trace(uart_base, addr, offset)
            &&& hints == run.hints(start, offset)
            &&& waits(addr, true, run.cur, run.wait)
        };
    lemma_power_on_run(uart_base, addr, offset, run);
    lemma_state_bits(run.reg);
    lemma_state_bits(run.cur);
    assert(trace[0] == Access::Read32 { addr, val: run.reg });
}

proof fn lemma_power_on_run(uart_base: u64, addr: u64, offset: u64, run: PowerOnRun)
    requires
        waits(addr, true, run.cur, run.wait),
        addr != at(uart_base, 0x20),
    ensures
        put(run.trace(uart_base, addr, offset), addr) == seq![power_on_value(run.reg)],
        got(run.trace(uart_base, addr, offset), addr).last() == run.cur,
        got(run.trace(uart_base, addr, offset), addr).len() == run.wait.len() + 1,
{
    let port = at(uart_base, UTXH);
    let read = seq![Access::Read32 { addr, val: run.reg }];
    let before = sent(port, report_before(offset, run.reg));
    let write = seq![Access::Write32 { addr, val: power_on_value(run.reg) }];
    let after = sent(port, report_after(run.cur));
    lemma_put_sent(port, report_before(offset, run.reg), addr);
    lemma_put_sent(port, report_after(run.cur), addr);
    assert forall|i: int| 0 <= i < run.wait.len() implies (
    #[trigger] run.wait[i] matches Access::Read32 { addr: a, val } && a == addr) by {
        if i == run.wait.len() - 1 {
            assert(run.wait[i] == run.wait.last());
        }
    }
    lemma_put_wait(addr, true, run.cur, run.wait);
    lemma_put_one(Access::Read32 { addr, val: run.reg }, addr);
    lemma_put_one(Access::Write32 { addr, val: power_on_value(run.reg) }, addr);
    lemma_put_add(read, before, addr);
    lemma_put_add(read + before, write, addr);
    lemma_put_add(read + before + write, run.wait, addr);
    lemma_put_add(read + before + write + run.wait, after, addr);
    assert(put(run.trace(uart_base, addr, offset), addr) =~= seq![power_on_value(run.reg)]);
    assert(got(run.trace(uart_base, addr, offset), addr) =~= seq![run.reg] + got(run.wait, addr));
}

/// A power cycle stores to the device's register twice: first to turn it off and hold it
/// in reset, and then, once it was seen to be off or was waited for, to turn it on.
pub proof fn law_device_is_cycled(
    uart_base: u64,
    addr: u64,
    offset: u64,
    trace: Seq<Access>,
    start: nat,
    hints: Seq<nat>,
)
    requires
        power_cycles(uart_base, addr, offset, trace, start, hints),
        addr != at(uart_base, 0x20),
    ensures
        put(trace, addr).len() == 2,
        trace[0] matches Access::Read32 { addr: a, val: reg } && a == addr && {
            let off = put(trace, addr)[0];
            let on = put(trace, addr)[1];
            &&& off % 0x10 == 0
            &&& (off / 0x400) % 2 == 1
            &&& (off / 0x1000) % 2 == 1
            &&& (off / 0x1000_0000) % 2 == 0
            &&& (off / 0x10) % 0x40 == (reg / 0x10) % 0x40
            &&& (off / 0x2000) % 0x8000 == (reg / 0x2000) % 0x8000
            &&& on % 0x10 == 0xf
            &&& (on / 0x400) % 2 == 0
            &&& (on / 0x1000) % 2 == 0
            &&& (on / 0x1000_0000) % 2 == 0
        },
        trace[1] == (Access::Write32 { addr, val: put(trace, addr)[0] }),
        hints.len() >= 10_000,
{
    let run = choose|run: ResetRun|
        {
            let before_on = (start + trace.len() - run.on.len()) as nat;
            &&& trace == #[trigger] run.trace(uart_base, addr, offset)
            &&& hints == run.hints(start, before_on)
            &&& waits(addr, false, run.cur, run.wait)
            &&& powers_on(uart_base, addr, offset, run.on, before_on, run.on_hints)
        };
    let before_on = (start + trace.len() - run.on.len()) as nat;
    law_device_is_asked_to_power_on(uart_base, addr, offset, run.on, before_on, run.on_hints);
    let on = put(run.on, addr)[0];
    assert((on / 0x100) % 8 == 0 ==> (on / 0x400) % 2 == 0) by (bit_vector);
    lemma_state_bits(run.reg);
    lemma_reset_run(uart_base, addr, offset, run);
    assert(put(trace, addr) =~= seq![power_off_value(run.reg), on]);
    assert(trace[0] == Access::Read32 { addr, val: run.reg });
    assert(trace[1] == Access::Write32 { addr, val: power_off_value(run.reg) });
}

proof fn lemma_reset_run(uart_base: u64, addr: u64, offset: u64, run: ResetRun)
    requires
        waits(addr, false, run.cur, run.wait),
        addr != at(uart_base, 0x20),
    ensures
        put(run.trace(uart_base, addr, offset), addr) == seq![power_off_value(run.reg)] + put(
            run.on,
            addr,
        ),
{
    let port = at(uart_base, UTXH);
    let read = seq![Access::Read32 { addr, val: run.reg }];
    let write = seq![Access::Write32 { addr, val: power_off_value(run.reg) }];
    let text = if is_on(run.cur) {
        report_stuck(offset)
    } else {
        Seq::empty()
    };
    let said = sent(port, text);
    lemma_put_sent(port, text, addr);
    assert forall|i: int| 0 <= i < run.wait.len() implies (
    #[trigger] run.wait[i] matches Access::Read32 { addr: a, val } && a == addr) by {
        if i == run.wait.len() - 1 {
            assert(run.wait[i] == run.wait.last());
        }
    }
    lemma_put_wait(addr, false, run.cur, run.wait);
    lemma_put_one(Access::Read32 { addr, val: run.reg }, addr);
    lemma_put_one(Access::Write32 { addr, val: power_off_value(run.reg) }, addr);
    lemma_put_add(read, write, addr);
    lemma_put_add(read + write, run.wait, addr);
    lemma_put_add(read + write + run.wait, said, addr);
    lemma_put_add(read + write + run.wait + said, run.on, addr);
    assert(put(run.trace(uart_base, addr, offset), addr) =~= seq![power_off_value(run.reg)] + put(
        run.on,
        addr,
    ));
}

} // verus!
