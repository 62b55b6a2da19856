//! Apple SART (Secure Address Range Table) v3: a DMA allow-list.
//!
//! A SART cannot remap addresses. It only permits or denies DMA to physical
//! ranges, and a coprocessor without an IOMMU reaches only memory that was
//! allowed here first.

use vstd::prelude::*;

use crate::hw::{address, at, extends, since, Access, Bus, Hardware};
use crate::soc::hvcall::{hv_write, is_hv_write};

verus! {

pub const MAX_ENTRIES: u64 = 16;
pub const CONFIG_BASE: u64 = 0x00;
pub const PADDR_BASE: u64 = 0x40;
pub const SIZE_BASE: u64 = 0x80;
pub const ENTRY_STRIDE: u64 = 4;

/// Addresses and sizes are held in units of this many bytes.
pub const UNIT: u64 = 0x1000;

/// The largest size an entry can hold, in units.
pub const SIZE_MAX: u32 = 0x3fff_ffff;

/// The flags value that allows every kind of access.
pub const FLAGS_ALLOW: u32 = 0xff;

/// Whether bit `i` of `mask` is set.
pub open spec fn has_bit(mask: u16, i: int) -> bool {
    mask & (1u16 << (i as u16)) != 0
}

/// A SART and what is known of its sixteen entries.
pub struct AppleSart {
    base: u64,
    phys_base: u64,
    protected: u16,
    used: u16,
}

/// The three stores that write entry `i`.
pub open spec fn entry_written(
    trace: Seq<Access>,
    regs: (u64, u64, u64),
    vals: (u32, u32, u32),
) -> bool {
    &&& trace.len() == 3
    &&& is_hv_write(trace[0], regs.0, 4, vals.0 as u64)
    &&& is_hv_write(trace[1], regs.1, 4, vals.1 as u64)
    &&& is_hv_write(trace[2], regs.2, 4, vals.2 as u64)
}

/// A number cut down to its low 32 bits.
pub open spec fn low32(x: u64) -> u32 {
    (x % 0x1_0000_0000) as u32
}

/// A register of entry `i`, in the array at `array` of the window at `base`.
pub open spec fn entry_reg(base: u64, array: u64, i: int) -> u64 {
    at(base, (array + ENTRY_STRIDE * i) as u64)
}

/// `trace` reads the flags of the first `n` entries, and `protected` marks those
/// whose low byte is not zero.
pub open spec fn flags_read(base: u64, n: int, trace: Seq<Access>, protected: u16) -> bool {
    &&& trace.len() == n
    &&& forall|i: int|
        0 <= i < n ==> (#[trigger] trace[i] matches Access::Read32 { addr, val } && addr
            == entry_reg(base, CONFIG_BASE, i) && has_bit(protected, i) == (val & 0xff != 0))
    &&& forall|i: int| n <= i < MAX_ENTRIES ==> !#[trigger] has_bit(protected, i)
}

proof fn lemma_set_bit(mask: u16, i: u16, j: u16)
    by (bit_vector)
    requires
        i < 16,
        j < 16,
    ensures
        ((mask | (1u16 << i)) & (1u16 << j) != 0) == (i == j || mask & (1u16 << j) != 0),
{
}

proof fn lemma_clear_bit(mask: u16, i: u16, j: u16)
    by (bit_vector)
    requires
        i < 16,
        j < 16,
    ensures
        ((mask & !(1u16 << i)) & (1u16 << j) != 0) == (i != j && mask & (1u16 << j) != 0),
{
}

proof fn lemma_no_bit(j: u16)
    by (bit_vector)
    ensures
        0u16 & (1u16 << j) == 0,
{
}

proof fn lemma_units(x: u64)
    by (bit_vector)
    ensures
        x & 0xfff == x % 0x1000,
        x >> 12 == x / 0x1000,
{
}

impl AppleSart {
    pub closed spec fn base(self) -> u64 {
        self.base
    }

    pub closed spec fn phys_base(self) -> u64 {
        self.phys_base
    }

    /// Entry `i` was populated by firmware before the driver saw the device.
    pub closed spec fn is_protected(self, i: int) -> bool {
        has_bit(self.protected, i)
    }

    /// Entry `i` was handed out by the driver.
    pub closed spec fn is_used(self, i: int) -> bool {
        has_bit(self.used, i)
    }

    /// Entry `i` can be handed out.
    pub open spec fn is_free(self, i: int) -> bool {
        !self.is_protected(i) && !self.is_used(i)
    }

    /// No entry is both firmware's and the driver's.
    pub open spec fn wf(self) -> bool {
        forall|i: int|
            0 <= i < MAX_ENTRIES && #[trigger] self.is_used(i) ==> !self.is_protected(i)
    }

    /// `self` differs from `before` in nothing but whether entry `slot` is used.
    pub open spec fn same_but(self, before: Self, slot: int, used: bool) -> bool {
        &&& self.base() == before.base()
        &&& self.phys_base() == before.phys_base()
        &&& self.is_used(slot) == used
        &&& forall|i: int|
            0 <= i < MAX_ENTRIES ==> #[trigger] self.is_protected(i) == before.is_protected(i)
        &&& forall|i: int|
            0 <= i < MAX_ENTRIES && i != slot ==> #[trigger] self.is_used(i) == before.is_used(i)
    }

    /// A range that a SART entry can describe.
    pub open spec fn can_hold(paddr: u64, size: u64) -> bool {
        paddr % UNIT == 0 && size % UNIT == 0 && size / UNIT <= SIZE_MAX
    }

    /// `slot` is the first entry that can be handed out.
    pub open spec fn is_first_free(self, slot: int) -> bool {
        &&& 0 <= slot < MAX_ENTRIES
        &&& self.is_free(slot)
        &&& forall|i: int| 0 <= i < slot ==> !#[trigger] self.is_free(i)
    }

    /// What it takes to allow `[paddr, paddr + size)`. A refused range changes
    /// nothing; otherwise the first free entry gets the range and then its flags.
    pub open spec fn allows(
        self,
        after: Self,
        paddr: u64,
        size: u64,
        trace: Seq<Access>,
        ok: bool,
    ) -> bool {
        if ok {
            &&& Self::can_hold(paddr, size)
            &&& exists|slot: int|
                {
                    &&& self.is_first_free(slot)
                    &&& #[trigger] after.same_but(self, slot, true)
                    &&& entry_written(
                        trace,
                        (
                            entry_reg(self.phys_base(), PADDR_BASE, slot),
                            entry_reg(self.phys_base(), SIZE_BASE, slot),
                            entry_reg(self.phys_base(), CONFIG_BASE, slot),
                        ),
                        (low32(paddr / UNIT), (size / UNIT) as u32, FLAGS_ALLOW),
                    )
                }
        } else {
            &&& after == self
            &&& trace.len() == 0
            &&& Self::can_hold(paddr, size) ==> forall|i: int|
                0 <= i < MAX_ENTRIES ==> !#[trigger] self.is_free(i)
        }
    }

    /// `trace` compares the used entries below `n`, in order, with a range given
    /// in units, and none of them holds it.
    pub open spec fn probed(self, paddr: u32, size: u32, n: int, trace: Seq<Access>) -> bool
        decreases n,
    {
        if n <= 0 {
            trace.len() == 0
        } else if self.is_protected(n - 1) || !self.is_used(n - 1) {
            self.probed(paddr, size, n - 1, trace)
        } else {
            &&& trace.len() >= 2
            &&& self.probed(paddr, size, n - 1, trace.take(trace.len() - 2))
            &&& !self.entry_holds(n - 1, paddr, size, trace.skip(trace.len() - 2))
            &&& self.entry_read(n - 1, trace.skip(trace.len() - 2))
        }
    }

    /// `trace` reads the range that entry `i` holds.
    pub open spec fn entry_read(self, i: int, trace: Seq<Access>) -> bool {
        &&& trace.len() == 2
        &&& trace[0] matches Access::Read32 { addr, val } && addr == entry_reg(
            self.base(),
            PADDR_BASE,
            i,
        )
        &&& trace[1] matches Access::Read32 { addr, val } && addr == entry_reg(
            self.base(),
            SIZE_BASE,
            i,
        )
    }

    /// `trace` reads entry `i` and finds the given range in it.
    pub open spec fn entry_holds(self, i: int, paddr: u32, size: u32, trace: Seq<Access>) -> bool {
        &&& self.entry_read(i, trace)
        &&& trace[0] matches Access::Read32 { addr, val } && val == paddr
        &&& trace[1] matches Access::Read32 { addr, val } && val == size
    }

    /// What it takes to withdraw `[paddr, paddr + size)`: the first used entry
    /// whose registers hold the range is cleared, flags first.
    pub open spec fn withdraws(
        self,
        after: Self,
        paddr: u64,
        size: u64,
        trace: Seq<Access>,
        ok: bool,
    ) -> bool {
        let p = low32(paddr / UNIT);
        let s = low32(size / UNIT);
        if ok {
            let n = trace.len() - 5;
            exists|slot: int|
                {
                    &&& 0 <= slot < MAX_ENTRIES
                    &&& self.is_used(slot)
                    &&& !self.is_protected(slot)
                    &&& n >= 0
                    &&& self.probed(p, s, slot, trace.take(n))
                    &&& self.entry_holds(slot, p, s, trace.subrange(n, n + 2))
                    &&& entry_written(
                        trace.skip(n + 2),
                        (
                            entry_reg(self.phys_base(), CONFIG_BASE, slot),
                            entry_reg(self.phys_base(), PADDR_BASE, slot),
                            entry_reg(self.phys_base(), SIZE_BASE, slot),
                        ),
                        (0, 0, 0),
                    )
                    &&& #[trigger] after.same_but(self, slot, false)
                }
        } else {
            &&& after == self
            &&& self.probed(p, s, MAX_ENTRIES as int, trace)
        }
    }

    /// `base` and `phys_base` are the virtual and the physical address of the
    /// SART's window. Entries that are in use already belong to firmware.
    pub fn new<H: Hardware>(bus: &mut Bus<H>, base: u64, phys_base: u64) -> (sart: Self)
        ensures
            sart.wf(),
            sart.base() == base,
            sart.phys_base() == phys_base,
            extends(old(bus).log(), final(bus).log()),
            since(old(bus).log(), final(bus).log()).len() == MAX_ENTRIES,
            forall|i: int|
                0 <= i < MAX_ENTRIES ==> {
                    &&& !sart.is_used(i)
                    &&& #[trigger] since(old(bus).log(), final(bus).log())[i] matches Access::Read32 {
                        addr,
                        val,
                    } && addr == entry_reg(base, CONFIG_BASE, i) && sart.is_protected(i) == (val
                        & 0xff != 0)
                },
    {
        let ghost start = bus.log();
        proof {
            crate::hw::lemma_since_self(start);
            assert forall|i: int| 0 <= i < MAX_ENTRIES implies !#[trigger] has_bit(0u16, i) by {
                lemma_no_bit(i as u16);
            }
        }
        let mut protected: u16 = 0;
        let mut i: u64 = 0;
        while i < MAX_ENTRIES
            invariant
                start == old(bus).log(),
                0 <= i <= MAX_ENTRIES,
                extends(start, bus.log()),
                flags_read(base, i as int, since(start, bus.log()), protected),
            decreases MAX_ENTRIES - i,
        {
            let ghost before = bus.log();
            let ghost mask = protected;
            let flags: u32 = bus.read32(address(base, CONFIG_BASE + ENTRY_STRIDE * i)) & 0xff;
            if flags != 0 {
                protected = protected | (1u16 << (i as u16));
            }
            proof {
                crate::hw::lemma_since_push(start, before, bus.log().last());
                assert(bus.log() =~= before.push(bus.log().last()));
                let trace = since(start, bus.log());
                assert forall|j: int| 0 <= j < MAX_ENTRIES implies #[trigger] has_bit(protected, j)
                    == (has_bit(mask, j) || (j == i && flags != 0)) by {
                    lemma_set_bit(mask, i as u16, j as u16);
                }
                assert forall|j: int| 0 <= j < i + 1 implies (
                #[trigger] trace[j] matches Access::Read32 { addr, val } && addr == entry_reg(
                    base,
                    CONFIG_BASE,
                    j,
                ) && has_bit(protected, j) == (val & 0xff != 0)) by {
                    if j < i {
                        assert(trace[j] == since(start, before)[j]);
                    }
                }
            }
            i += 1;
        }
        AppleSart { base, phys_base, protected, used: 0 }
    }

    /// Allows `[paddr, paddr + size)` for coprocessor DMA. Returns `false` if the
    /// range is not aligned to 4 KiB or too large, or if every entry is taken.
    pub fn add_allowed_region<H: Hardware>(
        &mut self,
        bus: &mut Bus<H>,
        paddr: u64,
        size: u64,
    ) -> (ok: bool)
        requires
            old(self).wf(),
        ensures
            final(self).wf(),
            extends(old(bus).log(), final(bus).log()),
            old(self).allows(
                *final(self),
                paddr,
                size,
                since(old(bus).log(), final(bus).log()),
                ok,
            ),
    {
        let ghost start = bus.log();
        proof {
            crate::hw::lemma_since_self(start);
            lemma_units(paddr);
            lemma_units(size);
        }
        if paddr & 0xfff != 0 || size & 0xfff != 0 {
            return false;
        }
        let shifted_size: u64 = size >> 12;
        if shifted_size > SIZE_MAX as u64 {
            return false;
        }
        let mut i: u64 = 0;
        while i < MAX_ENTRIES
            invariant
                *self == *old(self),
                bus.log() == start,
                start == old(bus).log(),
                0 <= i <= MAX_ENTRIES,
                forall|j: int| 0 <= j < i ==> !#[trigger] self.is_free(j),
                extends(start, start),
                since(start, start).len() == 0,
                self.wf(),
                Self::can_hold(paddr, size),
                shifted_size == size / UNIT,
                shifted_size <= SIZE_MAX,
                paddr >> 12 == paddr / UNIT,
            decreases MAX_ENTRIES - i,
        {
            let bit: u16 = 1u16 << (i as u16);
            if self.protected & bit != 0 || self.used & bit != 0 {
                assert(!self.is_free(i as int));
                i += 1;
                continue ;
            }
            self.used = self.used | bit;
            let p: u32 = ((paddr >> 12) % 0x1_0000_0000) as u32;
            hv_write(bus, address(self.phys_base, PADDR_BASE + ENTRY_STRIDE * i), 4, p as u64);
            hv_write(bus, address(self.phys_base, SIZE_BASE + ENTRY_STRIDE * i), 4, shifted_size);
            hv_write(
                bus,
                address(self.phys_base, CONFIG_BASE + ENTRY_STRIDE * i),
                4,
                FLAGS_ALLOW as u64,
            );
            proof {
                assert forall|j: int| 0 <= j < MAX_ENTRIES implies #[trigger] self.is_used(j) == (j
                    == i || old(self).is_used(j)) by {
                    lemma_set_bit(old(self).used, i as u16, j as u16);
                }
                assert(old(self).is_first_free(i as int));
                assert forall|j: int| 0 <= j < MAX_ENTRIES implies #[trigger] self.is_protected(j)
                    == old(self).is_protected(j) by {}
                assert(self.same_but(*old(self), i as int, true));
                assert(bus.log().take(start.len() as int) =~= start);
            }
            return true;
        }
        false
    }

    /// Withdraws a range that was allowed before. Returns `false` if no entry
    /// holds it.
    pub fn remove_allowed_region<H: Hardware>(
        &mut self,
        bus: &mut Bus<H>,
        paddr: u64,
        size: u64,
    ) -> (ok: bool)
        requires
            old(self).wf(),
        ensures
            final(self).wf(),
            extends(old(bus).log(), final(bus).log()),
            old(self).withdraws(
                *final(self),
                paddr,
                size,
                since(old(bus).log(), final(bus).log()),
                ok,
            ),
    {
        let ghost start = bus.log();
        proof {
            crate::hw::lemma_since_self(start);
            lemma_units(paddr);
            lemma_units(size);
        }
        let p: u32 = ((paddr >> 12) % 0x1_0000_0000) as u32;
        let s: u32 = ((size >> 12) % 0x1_0000_0000) as u32;
        let mut i: u64 = 0;
        while i < MAX_ENTRIES
            invariant
                *self == *old(self),
                self.wf(),
                start == old(bus).log(),
                0 <= i <= MAX_ENTRIES,
                extends(start, bus.log()),
                p == low32(paddr / UNIT),
                s == low32(size / UNIT),
                self.probed(p, s, i as int, since(start, bus.log())),
            decreases MAX_ENTRIES - i,
        {
            let ghost before = bus.log();
            let bit: u16 = 1u16 << (i as u16);
            if self.protected & bit != 0 || self.used & bit == 0 {
                i += 1;
                continue ;
            }
            let cur_paddr: u32 = bus.read32(address(self.base, PADDR_BASE + ENTRY_STRIDE * i));
            let cur_size: u32 = bus.read32(address(self.base, SIZE_BASE + ENTRY_STRIDE * i));
            let ghost read = bus.log();
            proof {
                assert(read.take(start.len() as int) =~= before.take(start.len() as int));
                let trace = since(start, read);
                assert(trace.take(trace.len() - 2) =~= since(start, before));
                assert(self.entry_read(i as int, trace.skip(trace.len() - 2)));
            }
            if cur_paddr != p || cur_size != s {
                i += 1;
                continue ;
            }
            hv_write(bus, address(self.phys_base, CONFIG_BASE + ENTRY_STRIDE * i), 4, 0);
            hv_write(bus, address(self.phys_base, PADDR_BASE + ENTRY_STRIDE * i), 4, 0);
            hv_write(bus, address(self.phys_base, SIZE_BASE + ENTRY_STRIDE * i), 4, 0);
            self.used = self.used & !bit;
            proof {
                assert forall|j: int| 0 <= j < MAX_ENTRIES implies #[trigger] self.is_used(j) == (j
                    != i && old(self).is_used(j)) by {
                    lemma_clear_bit(old(self).used, i as u16, j as u16);
                }
                assert(bus.log().take(start.len() as int) =~= start);
                let trace = since(start, bus.log());
                let n = trace.len() - 5;
                assert(trace.take(n) =~= since(start, before));
                assert(trace.subrange(n, n + 2) =~= since(start, read).skip(n));
                assert(self.same_but(*old(self), i as int, false));
            }
            return true;
        }
        false
    }
}

/// How many of the first `n` entries the driver has handed out.
pub open spec fn used_entries(sart: AppleSart, n: nat) -> nat
    decreases n,
{
    if n == 0 {
        0
    } else {
        used_entries(sart, (n - 1) as nat) + if sart.is_used(n - 1) {
            1nat
        } else {
            0
        }
    }
}

proof fn lemma_used_entries(before: AppleSart, after: AppleSart, slot: int, used: bool, n: nat)
    requires
        after.same_but(before, slot, used),
        before.is_used(slot) != used,
        0 <= slot < MAX_ENTRIES,
        n <= MAX_ENTRIES,
    ensures
        used_entries(after, n) == used_entries(before, n) + if slot >= n {
            0int
        } else if used {
            1
        } else {
            -1
        },
    decreases n,
{
    if n > 0 {
        lemma_used_entries(before, after, slot, used, (n - 1) as nat);
        if slot != n - 1 {
            assert(after.is_used(n - 1) == before.is_used(n - 1));
        }
    }
}

/// Allowing a range takes exactly one entry, and withdrawing one gives exactly
/// one back.
pub proof fn law_one_entry_each(
    before: AppleSart,
    after: AppleSart,
    paddr: u64,
    size: u64,
    trace: Seq<Access>,
    ok: bool,
)
    ensures
        before.allows(after, paddr, size, trace, ok) ==> used_entries(after, MAX_ENTRIES as nat)
            == used_entries(before, MAX_ENTRIES as nat) + if ok {
            1int
        } else {
            0
        },
        before.withdraws(after, paddr, size, trace, ok) ==> used_entries(after, MAX_ENTRIES as nat)
            == used_entries(before, MAX_ENTRIES as nat) - if ok {
            1int
        } else {
            0
        },
{
    if ok && before.allows(after, paddr, size, trace, ok) {
        let slot = choose|slot: int|
            before.is_first_free(slot) && #[trigger] after.same_but(before, slot, true);
        lemma_used_entries(before, after, slot, true, MAX_ENTRIES as nat);
    }
    if ok && before.withdraws(after, paddr, size, trace, ok) {
        let slot = choose|slot: int|
            0 <= slot < MAX_ENTRIES && before.is_used(slot) && #[trigger] after.same_but(
                before,
                slot,
                false,
            );
        lemma_used_entries(before, after, slot, false, MAX_ENTRIES as nat);
    }
}

/// Reads of entry `slot` in `trace` find what was written: `paddr` and `size`, in
/// units.
pub open spec fn reads_back(
    base: u64,
    slot: int,
    paddr: u32,
    size: u32,
    trace: Seq<Access>,
) -> bool {
    forall|k: int|
        0 <= k < trace.len() ==> (#[trigger] trace[k] matches Access::Read32 { addr, val } ==> {
            &&& addr == entry_reg(base, PADDR_BASE, slot) ==> val == paddr
            &&& addr == entry_reg(base, SIZE_BASE, slot) ==> val == size
        })
}

proof fn lemma_probe_finds(
    sart: AppleSart,
    paddr: u32,
    size: u32,
    slot: int,
    n: int,
    trace: Seq<Access>,
)
    requires
        0 <= slot < n,
        sart.is_used(slot),
        !sart.is_protected(slot),
        reads_back(sart.base(), slot, paddr, size, trace),
    ensures
        !sart.probed(paddr, size, n, trace),
    decreases n,
{
    if sart.probed(paddr, size, n, trace) {
        if sart.is_protected(n - 1) || !sart.is_used(n - 1) {
            lemma_probe_finds(sart, paddr, size, slot, n - 1, trace);
        } else {
            let m = trace.len() - 2;
            let last = trace.skip(m);
            if slot == n - 1 {
                assert(last[0] == trace[m]);
                assert(last[1] == trace[m + 1]);
                assert(sart.entry_holds(n - 1, paddr, size, last));
            } else {
                assert forall|k: int| 0 <= k < m implies #[trigger] trace.take(m)[k] == trace[k] by {}
                assert(reads_back(sart.base(), slot, paddr, size, trace.take(m)));
                lemma_probe_finds(sart, paddr, size, slot, n - 1, trace.take(m));
            }
        }
    }
}

/// No used entry other than `slot` is found to hold the given range, in units, anywhere
/// in `trace`.
pub open spec fn others_differ(
    sart: AppleSart,
    slot: int,
    paddr: u32,
    size: u32,
    trace: Seq<Access>,
) -> bool {
    forall|i: int, k: int|
        0 <= i < MAX_ENTRIES && i != slot && sart.is_used(i) && 0 <= k <= trace.len() - 2
            ==> !#[trigger] sart.entry_holds(i, paddr, size, trace.subrange(k, k + 2))
}

/// A range that was allowed can be withdrawn, as long as its entry keeps what was
/// written, and then as many entries are handed out as before. If no other entry holds
/// the same range it is the entry that was handed out which is free again, and so every
/// entry is as it was.
pub proof fn law_allowed_can_be_withdrawn(
    before: AppleSart,
    during: AppleSart,
    after: AppleSart,
    slot: int,
    paddr: u64,
    size: u64,
    allowing: Seq<Access>,
    withdrawing: Seq<Access>,
    ok: bool,
)
    requires
        before.is_first_free(slot),
        before.allows(during, paddr, size, allowing, true),
        during.withdraws(after, paddr, size, withdrawing, ok),
        reads_back(
            during.base(),
            slot,
            low32(paddr / UNIT),
            low32(size / UNIT),
            withdrawing,
        ),
    ensures
        ok,
        used_entries(after, MAX_ENTRIES as nat) == used_entries(before, MAX_ENTRIES as nat),
        others_differ(during, slot, low32(paddr / UNIT), low32(size / UNIT), withdrawing) ==> {
            &&& after.same_but(during, slot, false)
            &&& forall|i: int|
                0 <= i < MAX_ENTRIES ==> #[trigger] after.is_used(i) == before.is_used(i)
        },
{
    let taken = choose|taken: int|
        before.is_first_free(taken) && #[trigger] during.same_but(before, taken, true);
    assert(taken == slot) by {
        if taken < slot {
            assert(!before.is_free(taken));
        } else if slot < taken {
            assert(!before.is_free(slot));
        }
    }
    assert(during.is_used(slot));
    assert(!during.is_protected(slot));
    lemma_probe_finds(
        during,
        low32(paddr / UNIT),
        low32(size / UNIT),
        slot,
        MAX_ENTRIES as int,
        withdrawing,
    );
    law_one_entry_each(before, during, paddr, size, allowing, true);
    law_one_entry_each(during, after, paddr, size, withdrawing, ok);
    let p = low32(paddr / UNIT);
    let s = low32(size / UNIT);
    if others_differ(during, slot, p, s, withdrawing) {
        let n = withdrawing.len() - 5;
        let cleared = choose|cleared: int|
            {
                &&& 0 <= cleared < MAX_ENTRIES
                &&& during.is_used(cleared)
                &&& n >= 0
                &&& during.entry_holds(cleared, p, s, withdrawing.subrange(n, n + 2))
                &&& #[trigger] after.same_but(during, cleared, false)
            };
        assert(cleared == slot);
    }
}

/// Entries that firmware populated stay firmware's, whatever is allowed or
/// withdrawn.
pub proof fn law_protected_entries_stay(
    before: AppleSart,
    after: AppleSart,
    paddr: u64,
    size: u64,
    trace: Seq<Access>,
    ok: bool,
    i: int,
)
    requires
        0 <= i < MAX_ENTRIES,
        before.allows(after, paddr, size, trace, ok) || before.withdraws(
            after,
            paddr,
            size,
            trace,
            ok,
        ),
    ensures
        after.is_protected(i) == before.is_protected(i),
{
}

/// The hypervisor is never asked to write a register of an entry that firmware
/// populated.
pub proof fn law_protected_entries_unwritten(
    before: AppleSart,
    after: AppleSart,
    paddr: u64,
    size: u64,
    trace: Seq<Access>,
    ok: bool,
    k: int,
    array: u64,
    i: int,
    width: u32,
    val: u64,
)
    requires
        before.wf(),
        before.allows(after, paddr, size, trace, ok) || before.withdraws(
            after,
            paddr,
            size,
            trace,
            ok,
        ),
        0 <= k < trace.len(),
        array == CONFIG_BASE || array == PADDR_BASE || array == SIZE_BASE,
        0 <= i < MAX_ENTRIES,
        before.is_protected(i),
    ensures
        !is_hv_write(trace[k], entry_reg(before.phys_base(), array, i), width, val),
{
    if before.allows(after, paddr, size, trace, ok) {
    } else if ok {
        let p = low32(paddr / UNIT);
        let s = low32(size / UNIT);
        let n = trace.len() - 5;
        let slot = choose|slot: int|
            {
                &&& 0 <= slot < MAX_ENTRIES
                &&& before.is_used(slot)
                &&& !before.is_protected(slot)
                &&& before.probed(p, s, slot, trace.take(n))
                &&& before.entry_holds(slot, p, s, trace.subrange(n, n + 2))
                &&& entry_written(
                    trace.skip(n + 2),
                    (
                        entry_reg(before.phys_base(), CONFIG_BASE, slot),
                        entry_reg(before.phys_base(), PADDR_BASE, slot),
                        entry_reg(before.phys_base(), SIZE_BASE, slot),
                    ),
                    (0, 0, 0),
                )
                &&& #[trigger] after.same_but(before, slot, false)
            };
        if k < n {
            lemma_probe_reads(before, p, s, slot, trace.take(n), k);
            assert(trace.take(n)[k] == trace[k]);
        } else if k < n + 2 {
            assert(trace.subrange(n, n + 2)[k - n] == trace[k]);
        } else {
            assert(trace.skip(n + 2)[k - n - 2] == trace[k]);
        }
    } else {
        lemma_probe_reads(
            before,
            low32(paddr / UNIT),
            low32(size / UNIT),
            MAX_ENTRIES as int,
            trace,
            k,
        );
    }
}

proof fn lemma_probe_reads(
    sart: AppleSart,
    paddr: u32,
    size: u32,
    n: int,
    trace: Seq<Access>,
    k: int,
)
    requires
        sart.probed(paddr, size, n, trace),
        0 <= k < trace.len(),
    ensures
        trace[k] is Read32,
    decreases n,
{
    if n > 0 {
        if sart.is_protected(n - 1) || !sart.is_used(n - 1) {
            lemma_probe_reads(sart, paddr, size, n - 1, trace, k);
        } else if k < trace.len() - 2 {
            lemma_probe_reads(sart, paddr, size, n - 1, trace.take(trace.len() - 2), k);
        } else {
            assert(trace.skip(trace.len() - 2)[k - (trace.len() - 2)] == trace[k]);
        }
    }
}

/// An entry that allows a range holds the whole range: its address and its size come
/// back from the two registers, and the flags are written last, when both are there.
pub proof fn law_entry_holds_the_range(
    before: AppleSart,
    after: AppleSart,
    paddr: u64,
    size: u64,
    trace: Seq<Access>,
)
    requires
        before.allows(after, paddr, size, trace, true),
        paddr < 0x1000_0000_0000,
        before.phys_base() + 0xc0 <= u64::MAX,
    ensures
        trace.len() == 3,
        exists|slot: int|
            {
                &&& 0 <= slot < 16
                &&& !before.is_protected(slot) && !before.is_used(slot)
                &&& #[trigger] after.is_used(slot)
                &&& trace[0] matches Access::Hvcall { id, a1, a2, a3, ret } && id == 0x4e56_0002
                    && a1 == before.phys_base() + 0x40 + 4 * slot && a2 == 4 && a3 * 0x1000 == paddr
                &&& trace[1] matches Access::Hvcall { id, a1, a2, a3, ret } && id == 0x4e56_0002
                    && a1 == before.phys_base() + 0x80 + 4 * slot && a2 == 4 && a3 * 0x1000 == size
                &&& trace[2] matches Access::Hvcall { id, a1, a2, a3, ret } && id == 0x4e56_0002
                    && a1 == before.phys_base() + 4 * slot && a2 == 4 && a3 == 0xff
            },
{
    let slot = choose|slot: int|
        {
            &&& before.is_first_free(slot)
            &&& #[trigger] after.same_but(before, slot, true)
            &&& entry_written(
                trace,
                (
                    entry_reg(before.phys_base(), PADDR_BASE, slot),
                    entry_reg(before.phys_base(), SIZE_BASE, slot),
                    entry_reg(before.phys_base(), CONFIG_BASE, slot),
                ),
                (low32(paddr / UNIT), (size / UNIT) as u32, FLAGS_ALLOW),
            )
        };
    assert(after.is_used(slot));
}

/// A range that an entry can describe is refused only when all sixteen entries are
/// taken, and then nothing is written.
pub proof fn law_range_is_refused_for_want_of_entries(
    before: AppleSart,
    after: AppleSart,
    paddr: u64,
    size: u64,
    trace: Seq<Access>,
    ok: bool,
    i: int,
)
    requires
        before.allows(after, paddr, size, trace, ok),
        paddr % 0x1000 == 0,
        size % 0x1000 == 0,
        size <= 0x3ff_ffff_f000,
        0 <= i < 16,
        !before.is_protected(i),
        !before.is_used(i),
    ensures
        ok,
{
    if !ok {
        assert(!before.is_free(i));
    }
}

/// Withdrawing a range takes the flags away first, and leaves the entry empty.
pub proof fn law_withdrawn_entry_is_empty(
    before: AppleSart,
    after: AppleSart,
    paddr: u64,
    size: u64,
    trace: Seq<Access>,
)
    requires
        before.withdraws(after, paddr, size, trace, true),
        before.phys_base() + 0xc0 <= u64::MAX,
        before.base() + 0xc0 <= u64::MAX,
        paddr < 0x1000_0000_0000,
        size < 0x1000_0000_0000,
        paddr % 0x1000 == 0,
        size % 0x1000 == 0,
    ensures
        exists|slot: int|
            {
                let n = trace.len() - 5;
                &&& 0 <= slot < 16
                &&& before.is_used(slot)
                &&& !(#[trigger] after.is_used(slot))
                &&& trace[n] matches Access::Read32 { addr, val } && addr == before.base() + 0x40 + 4
                    * slot && val * 0x1000 == paddr
                &&& trace[n + 1] matches Access::Read32 { addr, val } && addr == before.base() + 0x80
                    + 4 * slot && val * 0x1000 == size
                &&& trace[n + 2] matches Access::Hvcall { id, a1, a2, a3, ret } && a1
                    == before.phys_base() + 4 * slot && a3 == 0
                &&& trace[n + 3] matches Access::Hvcall { id, a1, a2, a3, ret } && a1
                    == before.phys_base() + 0x40 + 4 * slot && a3 == 0
                &&& trace[n + 4] matches Access::Hvcall { id, a1, a2, a3, ret } && a1
                    == before.phys_base() + 0x80 + 4 * slot && a3 == 0
            },
{
    let p = low32(paddr / UNIT);
    let s = low32(size / UNIT);
    let n = trace.len() - 5;
    let slot = choose|slot: int|
        {
            &&& 0 <= slot < MAX_ENTRIES
            &&& before.is_used(slot)
            &&& !before.is_protected(slot)
            &&& n >= 0
            &&& before.probed(p, s, slot, trace.take(n))
            &&& before.entry_holds(slot, p, s, trace.subrange(n, n + 2))
            &&& entry_written(
                trace.skip(n + 2),
                (
                    entry_reg(before.phys_base(), CONFIG_BASE, slot),
                    entry_reg(before.phys_base(), PADDR_BASE, slot),
                    entry_reg(before.phys_base(), SIZE_BASE, slot),
                ),
                (0, 0, 0),
            )
            &&& #[trigger] after.same_but(before, slot, false)
        };
    assert(!after.is_used(slot));
    assert(trace.subrange(n, n + 2)[0] == trace[n]);
    assert(trace.subrange(n, n + 2)[1] == trace[n + 1]);
    assert(trace.skip(n + 2)[0] == trace[n + 2]);
    assert(trace.skip(n + 2)[1] == trace[n + 3]);
    assert(trace.skip(n + 2)[2] == trace[n + 4]);
}

} // verus!
