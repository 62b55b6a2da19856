//! Access to the machine.
//!
//! Drivers never touch a register or a DMA buffer themselves. They go through a
//! [`Bus`], which forwards each access to a [`Hardware`] and keeps a ghost record
//! of it. Nothing is assumed of what the hardware answers: a driver's contract
//! says which accesses it makes, in which order, and how its result follows from
//! the values that were read.

use vstd::prelude::*;

use crate::nvme::command::{AppleNvmmuTcb, NvmeCommand, NvmeCompletion};

verus! {

/// How the processor caches a page.
#[derive(Debug, Clone, Copy, PartialEq, Eq, Structural)]
pub enum CachePolicy {
    Cached,
    Uncached,
    UncachedDevice,
    WriteCombining,
}

/// What may be done to a page.
#[derive(Debug, Clone, Copy, PartialEq, Eq, Structural)]
pub struct MmuFlags {
    pub read: bool,
    pub write: bool,
    pub device: bool,
    pub cache: CachePolicy,
}

/// One access to the machine, together with what it gave back.
#[allow(inconsistent_fields)]
pub enum Access {
    /// A volatile one-byte load.
    Read8 { addr: u64, val: u8 },
    /// A volatile four-byte load.
    Read32 { addr: u64, val: u32 },
    /// A volatile eight-byte load.
    Read64 { addr: u64, val: u64 },
    /// A volatile one-byte store.
    Write8 { addr: u64, val: u8 },
    /// A volatile four-byte store.
    Write32 { addr: u64, val: u32 },
    /// A trap to the resident hypervisor.
    Hvcall { id: u64, a1: u64, a2: u64, a3: u64, ret: u64 },
    /// A sequentially consistent memory fence.
    Fence,
    /// An allocation of DMA memory, at a virtual and a physical address.
    AllocDma { size: u64, va: u64, pa: u64 },
    /// The release of DMA memory.
    DeallocDma { va: u64, size: u64 },
    /// A range of memory filled with zeroes.
    Zero { va: u64, size: u64 },
    /// An NVMe command stored into a submission ring.
    StoreCommand { addr: u64, cmd: NvmeCommand },
    /// A task control block stored into an NVMMU array.
    StoreTcb { addr: u64, tcb: AppleNvmmuTcb },
    /// A completion entry loaded from a completion ring.
    LoadCompletion { addr: u64, cqe: NvmeCompletion },
    /// A pulse of the reset line of a coprocessor's power domain.
    ResetDomain,
    /// An interrupt handed to the handler registered for its number.
    DispatchIrq { irq: u64 },
    /// An allocation of contiguous page frames.
    AllocFrames { pages: u64, paddr: Option<u64> },
    /// The release of a page frame.
    FreeFrame { paddr: u64 },
    /// A look at the page table: the flags and the size of a mapping.
    QueryPage { vaddr: u64, found: Option<(MmuFlags, u64)> },
    /// New flags for a mapping.
    UpdatePage { vaddr: u64, flags: MmuFlags, ok: bool },
    /// A new mapping.
    MapPage { vaddr: u64, size: u64, paddr: u64, flags: MmuFlags, ok: bool },
    /// A flush of the translation buffers.
    FlushTlb,
    /// A load of the generic timer's control register.
    TimerControl { val: u64 },
    /// A number taken from a GIC, by the addresses of its two halves.
    GicIrq { cpu: u64, dist: u64, irq: u64 },
}

/// What a platform provides so that drivers can reach its devices.
pub trait Hardware {
    /// Every access made so far, oldest first.
    open spec fn trace(&self) -> Seq<Access> {
        vstd::pervasive::arbitrary()
    }

    /// The busy-wait hints given so far, oldest first: for each of them, how many
    /// accesses had been made before it.
    open spec fn hints(&self) -> Seq<nat> {
        vstd::pervasive::arbitrary()
    }

    /// Loads one byte, volatile.
    fn read8(&mut self, addr: u64) -> (val: u8)
        ensures
            final(self).trace() == old(self).trace().push(Access::Read8 { addr, val }),
            final(self).hints() == old(self).hints(),
    ;

    /// Loads four bytes, volatile.
    fn read32(&mut self, addr: u64) -> (val: u32)
        ensures
            final(self).trace() == old(self).trace().push(Access::Read32 { addr, val }),
            final(self).hints() == old(self).hints(),
    ;

    /// Loads eight bytes, volatile.
    fn read64(&mut self, addr: u64) -> (val: u64)
        ensures
            final(self).trace() == old(self).trace().push(Access::Read64 { addr, val }),
            final(self).hints() == old(self).hints(),
    ;

    /// Stores one byte, volatile.
    fn write8(&mut self, addr: u64, val: u8)
        ensures
            final(self).trace() == old(self).trace().push(Access::Write8 { addr, val }),
            final(self).hints() == old(self).hints(),
    ;

    /// Stores four bytes, volatile.
    fn write32(&mut self, addr: u64, val: u32)
        ensures
            final(self).trace() == old(self).trace().push(Access::Write32 { addr, val }),
            final(self).hints() == old(self).hints(),
    ;

    /// Traps to the hypervisor with a call number and three arguments.
    fn hvcall4(&mut self, id: u64, a1: u64, a2: u64, a3: u64) -> (ret: u64)
        ensures
            final(self).trace() == old(self).trace().push(Access::Hvcall { id, a1, a2, a3, ret }),
            final(self).hints() == old(self).hints(),
    ;

    /// Issues a sequentially consistent fence.
    fn fence(&mut self)
        ensures
            final(self).trace() == old(self).trace().push(Access::Fence),
            final(self).hints() == old(self).hints(),
    ;

    /// Tells the processor that the caller is busy-waiting.
    fn spin_loop(&mut self)
        ensures
            final(self).trace() == old(self).trace(),
            final(self).hints() == old(self).hints().push(old(self).trace().len()),
    ;

    /// Allocates `size` bytes for DMA and returns their virtual and physical address.
    fn alloc_dma(&mut self, size: u64) -> (addrs: (u64, u64))
        ensures
            final(self).trace() == old(self).trace().push(Access::AllocDma { size, va: addrs.0, pa: addrs.1 }),
            final(self).hints() == old(self).hints(),
    ;

    /// Releases DMA memory.
    fn dealloc_dma(&mut self, va: u64, size: u64)
        ensures
            final(self).trace() == old(self).trace().push(Access::DeallocDma { va, size }),
            final(self).hints() == old(self).hints(),
    ;

    /// Fills a range of memory with zeroes.
    fn zero(&mut self, va: u64, size: u64)
        ensures
            final(self).trace() == old(self).trace().push(Access::Zero { va, size }),
            final(self).hints() == old(self).hints(),
    ;

    /// Stores an NVMe command, volatile.
    fn store_command(&mut self, addr: u64, cmd: NvmeCommand)
        ensures
            final(self).trace() == old(self).trace().push(Access::StoreCommand { addr, cmd }),
            final(self).hints() == old(self).hints(),
    ;

    /// Stores a task control block, volatile.
    fn store_tcb(&mut self, addr: u64, tcb: AppleNvmmuTcb)
        ensures
            final(self).trace() == old(self).trace().push(Access::StoreTcb { addr, tcb }),
            final(self).hints() == old(self).hints(),
    ;

    /// Loads a completion entry, volatile.
    fn load_completion(&mut self, addr: u64) -> (cqe: NvmeCompletion)
        ensures
            final(self).trace() == old(self).trace().push(Access::LoadCompletion { addr, cqe }),
            final(self).hints() == old(self).hints(),
    ;

    /// Pulses the reset of the coprocessor's power domain.
    fn reset_domain(&mut self)
        ensures
            final(self).trace() == old(self).trace().push(Access::ResetDomain),
            final(self).hints() == old(self).hints(),
    ;

    /// Runs the handler registered for interrupt `irq`, if there is one.
    fn dispatch_irq(&mut self, irq: u64)
        ensures
            final(self).trace() == old(self).trace().push(Access::DispatchIrq { irq }),
            final(self).hints() == old(self).hints(),
    ;

    /// Allocates contiguous page frames.
    fn alloc_frames(&mut self, pages: u64) -> (paddr: Option<u64>)
        ensures
            final(self).trace() == old(self).trace().push(Access::AllocFrames { pages, paddr }),
            final(self).hints() == old(self).hints(),
    ;

    /// Releases a page frame.
    fn free_frame(&mut self, paddr: u64)
        ensures
            final(self).trace() == old(self).trace().push(Access::FreeFrame { paddr }),
            final(self).hints() == old(self).hints(),
    ;

    /// Looks a mapping up in the page table in use.
    fn query_page(&mut self, vaddr: u64) -> (found: Option<(MmuFlags, u64)>)
        ensures
            final(self).trace() == old(self).trace().push(Access::QueryPage { vaddr, found }),
            final(self).hints() == old(self).hints(),
    ;

    /// Changes the flags of a mapping; returns whether that worked.
    fn update_page(&mut self, vaddr: u64, flags: MmuFlags) -> (ok: bool)
        ensures
            final(self).trace() == old(self).trace().push(Access::UpdatePage { vaddr, flags, ok }),
            final(self).hints() == old(self).hints(),
    ;

    /// Adds a mapping; returns whether that worked.
    fn map_page(&mut self, vaddr: u64, size: u64, paddr: u64, flags: MmuFlags) -> (ok: bool)
        ensures
            final(self).trace() == old(self).trace().push(Access::MapPage { vaddr, size, paddr, flags, ok }),
            final(self).hints() == old(self).hints(),
    ;

    /// Flushes the translation buffers.
    fn flush_tlb(&mut self)
        ensures
            final(self).trace() == old(self).trace().push(Access::FlushTlb),
            final(self).hints() == old(self).hints(),
    ;

    /// Loads the generic timer's control register.
    fn timer_control(&mut self) -> (val: u64)
        ensures
            final(self).trace() == old(self).trace().push(Access::TimerControl { val }),
            final(self).hints() == old(self).hints(),
    ;

    /// Takes the number of a pending interrupt from a GIC.
    fn gic_irq(&mut self, cpu: u64, dist: u64) -> (irq: u64)
        ensures
            final(self).trace() == old(self).trace().push(Access::GicIrq { cpu, dist, irq }),
            final(self).hints() == old(self).hints(),
    ;
}

/// A machine with nothing in it: loads find zeroes, and there is no memory to be had.
pub struct VacantMachine {
    trace: Ghost<Seq<Access>>,
    hints: Ghost<Seq<nat>>,
}

impl VacantMachine {
    pub fn new() -> (machine: Self)
        ensures
            machine.trace() == Seq::<Access>::empty(),
            machine.hints() == Seq::<nat>::empty(),
    {
        VacantMachine { trace: Ghost(Seq::empty()), hints: Ghost(Seq::empty()) }
    }
}

impl Hardware for VacantMachine {
    closed spec fn trace(&self) -> Seq<Access> {
        self.trace@
    }

    closed spec fn hints(&self) -> Seq<nat> {
        self.hints@
    }

    fn read8(&mut self, addr: u64) -> (val: u8) {
        let val: u8 = 0;
        self.trace = Ghost(self.trace@.push(Access::Read8 { addr, val }));
        val
    }

    fn read32(&mut self, addr: u64) -> (val: u32) {
        let val: u32 = 0;
        self.trace = Ghost(self.trace@.push(Access::Read32 { addr, val }));
        val
    }

    fn read64(&mut self, addr: u64) -> (val: u64) {
        let val: u64 = 0;
        self.trace = Ghost(self.trace@.push(Access::Read64 { addr, val }));
        val
    }

    fn write8(&mut self, addr: u64, val: u8) {
        self.trace = Ghost(self.trace@.push(Access::Write8 { addr, val }));
    }

    fn write32(&mut self, addr: u64, val: u32) {
        self.trace = Ghost(self.trace@.push(Access::Write32 { addr, val }));
    }

    fn hvcall4(&mut self, id: u64, a1: u64, a2: u64, a3: u64) -> (ret: u64) {
        let ret: u64 = 0;
        self.trace = Ghost(self.trace@.push(Access::Hvcall { id, a1, a2, a3, ret }));
        ret
    }

    fn fence(&mut self) {
        self.trace = Ghost(self.trace@.push(Access::Fence));
    }

    fn spin_loop(&mut self) {
        self.hints = Ghost(self.hints@.push(self.trace@.len()));
    }

    fn alloc_dma(&mut self, size: u64) -> (addrs: (u64, u64)) {
        let addrs: (u64, u64) = (0, 0);
        self.trace = Ghost(self.trace@.push(Access::AllocDma { size, va: addrs.0, pa: addrs.1 }));
        addrs
    }

    fn dealloc_dma(&mut self, va: u64, size: u64) {
        self.trace = Ghost(self.trace@.push(Access::DeallocDma { va, size }));
    }

    fn zero(&mut self, va: u64, size: u64) {
        self.trace = Ghost(self.trace@.push(Access::Zero { va, size }));
    }

    fn store_command(&mut self, addr: u64, cmd: NvmeCommand) {
        self.trace = Ghost(self.trace@.push(Access::StoreCommand { addr, cmd }));
    }

    fn store_tcb(&mut self, addr: u64, tcb: AppleNvmmuTcb) {
        self.trace = Ghost(self.trace@.push(Access::StoreTcb { addr, tcb }));
    }

    fn load_completion(&mut self, addr: u64) -> (cqe: NvmeCompletion) {
        let cqe: NvmeCompletion = NvmeCompletion::default();
        self.trace = Ghost(self.trace@.push(Access::LoadCompletion { addr, cqe }));
        cqe
    }

    fn reset_domain(&mut self) {
        self.trace = Ghost(self.trace@.push(Access::ResetDomain));
    }

    fn dispatch_irq(&mut self, irq: u64) {
        self.trace = Ghost(self.trace@.push(Access::DispatchIrq { irq }));
    }

    fn alloc_frames(&mut self, pages: u64) -> (paddr: Option<u64>) {
        let paddr: Option<u64> = None;
        self.trace = Ghost(self.trace@.push(Access::AllocFrames { pages, paddr }));
        paddr
    }

    fn free_frame(&mut self, paddr: u64) {
        self.trace = Ghost(self.trace@.push(Access::FreeFrame { paddr }));
    }

    fn query_page(&mut self, vaddr: u64) -> (found: Option<(MmuFlags, u64)>) {
        let found: Option<(MmuFlags, u64)> = None;
        self.trace = Ghost(self.trace@.push(Access::QueryPage { vaddr, found }));
        found
    }

    fn update_page(&mut self, vaddr: u64, flags: MmuFlags) -> (ok: bool) {
        let ok: bool = false;
        self.trace = Ghost(self.trace@.push(Access::UpdatePage { vaddr, flags, ok }));
        ok
    }

    fn map_page(&mut self, vaddr: u64, size: u64, paddr: u64, flags: MmuFlags) -> (ok: bool) {
        let ok: bool = false;
        self.trace = Ghost(self.trace@.push(Access::MapPage { vaddr, size, paddr, flags, ok }));
        ok
    }

    fn flush_tlb(&mut self) {
        self.trace = Ghost(self.trace@.push(Access::FlushTlb));
    }

    fn timer_control(&mut self) -> (val: u64) {
        let val: u64 = 0;
        self.trace = Ghost(self.trace@.push(Access::TimerControl { val }));
        val
    }

    fn gic_irq(&mut self, cpu: u64, dist: u64) -> (irq: u64) {
        let irq: u64 = 0;
        self.trace = Ghost(self.trace@.push(Access::GicIrq { cpu, dist, irq }));
        irq
    }
}

/// The way to a [`Hardware`].
pub struct Bus<H: Hardware> {
    hw: H,
}

impl<H: Hardware> Bus<H> {
    /// Every access made so far, oldest first.
    pub closed spec fn log(&self) -> Seq<Access> {
        self.hw.trace()
    }

    /// The busy-wait hints given so far, oldest first: for each of them, how many
    /// accesses had been made before it.
    pub closed spec fn hints(&self) -> Seq<nat> {
        self.hw.hints()
    }

    /// The hardware, in the state that it is in now.
    pub closed spec fn hw(&self) -> H {
        self.hw
    }

    /// The way to `hw`.
    pub fn new(hw: H) -> (bus: Self)
        ensures
            bus.hw() == hw,
            bus.log() == hw.trace(),
            bus.hints() == hw.hints(),
    {
        Bus { hw }
    }

    /// Gives the hardware back.
    pub fn into_inner(self) -> (hw: H)
        ensures
            hw == self.hw(),
    {
        self.hw
    }

    pub fn read8(&mut self, addr: u64) -> (val: u8)
        ensures
            final(self).log() == old(self).log().push(Access::Read8 { addr, val }),
            final(self).hints() == old(self).hints(),
    {
        self.hw.read8(addr)
    }

    pub fn read32(&mut self, addr: u64) -> (val: u32)
        ensures
            final(self).log() == old(self).log().push(Access::Read32 { addr, val }),
            final(self).hints() == old(self).hints(),
    {
        self.hw.read32(addr)
    }

    pub fn read64(&mut self, addr: u64) -> (val: u64)
        ensures
            final(self).log() == old(self).log().push(Access::Read64 { addr, val }),
            final(self).hints() == old(self).hints(),
    {
        self.hw.read64(addr)
    }

    pub fn write8(&mut self, addr: u64, val: u8)
        ensures
            final(self).log() == old(self).log().push(Access::Write8 { addr, val }),
            final(self).hints() == old(self).hints(),
    {
        self.hw.write8(addr, val);
    }

    pub fn write32(&mut self, addr: u64, val: u32)
        ensures
            final(self).log() == old(self).log().push(Access::Write32 { addr, val }),
            final(self).hints() == old(self).hints(),
    {
        self.hw.write32(addr, val);
    }

    pub fn hvcall4(&mut self, id: u64, a1: u64, a2: u64, a3: u64) -> (ret: u64)
        ensures
            final(self).log() == old(self).log().push(Access::Hvcall { id, a1, a2, a3, ret }),
            final(self).hints() == old(self).hints(),
    {
        self.hw.hvcall4(id, a1, a2, a3)
    }

    pub fn fence(&mut self)
        ensures
            final(self).log() == old(self).log().push(Access::Fence),
            final(self).hints() == old(self).hints(),
    {
        self.hw.fence();
    }

    /// Gives a busy-wait hint, which is no access.
    pub fn spin_loop(&mut self)
        ensures
            final(self).log() == old(self).log(),
            final(self).hints() == old(self).hints().push(old(self).log().len()),
    {
        self.hw.spin_loop();
    }

    pub fn alloc_dma(&mut self, size: u64) -> (addrs: (u64, u64))
        ensures
            final(self).log() == old(self).log().push(
                Access::AllocDma { size, va: addrs.0, pa: addrs.1 },
            ),
            final(self).hints() == old(self).hints(),
    {
        self.hw.alloc_dma(size)
    }

    pub fn dealloc_dma(&mut self, va: u64, size: u64)
        ensures
            final(self).log() == old(self).log().push(Access::DeallocDma { va, size }),
            final(self).hints() == old(self).hints(),
    {
        self.hw.dealloc_dma(va, size);
    }

    pub fn zero(&mut self, va: u64, size: u64)
        ensures
            final(self).log() == old(self).log().push(Access::Zero { va, size }),
            final(self).hints() == old(self).hints(),
    {
        self.hw.zero(va, size);
    }

    pub fn store_command(&mut self, addr: u64, cmd: NvmeCommand)
        ensures
            final(self).log() == old(self).log().push(Access::StoreCommand { addr, cmd }),
            final(self).hints() == old(self).hints(),
    {
        self.hw.store_command(addr, cmd);
    }

    pub fn store_tcb(&mut self, addr: u64, tcb: AppleNvmmuTcb)
        ensures
            final(self).log() == old(self).log().push(Access::StoreTcb { addr, tcb }),
            final(self).hints() == old(self).hints(),
    {
        self.hw.store_tcb(addr, tcb);
    }

    pub fn load_completion(&mut self, addr: u64) -> (cqe: NvmeCompletion)
        ensures
            final(self).log() == old(self).log().push(Access::LoadCompletion { addr, cqe }),
            final(self).hints() == old(self).hints(),
    {
        self.hw.load_completion(addr)
    }

    pub fn reset_domain(&mut self)
        ensures
            final(self).log() == old(self).log().push(Access::ResetDomain),
            final(self).hints() == old(self).hints(),
    {
        self.hw.reset_domain();
    }

    pub fn dispatch_irq(&mut self, irq: u64)
        ensures
            final(self).log() == old(self).log().push(Access::DispatchIrq { irq }),
            final(self).hints() == old(self).hints(),
    {
        self.hw.dispatch_irq(irq);
    }

    pub fn alloc_frames(&mut self, pages: u64) -> (paddr: Option<u64>)
        ensures
            final(self).log() == old(self).log().push(Access::AllocFrames { pages, paddr }),
            final(self).hints() == old(self).hints(),
    {
        self.hw.alloc_frames(pages)
    }

    pub fn free_frame(&mut self, paddr: u64)
        ensures
            final(self).log() == old(self).log().push(Access::FreeFrame { paddr }),
            final(self).hints() == old(self).hints(),
    {
        self.hw.free_frame(paddr);
    }

    pub fn query_page(&mut self, vaddr: u64) -> (found: Option<(MmuFlags, u64)>)
        ensures
            final(self).log() == old(self).log().push(Access::QueryPage { vaddr, found }),
            final(self).hints() == old(self).hints(),
    {
        self.hw.query_page(vaddr)
    }

    pub fn update_page(&mut self, vaddr: u64, flags: MmuFlags) -> (ok: bool)
        ensures
            final(self).log() == old(self).log().push(Access::UpdatePage { vaddr, flags, ok }),
            final(self).hints() == old(self).hints(),
    {
        self.hw.update_page(vaddr, flags)
    }

    pub fn map_page(&mut self, vaddr: u64, size: u64, paddr: u64, flags: MmuFlags) -> (ok: bool)
        ensures
            final(self).log() == old(self).log().push(
                Access::MapPage { vaddr, size, paddr, flags, ok },
            ),
            final(self).hints() == old(self).hints(),
    {
        self.hw.map_page(vaddr, size, paddr, flags)
    }

    pub fn flush_tlb(&mut self)
        ensures
            final(self).log() == old(self).log().push(Access::FlushTlb),
            final(self).hints() == old(self).hints(),
    {
        self.hw.flush_tlb();
    }

    pub fn timer_control(&mut self) -> (val: u64)
        ensures
            final(self).log() == old(self).log().push(Access::TimerControl { val }),
            final(self).hints() == old(self).hints(),
    {
        self.hw.timer_control()
    }

    pub fn gic_irq(&mut self, cpu: u64, dist: u64) -> (irq: u64)
        ensures
            final(self).log() == old(self).log().push(Access::GicIrq { cpu, dist, irq }),
            final(self).hints() == old(self).hints(),
    {
        self.hw.gic_irq(cpu, dist)
    }
}

/// `new` is `old` with accesses added at its end.
pub open spec fn extends(old: Seq<Access>, new: Seq<Access>) -> bool {
    old.len() <= new.len() && new.take(old.len() as int) == old
}

/// The accesses that `new` has beyond `old`.
pub open spec fn since(old: Seq<Access>, new: Seq<Access>) -> Seq<Access> {
    new.skip(old.len() as int)
}

/// The busy-wait hints of a poll of `n` accesses that starts after `start` others:
/// one between any two accesses of the poll.
pub open spec fn hints_between(start: nat, n: nat) -> Seq<nat> {
    Seq::new((n - 1) as nat, |i: int| (start + 1 + i) as nat)
}

/// The address `offset` bytes above `base`. Address arithmetic is modulo the
/// width of an address, as in the machine.
pub open spec fn at(base: u64, offset: u64) -> u64 {
    if base + offset > u64::MAX {
        (base + offset - 0x1_0000_0000_0000_0000) as u64
    } else {
        (base + offset) as u64
    }
}

/// A status value on which a poll goes on: whether its bits under `mask` are
/// exactly `want` is what `while_equal` says.
pub open spec fn still_waiting(val: u32, mask: u32, want: u32, while_equal: bool) -> bool {
    (val & mask == want) == while_equal
}

/// `trace` is nothing but loads of the status register at `addr`, and each of
/// them asked for another one.
pub open spec fn polls(
    trace: Seq<Access>,
    addr: u64,
    mask: u32,
    want: u32,
    while_equal: bool,
) -> bool {
    forall|i: int|
        0 <= i < trace.len() ==> (#[trigger] trace[i] matches Access::Read32 { addr: a, val }
            && a == addr && still_waiting(val, mask, want, while_equal))
}

/// `access` is a load of the status register at `addr` that ended a poll.
pub open spec fn poll_ends(
    access: Access,
    addr: u64,
    mask: u32,
    want: u32,
    while_equal: bool,
) -> bool {
    access matches Access::Read32 { addr: a, val } && a == addr && !still_waiting(
        val,
        mask,
        want,
        while_equal,
    )
}

/// The trace of a status poll that gives up after more than `limit` repetitions:
/// `ok` says whether the awaited status was seen.
pub open spec fn poll_trace(
    trace: Seq<Access>,
    addr: u64,
    mask: u32,
    want: u32,
    while_equal: bool,
    limit: nat,
    ok: bool,
) -> bool {
    if ok {
        &&& 1 <= trace.len() <= limit + 1
        &&& polls(trace.drop_last(), addr, mask, want, while_equal)
        &&& poll_ends(trace.last(), addr, mask, want, while_equal)
    } else {
        &&& trace.len() == limit + 1
        &&& polls(trace, addr, mask, want, while_equal)
    }
}

/// The one-byte loads that find `bytes` at `base`, in order.
pub open spec fn loads(base: u64, bytes: Seq<u8>) -> Seq<Access> {
    Seq::new(
        bytes.len(),
        |i: int| Access::Read8 { addr: at(base, i as u64), val: bytes[i] },
    )
}

/// The one-byte stores that put `bytes` at `base`, in order.
pub open spec fn stores(base: u64, bytes: Seq<u8>) -> Seq<Access> {
    Seq::new(
        bytes.len(),
        |i: int| Access::Write8 { addr: at(base, i as u64), val: bytes[i] },
    )
}

/// Accesses recorded one after the other add up.
pub proof fn lemma_since_chain(a: Seq<Access>, b: Seq<Access>, c: Seq<Access>)
    requires
        extends(a, b),
        extends(b, c),
    ensures
        extends(a, c),
        since(a, c) == since(a, b) + since(b, c),
        since(a, c).take(since(a, b).len() as int) == since(a, b),
        since(a, c).skip(since(a, b).len() as int) == since(b, c),
{
    assert(c.take(a.len() as int) =~= b.take(a.len() as int)) by {
        assert(c.take(b.len() as int) == b);
        assert forall|i: int| 0 <= i < a.len() implies c[i] == b[i] by {
            assert(c.take(b.len() as int)[i] == c[i]);
        }
    }
    assert(since(a, c) =~= since(a, b) + since(b, c)) by {
        assert forall|i: int| 0 <= i < b.len() implies c[i] == b[i] by {
            assert(c.take(b.len() as int)[i] == c[i]);
        }
    }
    assert(since(a, c).take(since(a, b).len() as int) =~= since(a, b));
    assert(since(a, c).skip(since(a, b).len() as int) =~= since(b, c));
}

/// One more access at the end of a record.
pub proof fn lemma_since_push(a: Seq<Access>, b: Seq<Access>, x: Access)
    requires
        extends(a, b),
    ensures
        extends(a, b.push(x)),
        since(a, b.push(x)) == since(a, b).push(x),
{
    assert(b.push(x).take(a.len() as int) =~= b.take(a.len() as int));
    assert(since(a, b.push(x)) =~= since(a, b).push(x));
}

/// A single access.
pub proof fn lemma_since_one(a: Seq<Access>, x: Access)
    ensures
        extends(a, a.push(x)),
        since(a, a.push(x)) == seq![x],
{
    assert(a.push(x).take(a.len() as int) =~= a);
    assert(since(a, a.push(x)) =~= seq![x]);
}

/// Several accesses at once.
pub proof fn lemma_since_add(a: Seq<Access>, more: Seq<Access>)
    ensures
        extends(a, a + more),
        since(a, a + more) == more,
{
    assert((a + more).take(a.len() as int) =~= a);
    assert(since(a, a + more) =~= more);
}

/// A record extends itself by nothing.
pub proof fn lemma_since_self(a: Seq<Access>)
    ensures
        extends(a, a),
        since(a, a) == Seq::<Access>::empty(),
{
    assert(a.take(a.len() as int) =~= a);
    assert(since(a, a) =~= Seq::<Access>::empty());
}

/// Computes [`at`].
pub fn address(base: u64, offset: u64) -> (addr: u64)
    ensures
        addr == at(base, offset),
{
    base.wrapping_add(offset)
}

/// Loads `n` bytes, one by one.
pub fn load_bytes<H: Hardware>(bus: &mut Bus<H>, base: u64, n: usize) -> (bytes: Vec<u8>)
    ensures
        bytes@.len() == n,
        final(bus).log() == old(bus).log() + loads(base, bytes@),
{
    let ghost start = bus.log();
    let mut bytes: Vec<u8> = Vec::new();
    assert(bus.log() =~= start + loads(base, bytes@));
    let mut i: usize = 0;
    while i < n
        invariant
            i <= n,
            bytes@.len() == i,
            bus.log() == start + loads(base, bytes@),
        decreases n - i,
    {
        let val: u8 = bus.read8(address(base, i as u64));
        bytes.push(val);
        assert(bus.log() =~= start + loads(base, bytes@));
        i += 1;
    }
    bytes
}

/// Stores the first `n` bytes of `bytes`, one by one.
pub fn store_bytes<H: Hardware>(bus: &mut Bus<H>, base: u64, bytes: &[u8], n: usize)
    requires
        n <= bytes@.len(),
    ensures
        final(bus).log() == old(bus).log() + stores(base, bytes@.take(n as int)),
{
    let ghost start = bus.log();
    assert(bus.log() =~= start + stores(base, bytes@.take(0)));
    let mut i: usize = 0;
    while i < n
        invariant
            i <= n <= bytes@.len(),
            bus.log() == start + stores(base, bytes@.take(i as int)),
        decreases n - i,
    {
        bus.write8(address(base, i as u64), bytes[i]);
        assert(bus.log() =~= start + stores(base, bytes@.take(i + 1)));
        i += 1;
    }
}

/// Reads the status register at `addr` until its bits under `mask` stop being
/// (`while_equal`) or start being (otherwise) `want`. Gives up when the status
/// has asked for more than `limit` repetitions.
pub fn poll_status<H: Hardware>(
    bus: &mut Bus<H>,
    addr: u64,
    mask: u32,
    want: u32,
    while_equal: bool,
    limit: u64,
) -> (ok: bool)
    requires
        limit < u64::MAX,
    ensures
        extends(old(bus).log(), final(bus).log()),
        poll_trace(
            since(old(bus).log(), final(bus).log()),
            addr,
            mask,
            want,
            while_equal,
            limit as nat,
            ok,
        ),
        final(bus).hints() == old(bus).hints() + hints_between(
            old(bus).log().len(),
            since(old(bus).log(), final(bus).log()).len(),
        ),
{
    let ghost start = bus.log();
    let ghost hinted = bus.hints();
    proof {
        lemma_since_self(start);
        assert(bus.hints() =~= hinted + hints_between(start.len(), 1));
    }
    let mut spins: u64 = 0;
    loop
        invariant
            start == old(bus).log(),
            hinted == old(bus).hints(),
            bus.hints() == hinted + hints_between(start.len(), (spins + 1) as nat),
            extends(start, bus.log()),
            spins <= limit < u64::MAX,
            since(start, bus.log()).len() == spins,
            polls(since(start, bus.log()), addr, mask, want, while_equal),
        decreases limit - spins,
    {
        let ghost before = bus.log();
        let val: u32 = bus.read32(addr);
        proof {
            lemma_since_push(start, before, Access::Read32 { addr, val });
            assert(since(start, bus.log()).drop_last() =~= since(start, before));
        }
        if (val & mask == want) != while_equal {
            return true;
        }
        spins += 1;
        if spins > limit {
            return false;
        }
        bus.spin_loop();
        assert(bus.hints() =~= hinted + hints_between(start.len(), (spins + 1) as nat));
    }
}

} // verus!
