//! A submission and completion queue pair of the Apple ANS controller.
//!
//! The controller takes commands from a linear submission ring, reaches their
//! data through task control blocks (TCBs), and posts completions into a ring
//! whose entries carry an alternating phase bit. One command is in flight at a
//! time, always under tag 0.

use vstd::prelude::*;

use crate::bus::PageSize;
use crate::error::{DeviceError, DeviceResult};
use crate::hw::{address, at, extends, since, Access, Bus, Hardware};
use crate::nvme::command::{AppleNvmmuTcb, NvmeCommand, NvmeCompletion};
use crate::soc::apple_rtkit::AppleRtKit;
use crate::soc::hvcall::{hv_read, hv_write, is_hv_write, HVCALL_NVME_READ};

verus! {

pub const APPLE_ANS_ACQ_DB: u64 = 0x1004;
pub const APPLE_ANS_IOCQ_DB: u64 = 0x100c;
pub const APPLE_ANS_LINEAR_ASQ_DB: u64 = 0x2490c;
pub const APPLE_ANS_LINEAR_IOSQ_DB: u64 = 0x24910;
pub const APPLE_NVMMU_TCB_INVAL: u64 = 0x28118;
pub const APPLE_NVMMU_TCB_STAT: u64 = 0x28120;

pub const NVME_CMD_WRITE: u8 = 0x01;

pub const NVMMU_TCB_DMA_FROM_DEVICE: u8 = 1;
pub const NVMMU_TCB_DMA_TO_DEVICE: u8 = 2;

/// Depth of the I/O queue.
pub const ANS_QUEUE_DEPTH: u64 = 64;

/// Depth of the admin queue, which the firmware fixes.
pub const ADMIN_QUEUE_DEPTH: u64 = 2;

/// Size of a completion entry.
pub const CQE_SIZE: u64 = 16;

/// Looks at the completion ring allowed while a command is in flight.
pub const TIMEOUT_SPINS: u64 = 50_000_000;

/// A queue pair, by the virtual and physical addresses of its three rings, and
/// the position and phase at which the next completion is expected.
pub struct AppleAnsQueue {
    /// The size of page frames: each ring has one.
    pub page: PageSize,
    pub tcbs_va: u64,
    pub tcbs_pa: u64,
    pub cmds_va: u64,
    pub cmds_pa: u64,
    pub cqes_va: u64,
    pub cqes_pa: u64,
    pub cq_head: u8,
    pub cq_phase: u8,
    pub is_admin: bool,
}

/// The direction in which a command moves data, as a TCB states it.
pub open spec fn spec_dma_flags(cmd: NvmeCommand) -> u8 {
    if cmd.prp1 == 0 {
        0
    } else if cmd.opcode == NVME_CMD_WRITE {
        NVMMU_TCB_DMA_TO_DEVICE
    } else {
        NVMMU_TCB_DMA_FROM_DEVICE
    }
}

#[verifier::when_used_as_spec(spec_dma_flags)]
pub fn dma_flags(cmd: NvmeCommand) -> (flags: u8)
    ensures
        flags == spec_dma_flags(cmd),
{
    if cmd.prp1 == 0 {
        0
    } else if cmd.opcode == NVME_CMD_WRITE {
        NVMMU_TCB_DMA_TO_DEVICE
    } else {
        NVMMU_TCB_DMA_FROM_DEVICE
    }
}

/// The phase bit of a completion entry.
pub open spec fn phase_of(cqe: NvmeCompletion) -> u8 {
    (cqe.status % 2) as u8
}

/// What a completed command returns: its result, unless the entry carries a
/// status code.
pub open spec fn outcome(cqe: NvmeCompletion) -> DeviceResult<u64> {
    if cqe.status / 2 == 0 {
        Ok(cqe.result)
    } else {
        Err(DeviceError::IoError)
    }
}

/// One look at the completion ring: pending coprocessor messages are served
/// first.
pub struct Look {
    pub before: AppleRtKit,
    pub after: AppleRtKit,
    pub drained: Seq<Access>,
    pub cqe: NvmeCompletion,
}

impl Look {
    pub open spec fn trace(self, entry: u64) -> Seq<Access> {
        self.drained + seq![
            Access::Fence,
            Access::LoadCompletion { addr: entry, cqe: self.cqe },
        ]
    }

    /// The coprocessor is still usable; `done` says whether the entry carries the
    /// awaited phase.
    pub open spec fn taken(self, phase: u8, done: bool) -> bool {
        &&& self.before.drains(self.after, self.drained, true)
        &&& done == (phase_of(self.cqe) == phase)
    }
}

/// `trace` is made up of looks at the completion entry at `entry`, none of which
/// found the awaited phase.
pub open spec fn awaited(
    first: AppleRtKit,
    looks: Seq<Look>,
    last: AppleRtKit,
    entry: u64,
    phase: u8,
    trace: Seq<Access>,
) -> bool
    decreases looks.len(),
{
    if looks.len() == 0 {
        last == first && trace.len() == 0
    } else {
        let look = looks.last();
        let n = trace.len() - look.trace(entry).len();
        &&& look.taken(phase, false)
        &&& look.after == last
        &&& n >= 0
        &&& trace.skip(n) == look.trace(entry)
        &&& awaited(first, looks.drop_last(), look.before, entry, phase, trace.take(n))
    }
}

/// The parts of the execution of a command.
pub struct ExecRun {
    /// The command is stored and announced.
    pub issue: Seq<Access>,
    /// Looks at the completion ring that came too early.
    pub looks: Seq<Look>,
    pub waiting: Seq<Access>,
    /// The coprocessor after those looks.
    pub mid: AppleRtKit,
    /// What ended the wait.
    pub end: Seq<Access>,
}

impl ExecRun {
    pub open spec fn trace(self) -> Seq<Access> {
        self.issue + self.waiting + self.end
    }
}

impl AppleAnsQueue {
    pub open spec fn spec_depth(self) -> u64 {
        if self.is_admin {
            ADMIN_QUEUE_DEPTH
        } else {
            ANS_QUEUE_DEPTH
        }
    }

    /// The ring position is within the ring and the phase is a bit.
    pub open spec fn wf(self) -> bool {
        self.cq_head < self.spec_depth() && self.cq_phase <= 1
    }

    /// Nothing has gone through the queue yet.
    pub open spec fn is_new(self, is_admin: bool, page: PageSize) -> bool {
        self.is_admin == is_admin && self.page == page && self.cq_head == 0 && self.cq_phase == 1
    }

    /// The queue after one more completion has been taken: the ring position
    /// advances, and the phase flips when it starts over.
    pub open spec fn advanced(self) -> Self {
        if self.cq_head + 1 == self.spec_depth() {
            AppleAnsQueue { cq_head: 0, cq_phase: (1 - self.cq_phase) as u8, ..self }
        } else {
            AppleAnsQueue { cq_head: (self.cq_head + 1) as u8, ..self }
        }
    }

    /// The address of the completion entry that is expected next.
    pub open spec fn entry(self) -> u64 {
        at(self.cqes_va, (self.cq_head * CQE_SIZE) as u64)
    }

    pub open spec fn submit_doorbell(self) -> u64 {
        if self.is_admin {
            APPLE_ANS_LINEAR_ASQ_DB
        } else {
            APPLE_ANS_LINEAR_IOSQ_DB
        }
    }

    pub open spec fn complete_doorbell(self) -> u64 {
        if self.is_admin {
            APPLE_ANS_ACQ_DB
        } else {
            APPLE_ANS_IOCQ_DB
        }
    }

    /// `trace` stores `cmd` under tag 0 with a TCB that describes it, and then
    /// rings the submission doorbell.
    pub open spec fn issues(self, phys_base: u64, cmd: NvmeCommand, trace: Seq<Access>) -> bool {
        &&& trace.len() == 4
        &&& trace[0] == Access::StoreCommand {
            addr: self.cmds_va,
            cmd: NvmeCommand { tag: 0, ..cmd },
        }
        &&& trace[1] matches Access::StoreTcb { addr, tcb } && addr == self.tcbs_va
            && tcb.describes(dma_flags(cmd), 0, cmd.cdw12, cmd.prp1, cmd.prp2)
        &&& trace[2] == Access::Fence
        &&& is_hv_write(trace[3], at(phys_base, self.submit_doorbell()), 4, 0)
    }

    /// `trace` finds the completion `cqe` and acknowledges it: the TCB of its tag
    /// is invalidated, and the completion doorbell gets the new position.
    pub open spec fn completes(
        self,
        after: Self,
        look: Look,
        phys_base: u64,
        trace: Seq<Access>,
    ) -> bool {
        let n = look.trace(self.entry()).len() as int;
        &&& look.taken(self.cq_phase, true)
        &&& after == self.advanced()
        &&& trace.len() == n + 3
        &&& trace.take(n) == look.trace(self.entry())
        &&& is_hv_write(trace[n], at(phys_base, APPLE_NVMMU_TCB_INVAL), 4, look.cqe.tag as u64)
        &&& trace[n + 1] matches Access::Hvcall { id, a1, a2, a3, ret } && id == HVCALL_NVME_READ
            && a1 == at(phys_base, APPLE_NVMMU_TCB_STAT) && a2 == 4 && a3 == 0
        &&& is_hv_write(
            trace[n + 2],
            at(phys_base, self.complete_doorbell()),
            4,
            after.cq_head as u64,
        )
    }

    /// How the wait for a completion ends after `count` looks in vain.
    pub open spec fn exec_ends(
        self,
        after: Self,
        mid: AppleRtKit,
        rtkit_after: AppleRtKit,
        phys_base: u64,
        count: nat,
        trace: Seq<Access>,
        res: DeviceResult<u64>,
    ) -> bool {
        // Too many looks in vain.
        ||| {
            &&& count == TIMEOUT_SPINS + 1
            &&& res == Err::<u64, DeviceError>(DeviceError::NotReady)
            &&& trace.len() == 0
            &&& after == self
            &&& rtkit_after == mid
        }
        // The coprocessor became unusable.
        ||| {
            &&& count <= TIMEOUT_SPINS
            &&& res == Err::<u64, DeviceError>(DeviceError::IoError)
            &&& after == self
            &&& mid.drains(rtkit_after, trace, false)
        }
        // The command completed.
        ||| {
            &&& count <= TIMEOUT_SPINS
            &&& exists|look: Look|
                {
                    &&& look.before == mid
                    &&& look.after == rtkit_after
                    &&& res == outcome(look.cqe)
                    &&& #[trigger] self.completes(after, look, phys_base, trace)
                }
        }
    }

    /// The parts of `run` follow one another as executing `cmd` asks.
    pub open spec fn run_follows(
        self,
        after: Self,
        rtkit: AppleRtKit,
        rtkit_after: AppleRtKit,
        phys_base: u64,
        cmd: NvmeCommand,
        run: ExecRun,
        res: DeviceResult<u64>,
    ) -> bool {
        &&& self.issues(phys_base, cmd, run.issue)
        &&& awaited(rtkit, run.looks, run.mid, self.entry(), self.cq_phase, run.waiting)
        &&& self.exec_ends(
            after,
            run.mid,
            rtkit_after,
            phys_base,
            run.looks.len(),
            run.end,
            res,
        )
    }

    /// What executing a command leads to.
    pub open spec fn executes(
        self,
        after: Self,
        rtkit: AppleRtKit,
        rtkit_after: AppleRtKit,
        phys_base: u64,
        cmd: NvmeCommand,
        trace: Seq<Access>,
        res: DeviceResult<u64>,
    ) -> bool {
        exists|run: ExecRun|
            trace == run.trace() && #[trigger] self.run_follows(
                after,
                rtkit,
                rtkit_after,
                phys_base,
                cmd,
                run,
                res,
            )
    }

    /// Allocates and clears the rings of a queue pair.
    pub fn new<H: Hardware>(bus: &mut Bus<H>, is_admin: bool, page: PageSize) -> (queue: Self)
        ensures
            queue.wf(),
            queue.is_new(is_admin, page),
            extends(old(bus).log(), final(bus).log()),
            since(old(bus).log(), final(bus).log()) == queue.allocated(),
    {
        let ghost start = bus.log();
        let size: u64 = page.bytes();
        let (tcbs_va, tcbs_pa): (u64, u64) = bus.alloc_dma(size);
        let (cmds_va, cmds_pa): (u64, u64) = bus.alloc_dma(size);
        let (cqes_va, cqes_pa): (u64, u64) = bus.alloc_dma(size);
        bus.zero(tcbs_va, size);
        bus.zero(cmds_va, size);
        bus.zero(cqes_va, size);
        let queue: AppleAnsQueue = AppleAnsQueue {
            page,
            tcbs_va,
            tcbs_pa,
            cmds_va,
            cmds_pa,
            cqes_va,
            cqes_pa,
            cq_head: 0,
            cq_phase: 1,
            is_admin,
        };
        assert(bus.log().take(start.len() as int) =~= start);
        assert(since(start, bus.log()) =~= queue.allocated());
        queue
    }

    /// The accesses that allocate and clear the rings.
    pub open spec fn allocated(self) -> Seq<Access> {
        seq![
            Access::AllocDma { size: self.page.bytes(), va: self.tcbs_va, pa: self.tcbs_pa },
            Access::AllocDma { size: self.page.bytes(), va: self.cmds_va, pa: self.cmds_pa },
            Access::AllocDma { size: self.page.bytes(), va: self.cqes_va, pa: self.cqes_pa },
            Access::Zero { va: self.tcbs_va, size: self.page.bytes() },
            Access::Zero { va: self.cmds_va, size: self.page.bytes() },
            Access::Zero { va: self.cqes_va, size: self.page.bytes() },
        ]
    }

    /// The accesses that release the rings.
    pub open spec fn released(self) -> Seq<Access> {
        seq![
            Access::DeallocDma { va: self.tcbs_va, size: self.page.bytes() },
            Access::DeallocDma { va: self.cmds_va, size: self.page.bytes() },
            Access::DeallocDma { va: self.cqes_va, size: self.page.bytes() },
        ]
    }

    /// Releases the rings. The queue is not used after that.
    pub fn release<H: Hardware>(&self, bus: &mut Bus<H>)
        ensures
            final(bus).log() == old(bus).log() + self.released(),
    {
        let ghost start = bus.log();
        bus.dealloc_dma(self.tcbs_va, self.page.bytes());
        bus.dealloc_dma(self.cmds_va, self.page.bytes());
        bus.dealloc_dma(self.cqes_va, self.page.bytes());
        assert(bus.log() =~= start + self.released());
    }

    /// Stores a command and its TCB, and rings the submission doorbell.
    fn issue<H: Hardware>(&self, bus: &mut Bus<H>, phys_base: u64, cmd: NvmeCommand)
        ensures
            extends(old(bus).log(), final(bus).log()),
            self.issues(phys_base, cmd, since(old(bus).log(), final(bus).log())),
    {
        let ghost start = bus.log();
        let tag: u8 = 0;
        let mut queue_cmd: NvmeCommand = cmd;
        queue_cmd.tag = tag;
        let mut tcb: AppleNvmmuTcb = AppleNvmmuTcb::default();
        tcb.dma_flags = dma_flags(queue_cmd);
        tcb.slot_id = tag;
        tcb.length = queue_cmd.cdw12;
        tcb.prp1 = queue_cmd.prp1;
        tcb.prp2 = queue_cmd.prp2;
        bus.store_command(self.cmds_va, queue_cmd);
        bus.store_tcb(self.tcbs_va, tcb);
        bus.fence();
        let doorbell: u64 = if self.is_admin {
            APPLE_ANS_LINEAR_ASQ_DB
        } else {
            APPLE_ANS_LINEAR_IOSQ_DB
        };
        hv_write(bus, address(phys_base, doorbell), 4, tag as u64);
        assert(bus.log().take(start.len() as int) =~= start);
        let ghost trace = since(start, bus.log());
        assert(trace[1] == Access::StoreTcb { addr: self.tcbs_va, tcb });
    }

    /// Acknowledges the completion at the ring's current position.
    fn acknowledge<H: Hardware>(&mut self, bus: &mut Bus<H>, phys_base: u64, tag: u16)
        requires
            old(self).wf(),
        ensures
            final(self).wf(),
            *final(self) == old(self).advanced(),
            final(bus).log().len() == old(bus).log().len() + 3,
            extends(old(bus).log(), final(bus).log()),
            ({
                let trace = since(old(bus).log(), final(bus).log());
                &&& is_hv_write(trace[0], at(phys_base, APPLE_NVMMU_TCB_INVAL), 4, tag as u64)
                &&& trace[1] matches Access::Hvcall { id, a1, a2, a3, ret } && id
                    == HVCALL_NVME_READ && a1 == at(phys_base, APPLE_NVMMU_TCB_STAT) && a2 == 4
                    && a3 == 0
                &&& is_hv_write(
                    trace[2],
                    at(phys_base, old(self).complete_doorbell()),
                    4,
                    final(self).cq_head as u64,
                )
            }),
    {
        let ghost start = bus.log();
        hv_write(bus, address(phys_base, APPLE_NVMMU_TCB_INVAL), 4, tag as u64);
        let _stat: u64 = hv_read(bus, address(phys_base, APPLE_NVMMU_TCB_STAT), 4);
        self.cq_head = if self.is_admin {
            ((self.cq_head as u64 + 1) % ADMIN_QUEUE_DEPTH) as u8
        } else {
            ((self.cq_head as u64 + 1) % ANS_QUEUE_DEPTH) as u8
        };
        if self.cq_head == 0 {
            self.cq_phase = 1 - self.cq_phase;
        }
        let doorbell: u64 = if self.is_admin {
            APPLE_ANS_ACQ_DB
        } else {
            APPLE_ANS_IOCQ_DB
        };
        hv_write(bus, address(phys_base, doorbell), 4, self.cq_head as u64);
        assert(bus.log().take(start.len() as int) =~= start);
    }

    /// Executes a command and waits for its completion. Coprocessor messages that
    /// arrive in the meantime are served.
    pub fn exec_command<H: Hardware>(
        &mut self,
        bus: &mut Bus<H>,
        phys_nvme_base: u64,
        cmd: &NvmeCommand,
        rtkit: &mut AppleRtKit,
    ) -> (res: DeviceResult<u64>)
        requires
            old(self).wf(),
            old(rtkit).wf(),
        ensures
            final(self).wf(),
            final(rtkit).wf(),
            extends(old(bus).log(), final(bus).log()),
            old(self).executes(
                *final(self),
                *old(rtkit),
                *final(rtkit),
                phys_nvme_base,
                *cmd,
                since(old(bus).log(), final(bus).log()),
                res,
            ),
    {
        let ghost start = bus.log();
        let ghost queue = *self;
        let ghost first = *rtkit;
        self.issue(bus, phys_nvme_base, *cmd);
        let ghost issued = bus.log();
        let ghost mut looks: Seq<Look> = Seq::empty();
        proof {
            crate::hw::lemma_since_self(issued);
        }
        let mut spins: u64 = 0;
        loop
            invariant
                start == old(bus).log(),
                queue == *old(self),
                first == *old(rtkit),
                *self == queue,
                queue.wf(),
                rtkit.wf(),
                extends(start, issued),
                queue.issues(phys_nvme_base, *cmd, since(start, issued)),
                extends(issued, bus.log()),
                spins <= TIMEOUT_SPINS,
                looks.len() == spins,
                awaited(
                    first,
                    looks,
                    *rtkit,
                    queue.entry(),
                    queue.cq_phase,
                    since(issued, bus.log()),
                ),
            decreases TIMEOUT_SPINS - spins,
        {
            let ghost before = bus.log();
            let ghost mid = *rtkit;
            let alive: bool = rtkit.poll(bus);
            let ghost drained = bus.log();
            if !alive {
                proof {
                    crate::hw::lemma_since_chain(start, issued, before);
                    crate::hw::lemma_since_chain(start, before, drained);
                    let run = ExecRun {
                        issue: since(start, issued),
                        looks,
                        waiting: since(issued, before),
                        mid,
                        end: since(before, drained),
                    };
                    assert(run.trace() =~= since(start, drained));
                    assert(queue.run_follows(
                        *self,
                        first,
                        *rtkit,
                        phys_nvme_base,
                        *cmd,
                        run,
                        Err(DeviceError::IoError),
                    ));
                }
                return Err(DeviceError::IoError);
            }
            bus.fence();
            let cqe: NvmeCompletion = bus.load_completion(
                address(self.cqes_va, self.cq_head as u64 * CQE_SIZE),
            );
            let ghost loaded = bus.log();
            let ghost look = Look { before: mid, after: *rtkit, drained: since(before, drained), cqe };
            proof {
                assert(drained.take(before.len() as int) == before);
                assert(loaded.take(before.len() as int) =~= before);
                assert(since(before, loaded) =~= look.trace(queue.entry()));
            }
            if (cqe.status % 2) as u8 == self.cq_phase {
                self.acknowledge(bus, phys_nvme_base, cqe.tag);
                let res: DeviceResult<u64> = if cqe.status / 2 == 0 {
                    Ok(cqe.result)
                } else {
                    Err(DeviceError::IoError)
                };
                proof {
                    crate::hw::lemma_since_chain(before, loaded, bus.log());
                    crate::hw::lemma_since_chain(start, issued, before);
                    crate::hw::lemma_since_chain(start, before, bus.log());
                    let run = ExecRun {
                        issue: since(start, issued),
                        looks,
                        waiting: since(issued, before),
                        mid,
                        end: since(before, bus.log()),
                    };
                    assert(run.trace() =~= since(start, bus.log()));
                    assert(queue.completes(*self, look, phys_nvme_base, run.end));
                    assert(queue.run_follows(
                        *self,
                        first,
                        *rtkit,
                        phys_nvme_base,
                        *cmd,
                        run,
                        res,
                    ));
                }
                return res;
            }
            proof {
                crate::hw::lemma_since_chain(issued, before, loaded);
                let more = looks.push(look);
                assert(more.drop_last() =~= looks);
                assert(awaited(
                    first,
                    more,
                    *rtkit,
                    queue.entry(),
                    queue.cq_phase,
                    since(issued, loaded),
                ));
                looks = more;
            }
            spins += 1;
            if spins > TIMEOUT_SPINS {
                proof {
                    crate::hw::lemma_since_chain(start, issued, loaded);
                    let run = ExecRun {
                        issue: since(start, issued),
                        looks,
                        waiting: since(issued, loaded),
                        mid: *rtkit,
                        end: Seq::empty(),
                    };
                    assert(run.trace() =~= since(start, loaded));
                    assert(queue.run_follows(
                        *self,
                        first,
                        *rtkit,
                        phys_nvme_base,
                        *cmd,
                        run,
                        Err(DeviceError::NotReady),
                    ));
                }
                return Err(DeviceError::NotReady);
            }
            bus.spin_loop();
        }
    }
}

/// The queue after `n` more completions have been taken.
pub open spec fn after_completions(queue: AppleAnsQueue, n: nat) -> AppleAnsQueue
    decreases n,
{
    if n == 0 {
        queue
    } else {
        after_completions(queue, (n - 1) as nat).advanced()
    }
}

proof fn lemma_within_lap(queue: AppleAnsQueue, n: nat)
    requires
        queue.wf(),
        queue.cq_head + n < queue.spec_depth(),
    ensures
        after_completions(queue, n) == (AppleAnsQueue {
            cq_head: (queue.cq_head + n) as u8,
            ..queue
        }),
    decreases n,
{
    if n > 0 {
        lemma_within_lap(queue, (n - 1) as nat);
    }
}

proof fn lemma_completions_add(queue: AppleAnsQueue, a: nat, b: nat)
    ensures
        after_completions(queue, a + b) == after_completions(after_completions(queue, a), b),
    decreases b,
{
    if b > 0 {
        lemma_completions_add(queue, a, (b - 1) as nat);
    }
}

/// Once round the ring the queue is where it was, and expects the other phase: an
/// entry that is left over from the last time round is never taken for a new one.
pub proof fn law_ring_comes_round(queue: AppleAnsQueue)
    requires
        queue.wf(),
    ensures
        after_completions(queue, queue.spec_depth() as nat) == (AppleAnsQueue {
            cq_phase: (1 - queue.cq_phase) as u8,
            ..queue
        }),
{
    let h = queue.cq_head as nat;
    let rest = (queue.spec_depth() - h - 1) as nat;
    lemma_within_lap(queue, rest);
    let start = after_completions(queue, rest + 1);
    assert(start == after_completions(queue, rest).advanced());
    assert(start.cq_head == 0 && start.cq_phase == 1 - queue.cq_phase);
    lemma_within_lap(start, h);
    lemma_completions_add(queue, rest + 1, h);
}

/// Twice round the ring everything is as it was.
pub proof fn law_ring_comes_round_twice(queue: AppleAnsQueue)
    requires
        queue.wf(),
    ensures
        after_completions(queue, (2 * queue.spec_depth()) as nat) == queue,
{
    let depth = queue.spec_depth() as nat;
    law_ring_comes_round(queue);
    law_ring_comes_round(after_completions(queue, depth));
    lemma_completions_add(queue, depth, depth);
}

} // verus!
