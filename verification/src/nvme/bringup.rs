//! What executing a command and bringing a controller up come to, as the accesses tell.

use vstd::arithmetic::power2::pow2;
use vstd::prelude::*;

use crate::bytes::le_value;
use crate::error::{DeviceError, DeviceResult};
use crate::hw::{at, loads, Access};
use crate::nvme::apple_ans::{
    allows_page, brings_up, create_cq_command, create_sq_command, disables, flush_command, format_load,
    identify_command, lba_size, pages_allowed, programs, sector_count, setup_list, AnsWindows, AppleAnsNvme, BringUpRun, DisableRun, IdentifyRun, InitRun,
};
use crate::nvme::command::NvmeCommand;
use crate::nvme::queue::{outcome, AppleAnsQueue, ExecRun, Look};
use crate::soc::apple_rtkit::AppleRtKit;

verus! {

/// `access` is a store of `val` through the hypervisor, `width` bytes wide.
pub open spec fn stores_value(access: Access, addr: int, width: int, val: int) -> bool {
    access matches Access::Hvcall { id, a1, a2, a3, ret } && id == 0x4e56_0002 && a1 == addr && a2
        == width && a3 == val
}

/// A command is handed over as it is, but for its tag. The block that goes with it
/// grants what the command asks for and no more: the same memory, in the direction in
/// which the command moves it. Both are there before the doorbell of the queue rings.
pub proof fn law_command_is_handed_over(
    queue: AppleAnsQueue,
    after: AppleAnsQueue,
    rtkit: AppleRtKit,
    rtkit_after: AppleRtKit,
    phys_base: u64,
    cmd: NvmeCommand,
    trace: Seq<Access>,
    res: DeviceResult<u64>,
)
    requires
        queue.executes(after, rtkit, rtkit_after, phys_base, cmd, trace, res),
        phys_base + 0x3_0000 <= u64::MAX,
    ensures
        trace.len() >= 4,
        trace[0] matches Access::StoreCommand { addr, cmd: stored } && {
            &&& addr == queue.cmds_va
            &&& stored.opcode == cmd.opcode && stored.nsid == cmd.nsid
            &&& stored.prp1 == cmd.prp1 && stored.prp2 == cmd.prp2
            &&& stored.cdw10 == cmd.cdw10 && stored.cdw11 == cmd.cdw11 && stored.cdw12 == cmd.cdw12
            &&& stored.cdw13 == cmd.cdw13 && stored.cdw14 == cmd.cdw14 && stored.cdw15 == cmd.cdw15
            &&& stored.tag == 0
        },
        trace[1] matches Access::StoreTcb { addr, tcb } && {
            &&& addr == queue.tcbs_va
            &&& tcb.slot_id == 0
            &&& tcb.prp1 == cmd.prp1 && tcb.prp2 == cmd.prp2 && tcb.length == cmd.cdw12
            &&& cmd.prp1 == 0 ==> tcb.dma_flags == 0
            &&& cmd.prp1 != 0 && cmd.opcode == 1 ==> tcb.dma_flags == 2
            &&& cmd.prp1 != 0 && cmd.opcode != 1 ==> tcb.dma_flags == 1
        },
        trace[2] is Fence,
        stores_value(
            trace[3],
            phys_base + if queue.is_admin {
                0x2490cint
            } else {
                0x24910
            },
            4,
            0,
        ),
{
    let run = choose|run: ExecRun|
        trace == run.trace() && #[trigger] queue.run_follows(
            after,
            rtkit,
            rtkit_after,
            phys_base,
            cmd,
            run,
            res,
        );
    assert(trace[0] == run.issue[0]);
    assert(trace[1] == run.issue[1]);
    assert(trace[2] == run.issue[2]);
    assert(trace[3] == run.issue[3]);
}

/// What a command returns is what its completion says, and the completion is one of the
/// phase that the queue waits for, in the place that it waits at. The completion is
/// acknowledged, and the queue goes on to the next place, or to the first one and the
/// other phase.
pub proof fn law_completion_gives_the_result(
    queue: AppleAnsQueue,
    after: AppleAnsQueue,
    rtkit: AppleRtKit,
    rtkit_after: AppleRtKit,
    phys_base: u64,
    cmd: NvmeCommand,
    trace: Seq<Access>,
    val: u64,
)
    requires
        queue.executes(after, rtkit, rtkit_after, phys_base, cmd, trace, Ok(val)),
        queue.wf(),
        phys_base + 0x3_0000 <= u64::MAX,
        queue.cqes_va + 0x1000 <= u64::MAX,
    ensures
        ({
            let n = trace.len() as int;
            let depth = if queue.is_admin {
                2int
            } else {
                64
            };
            &&& n >= 9
            &&& trace[n - 4] matches Access::LoadCompletion { addr, cqe } && {
                &&& addr == queue.cqes_va + 16 * queue.cq_head
                &&& cqe.status % 2 == queue.cq_phase
                &&& cqe.status / 2 == 0
                &&& cqe.result == val
                &&& stores_value(trace[n - 3], phys_base + 0x28118, 4, cqe.tag as int)
            }
            &&& trace[n - 5] is Fence
            &&& after.cq_head == (queue.cq_head + 1) % depth
            &&& (after.cq_phase == queue.cq_phase) == (queue.cq_head + 1 < depth)
            &&& stores_value(
                trace[n - 1],
                phys_base + if queue.is_admin {
                    0x1004int
                } else {
                    0x100c
                },
                4,
                after.cq_head as int,
            )
        }),
{
    let res = Ok::<u64, DeviceError>(val);
    let run = choose|run: ExecRun|
        trace == run.trace() && #[trigger] queue.run_follows(
            after,
            rtkit,
            rtkit_after,
            phys_base,
            cmd,
            run,
            res,
        );
    let look = choose|look: Look|
        {
            &&& look.before == run.mid
            &&& look.after == rtkit_after
            &&& res == outcome(look.cqe)
            &&& #[trigger] queue.completes(after, look, phys_base, run.end)
        };
    let n = trace.len() as int;
    let m = run.end.len() as int;
    let entry = queue.entry();
    let seen = look.trace(entry);
    assert(seen[seen.len() - 1] == Access::LoadCompletion { addr: entry, cqe: look.cqe });
    assert(seen[seen.len() - 2] == Access::Fence);
    assert(run.end.take(m - 3)[m - 4] == run.end[m - 4]);
    assert(run.end.take(m - 3)[m - 5] == run.end[m - 5]);
    assert forall|k: int| 1 <= k <= m implies trace[n - k] == #[trigger] run.end[m - k] by {}
    assert(trace[n - 1] == run.end[m - 1]);
    assert(trace[n - 3] == run.end[m - 3]);
    assert(trace[n - 4] == run.end[m - 4]);
    assert(trace[n - 5] == run.end[m - 5]);
}

/// A flush is for the namespace, and moves no data.
pub proof fn law_flush_is_for_the_namespace()
    ensures
        flush_command().opcode == 0,
        flush_command().nsid == 1,
        flush_command().prp1 == 0,
{
}

/// The digits of the number of blocks, as the accesses from `n` on load them.
pub open spec fn digits_from(trace: Seq<Access>, n: int) -> Seq<u8> {
    Seq::new(8, |i: int| trace[n + i]->Read8_val)
}

/// The geometry that is taken over is that of the namespace: its description is asked
/// for, its format says which power of two a block is, and all of its blocks together
/// are as large as all sectors.
pub proof fn law_geometry_is_taken_over(
    before: AppleAnsNvme,
    after: AppleAnsNvme,
    nsid: u32,
    trace: Seq<Access>,
)
    requires
        before.identifies(after, nsid, trace, Ok(())),
        before.phys_nvme_base + 0x3_0000 <= u64::MAX,
    ensures
        ({
            let n = trace.len() - 11;
            let count = le_value(digits_from(trace, n));
            &&& n >= 9
            &&& trace[0] matches Access::AllocDma { size, va, pa } && {
                &&& trace[5] matches Access::StoreCommand { addr, cmd } && cmd.opcode == 6
                    && cmd.nsid == nsid && cmd.prp1 == pa && cmd.cdw10 == 0
                &&& va + 0x1000 <= u64::MAX ==> {
                    &&& forall|i: int|
                        0 <= i < 8 ==> (#[trigger] trace[n + i] matches Access::Read8 { addr, val }
                            && addr == va + i)
                    &&& trace[n + 8] matches Access::Read8 { addr, val: flbas } && addr == va + 26
                        && (trace[n + 9] matches Access::Read8 { addr, val: shift } && {
                        &&& addr == va + 128 + 4 * (flbas % 16) + 2
                        &&& 9 <= shift <= 16 ==> after.block_size == pow2(shift as nat)
                        &&& !(9 <= shift <= 16) ==> after.block_size == 4096
                    })
                }
            }
            &&& count * after.block_size <= 512 * u64::MAX ==> after.block_count * 512 == count
                * after.block_size
        }),
{
    let res = Ok::<(), DeviceError>(());
    let run = choose|run: IdentifyRun|
        trace == run.trace() && #[trigger] before.identify_follows(after, nsid, run, res);
    let n = trace.len() - 11;
    lemma_identify_parts(before, after, nsid, trace, run);
    let count = le_value(digits_from(trace, n));
    let size = after.block_size;
    lemma_lba_size(run.shift);
    let per = (size / 512) as int;
    assert(size == per * 512);
    assert(count * size == (count * per) * 512) by (nonlinear_arith)
        requires
            size == per * 512,
    ;
    if count * size <= 512 * u64::MAX {
        assert(count * per <= u64::MAX);
        assert(0 <= count * per) by (nonlinear_arith)
            requires
                0 <= count,
                0 <= per,
        ;
        vstd::arithmetic::div_mod::lemma_small_mod(
            (count * per) as nat,
            0x1_0000_0000_0000_0000,
        );
    }
}

proof fn lemma_lba_size(shift: u8)
    ensures
        9 <= shift <= 16 ==> lba_size(shift) == pow2(shift as nat),
        !(9 <= shift <= 16) ==> lba_size(shift) == 4096,
        lba_size(shift) % 512 == 0,
        lba_size(shift) >= 512,
{
    if 9 <= shift <= 16 {
        vstd::arithmetic::power2::lemma2_to64();
        assert(pow2(shift as nat) <= 65536) by {
            if shift < 16 {
                vstd::arithmetic::power2::lemma_pow2_strictly_increases(shift as nat, 16);
            }
        }
        vstd::bits::lemma_u64_shl_is_mul(1, shift as u64);
        assert(512 <= (1u64 << shift) <= 65536 && (1u64 << shift) % 512 == 0) by (bit_vector)
            requires
                9 <= shift <= 16,
        ;
    }
}

proof fn lemma_identify_parts(
    before: AppleAnsNvme,
    after: AppleAnsNvme,
    nsid: u32,
    trace: Seq<Access>,
    run: IdentifyRun,
)
    requires
        trace == run.trace(),
        before.identify_follows(after, nsid, run, Ok(())),
        before.phys_nvme_base + 0x3_0000 <= u64::MAX,
    ensures
        run.nsze == le_value(digits_from(trace, trace.len() - 11)),
        after.block_size == lba_size(run.shift),
        after.block_count == sector_count(run.nsze, after.block_size),
        trace.len() >= 20,
        trace[0] == (Access::AllocDma { size: run.size, va: run.va, pa: run.pa }),
        trace[5] matches Access::StoreCommand { addr, cmd } && cmd.opcode == 6 && cmd.nsid == nsid
            && cmd.prp1 == run.pa && cmd.cdw10 == 0,
        forall|i: int|
            0 <= i < 8 ==> (#[trigger] trace[trace.len() - 11 + i] matches Access::Read8 {
                addr,
                val,
            } && addr == at(run.va, i as u64)),
        trace[trace.len() - 3] matches Access::Read8 { addr, val: flbas } && addr == at(run.va, 26)
            && (trace[trace.len() - 2] matches Access::Read8 { addr, val: shift } && shift
            == run.shift && addr == at(run.va, (128 + 4 * (flbas % 16) + 2) as u64)),
{
    assert(run.allow.len() == 3);
    assert(trace[0] == Access::AllocDma { size: run.size, va: run.va, pa: run.pa });
    law_command_is_handed_over(
        before.admin_q,
        after.admin_q,
        run.granted,
        run.executed,
        before.phys_nvme_base,
        identify_command(nsid, run.pa),
        run.command,
        run.result,
    );
    assert(trace[5] == run.command[0]);
    let (digits, flbas) = choose|digits: Seq<u8>, flbas: u8|
        {
            &&& digits.len() == 8
            &&& run.nsze == le_value(digits)
            &&& run.geometry == #[trigger] loads(run.va, digits) + seq![
                Access::Read8 { addr: at(run.va, 26), val: flbas },
                #[trigger] format_load(run.va, flbas, run.shift),
            ]
        };
    let n = trace.len() - 11;
    assert(run.geometry.len() == 10);
    assert forall|i: int| 0 <= i < 10 implies trace[n + i] == #[trigger] run.geometry[i] by {}
    assert forall|i: int| 0 <= i < 8 implies (
    #[trigger] trace[n + i] matches Access::Read8 { addr, val } && addr == at(run.va, i as u64)
        && val == digits[i]) by {
        assert(trace[n + i] == run.geometry[i]);
    }
    assert(digits_from(trace, n) =~= digits);
    assert(trace[n + 8] == run.geometry[8]);
    assert(trace[n + 9] == run.geometry[9]);
}

/// The accesses of `trace` from `n` on tell a controller that is stopped where the rings
/// of both queues are and how long they are, and start it. `cc` is how its control
/// register was found.
pub open spec fn sets_up(dev: AppleAnsNvme, trace: Seq<Access>, cc: u32, n: int) -> bool {
    let regs = dev.phys_nvme_base;
    &&& 2 <= n <= trace.len() - 10
    &&& cc % 2 == 0 ==> n == 2
    &&& cc % 2 == 1 ==> (trace[n - 1] matches Access::Read32 { addr: status, val } && status
        == dev.nvme_base + 0x1c && val % 2 == 0)
    &&& stores_value(trace[n], regs + 0x24, 4, 0x1_0001)
    &&& stores_value(trace[n + 1], regs + 0x28, 8, dev.admin_q.cmds_pa as int)
    &&& stores_value(trace[n + 2], regs + 0x30, 8, dev.admin_q.cqes_pa as int)
    &&& stores_value(trace[n + 3], regs + 0x24908, 4, 1)
    &&& stores_value(trace[n + 4], regs + 0x1210, 4, 0x40_0040)
    &&& stores_value(trace[n + 5], regs + 0x28100, 4, 63)
    &&& stores_value(trace[n + 6], regs + 0x28108, 8, dev.admin_q.tcbs_pa as int)
    &&& stores_value(trace[n + 7], regs + 0x28110, 8, dev.io_q.tcbs_pa as int)
    &&& stores_value(trace[n + 8], regs + 0x14, 4, 0x46_0001)
}

/// A controller is told of its queues while it is stopped, and only then is it started.
pub proof fn law_controller_is_set_up_before_it_runs(
    before: AppleAnsNvme,
    after: AppleAnsNvme,
    trace: Seq<Access>,
)
    requires
        before.initializes(after, trace, Ok(())),
        before.phys_nvme_base + 0x3_0000 <= u64::MAX,
        before.nvme_base + 0x3_0000 <= u64::MAX,
    ensures
        trace[0] matches Access::Read32 { addr, val: cc } && addr == before.nvme_base + 0x14
            && exists|n: int| #[trigger] sets_up(before, trace, cc, n),
{
    let run = lemma_init_run(before, after, trace);
    let n = 2 + run.disable.len() as int;
    let cc = run.cc;
    assert((cc & 1 != 0) == (cc % 2 == 1)) by (bit_vector);
    let head = seq![
        Access::Read32 { addr: at(before.nvme_base, 0x14), val: run.cc },
        Access::Read32 { addr: at(before.nvme_base, 0x1c), val: run.csts },
    ];
    let rest = run.poll + run.create_cq + run.create_sq + run.identify;
    assert(trace =~= head + run.disable + run.setup + rest);
    assert(trace[0] == head[0]);
    assert(trace[0] == Access::Read32 { addr: (before.nvme_base + 0x14) as u64, val: cc });
    lemma_set_up(before, head + run.disable, run.setup, rest);
    if cc % 2 == 1 {
        lemma_stopped(before, run.cc, run.disable);
        assert(trace[n - 1] == run.disable.last());
    }
    assert(trace[0]->Read32_val == cc);
    assert(sets_up(before, trace, trace[0]->Read32_val, n));
    assert(trace[0]->Read32_addr == before.nvme_base + 0x14);
}

proof fn lemma_init_run(before: AppleAnsNvme, after: AppleAnsNvme, trace: Seq<Access>) -> (run:
    InitRun)
    requires
        before.initializes(after, trace, Ok(())),
    ensures
        trace == run.trace(before.nvme_base),
        programs(before.phys_nvme_base, setup_list(before.admin_q, before.io_q), run.setup),
        run.cc & 1 != 0 ==> disables(
            before.nvme_base,
            before.phys_nvme_base,
            run.cc,
            run.disable,
            true,
        ),
        run.cc & 1 == 0 ==> run.disable.len() == 0,
        run.poll.len() >= 1,
{
    reveal(AppleAnsNvme::initializes);
    let res = Ok::<(), DeviceError>(());
    let run = choose|run: InitRun|
        trace == run.trace(before.nvme_base) && #[trigger] before.init_follows(after, run, res);
    assert(run.sq_result is Ok);
    assert(run.cq_result is Ok);
    assert(run.ready && run.disabled);
    run
}

proof fn lemma_stopped(dev: AppleAnsNvme, cc: u32, trace: Seq<Access>)
    requires
        disables(dev.nvme_base, dev.phys_nvme_base, cc, trace, true),
        dev.nvme_base + 0x3_0000 <= u64::MAX,
    ensures
        trace.len() > 0,
        trace.last() matches Access::Read32 { addr, val } && addr == dev.nvme_base + 0x1c && val % 2
            == 0,
{
    let off = choose|off: DisableRun|
        trace == off.trace(dev.nvme_base) && #[trigger] off.follows(
            dev.nvme_base,
            dev.phys_nvme_base,
            cc,
            true,
        );
    assert(off.stop.len() >= 1);
    assert(trace.last() == off.stop.last());
    let val = off.stop.last()->Read32_val;
    assert((val & 1 == 0) == (val % 2 == 0)) by (bit_vector);
}

proof fn lemma_set_up(dev: AppleAnsNvme, a: Seq<Access>, setup: Seq<Access>, b: Seq<Access>)
    requires
        programs(dev.phys_nvme_base, setup_list(dev.admin_q, dev.io_q), setup),
        dev.phys_nvme_base + 0x3_0000 <= u64::MAX,
    ensures
        ({
            let trace = a + setup + b;
            let n = a.len() as int;
            let regs = dev.phys_nvme_base;
            &&& setup.len() == 9
            &&& stores_value(trace[n], regs + 0x24, 4, 0x1_0001)
            &&& stores_value(trace[n + 1], regs + 0x28, 8, dev.admin_q.cmds_pa as int)
            &&& stores_value(trace[n + 2], regs + 0x30, 8, dev.admin_q.cqes_pa as int)
            &&& stores_value(trace[n + 3], regs + 0x24908, 4, 1)
            &&& stores_value(trace[n + 4], regs + 0x1210, 4, 0x40_0040)
            &&& stores_value(trace[n + 5], regs + 0x28100, 4, 63)
            &&& stores_value(trace[n + 6], regs + 0x28108, 8, dev.admin_q.tcbs_pa as int)
            &&& stores_value(trace[n + 7], regs + 0x28110, 8, dev.io_q.tcbs_pa as int)
            &&& stores_value(trace[n + 8], regs + 0x14, 4, 0x46_0001)
        }),
{
    let trace = a + setup + b;
    let n = a.len() as int;
    assert(setup.len() == 9);
    assert(trace[n] == setup[0]);
    assert(trace[n + 1] == setup[1]);
    assert(trace[n + 2] == setup[2]);
    assert(trace[n + 3] == setup[3]);
    assert(trace[n + 4] == setup[4]);
    assert(trace[n + 5] == setup[5]);
    assert(trace[n + 6] == setup[6]);
    assert(trace[n + 7] == setup[7]);
    assert(trace[n + 8] == setup[8]);
}

/// A controller that runs is asked to shut down before it is stopped, and the bits that
/// do neither stay as they are.
pub proof fn law_running_controller_is_shut_down(
    base: u64,
    phys_base: u64,
    cc: u32,
    trace: Seq<Access>,
    stopped: bool,
)
    requires
        disables(base, phys_base, cc, trace, stopped),
        phys_base + 0x14 <= u64::MAX,
    ensures
        trace[0] matches Access::Hvcall { id, a1, a2, a3, ret } && {
            &&& id == 0x4e56_0002 && a1 == phys_base + 0x14 && a2 == 4
            &&& (a3 / 0x4000) % 4 == 1
            &&& a3 % 0x4000 == cc % 0x4000
            &&& a3 / 0x1_0000 == cc / 0x1_0000
        },
{
    let off = choose|off: DisableRun|
        trace == off.trace(base) && #[trigger] off.follows(base, phys_base, cc, stopped);
    assert(trace[0] == off.request);
    let val = (cc & !0xc000u32) | 0x4000;
    assert((val / 0x4000) % 4 == 1 && val % 0x4000 == cc % 0x4000 && val / 0x1_0000 == cc
        / 0x1_0000) by (bit_vector)
        requires
            val == (cc & !0xc000u32) | 0x4000,
    ;
}

/// The commands that create the queue for transfers name its rings, say that they are as
/// long as they are and in one piece, and give both sides of the queue the same number.
pub proof fn law_transfer_queue_is_created(pa: u64)
    ensures
        ({
            let cq = create_cq_command(pa);
            let sq = create_sq_command(pa);
            &&& cq.opcode == 5 && sq.opcode == 1
            &&& cq.prp1 == pa && sq.prp1 == pa
            &&& cq.cdw10 % 0x1_0000 == 1 && sq.cdw10 % 0x1_0000 == 1
            &&& cq.cdw10 / 0x1_0000 + 1 == 64 && sq.cdw10 / 0x1_0000 + 1 == 64
            &&& cq.cdw11 % 2 == 1 && (cq.cdw11 / 2) % 2 == 1
            &&& sq.cdw11 % 2 == 1
            &&& sq.cdw11 / 0x1_0000 == cq.cdw10 % 0x1_0000
        }),
{
}

/// Every page of a list is allowed, in order: each of them, whole.
pub proof fn law_every_page_is_allowed(
    before: AppleRtKit,
    pages: Seq<u64>,
    size: u64,
    after: AppleRtKit,
    trace: Seq<Access>,
    i: int,
)
    requires
        pages_allowed(before, pages, size, after, trace),
        0 <= i < pages.len(),
        pages[i] < 0x1000_0000_0000,
    ensures
        trace.len() == 3 * pages.len(),
        trace[3 * i] matches Access::Hvcall { id, a1, a2, a3, ret } && a3 * 0x1000 == pages[i],
        trace[3 * i + 1] matches Access::Hvcall { id, a1, a2, a3, ret } && a3 * 0x1000 == size,
        trace[3 * i + 2] matches Access::Hvcall { id, a1, a2, a3, ret } && a3 == 0xff,
    decreases pages.len(),
{
    let (mid, n) = choose|mid: AppleRtKit, n: int|
        {
            &&& 0 <= n <= trace.len()
            &&& #[trigger] allows_page(
                mid,
                after,
                pages.last(),
                size,
                trace.skip(n),
                true,
            )
            &&& pages_allowed(before, pages.drop_last(), size, mid, trace.take(n))
        };
    lemma_allowed_len(before, pages.drop_last(), size, mid, trace.take(n));
    if i < pages.len() - 1 {
        law_every_page_is_allowed(before, pages.drop_last(), size, mid, trace.take(n), i);
        assert(trace.take(n)[3 * i] == trace[3 * i]);
        assert(trace.take(n)[3 * i + 1] == trace[3 * i + 1]);
        assert(trace.take(n)[3 * i + 2] == trace[3 * i + 2]);
    } else {
        assert(trace.skip(n)[0] == trace[3 * i]);
        assert(trace.skip(n)[1] == trace[3 * i + 1]);
        assert(trace.skip(n)[2] == trace[3 * i + 2]);
    }
}

proof fn lemma_allowed_len(
    before: AppleRtKit,
    pages: Seq<u64>,
    size: u64,
    after: AppleRtKit,
    trace: Seq<Access>,
)
    requires
        pages_allowed(before, pages, size, after, trace),
    ensures
        trace.len() == 3 * pages.len(),
    decreases pages.len(),
{
    if pages.len() > 0 {
        let (mid, n) = choose|mid: AppleRtKit, n: int|
            {
                &&& 0 <= n <= trace.len()
                &&& #[trigger] allows_page(
                    mid,
                    after,
                    pages.last(),
                    size,
                    trace.skip(n),
                    true,
                )
                &&& pages_allowed(before, pages.drop_last(), size, mid, trace.take(n))
            };
        lemma_allowed_len(before, pages.drop_last(), size, mid, trace.take(n));
        assert(trace.skip(n).len() == 3);
    }
}

/// Whatever a queue allocates it releases: the same memory, as much of it.
pub proof fn law_rings_are_released(queue: AppleAnsQueue, i: int)
    requires
        0 <= i < 3,
    ensures
        queue.allocated()[i] matches Access::AllocDma { size, va, pa } && queue.released()[i] == (
        Access::DeallocDma { va, size }) && queue.allocated()[3 + i] == (Access::Zero { va, size })
            && size == queue.page.bytes(),
        queue.allocated().len() == 6,
        queue.released().len() == 3,
{
}

/// Before anything else the coprocessor is parked and its power domain reset, and then
/// it is found out which entries of the allow-list are firmware's. A device that could
/// not be brought up keeps none of its rings.
pub proof fn law_device_starts_from_scratch(
    w: AnsWindows,
    trace: Seq<Access>,
    res: DeviceResult<AppleAnsNvme>,
)
    requires
        brings_up(w, trace, res),
        w.phys_ans_base + 0x44 <= u64::MAX,
        w.sart_base + 0x40 <= u64::MAX,
    ensures
        trace.len() >= 18,
        stores_value(trace[0], w.phys_ans_base + 0x44, 4, 0),
        trace[1] is ResetDomain,
        forall|i: int|
            0 <= i < 16 ==> (#[trigger] trace[2 + i] matches Access::Read32 { addr, val } && addr
                == w.sart_base + 4 * i),
        res is Err ==> exists|run: BringUpRun|
            trace == #[trigger] run.trace() && (run.rings.len() == 0 && run.release.len() == 0
                || run.rings == run.dev.admin_q.allocated() + run.dev.io_q.allocated()
                && run.release == run.dev.admin_q.released() + run.dev.io_q.released()),
{
    let run = choose|run: BringUpRun| trace == run.trace() && #[trigger] run.follows(w, res);
    assert(trace[0] == run.park);
    assert(trace[1] == Access::ResetDomain);
    assert(run.survey.len() == 16);
    assert forall|i: int| 0 <= i < 16 implies (#[trigger] trace[2 + i] matches Access::Read32 {
        addr,
        val,
    } && addr == w.sart_base + 4 * i) by {
        assert(trace[2 + i] == run.survey[i]);
    }
    assert(trace == run.trace());
}

} // verus!
