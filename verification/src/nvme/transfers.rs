//! Which part of a disk a driver reaches, as its accesses tell.
//!
//! A driver's accesses are full of register traffic. What moves data is a small part of
//! them: commands and their task control blocks, completions, and bytes of DMA memory. The
//! laws speak of this part alone.

use vstd::prelude::*;

use crate::bytes::law_words;
use crate::error::DeviceResult;
use crate::hw::{at, loads, stores, Access};
use crate::nvme::apple_ans::{
    law_sector_place, transfer, AppleAnsNvme, ReadRun, WriteRun, NVME_CMD_READ,
};
use crate::nvme::command::{AppleNvmmuTcb, NvmeCommand, NvmeCompletion};
use crate::nvme::queue::{awaited, AppleAnsQueue, ExecRun, Look, NVME_CMD_WRITE};
use crate::soc::apple_mailbox::{AppleMailbox, MailboxMessage};
use crate::soc::apple_rtkit::{rounds_served, AppleRtKit, Round};
use crate::soc::apple_sart::AppleSart;

verus! {

/// An access that moves data, or says that data is to be moved or has been.
pub open spec fn moves(access: Access) -> bool {
    ||| access is StoreCommand
    ||| access is StoreTcb
    ||| access is LoadCompletion
    ||| access is Read8
    ||| access is Write8
}

/// The accesses of `trace` that move data, in order.
pub open spec fn transfers(trace: Seq<Access>) -> Seq<Access>
    decreases trace.len(),
{
    if trace.len() == 0 {
        Seq::empty()
    } else {
        let before = transfers(trace.drop_last());
        if moves(trace.last()) {
            before.push(trace.last())
        } else {
            before
        }
    }
}

/// Nothing in `trace` moves data.
pub open spec fn quiet(trace: Seq<Access>) -> bool {
    forall|i: int| 0 <= i < trace.len() ==> !moves(#[trigger] trace[i])
}

/// Everything in `trace` moves data.
pub open spec fn busy(trace: Seq<Access>) -> bool {
    forall|i: int| 0 <= i < trace.len() ==> moves(#[trigger] trace[i])
}

proof fn lemma_add(a: Seq<Access>, b: Seq<Access>)
    ensures
        transfers(a + b) == transfers(a) + transfers(b),
    decreases b.len(),
{
    if b.len() == 0 {
        assert(a + b =~= a);
        assert(transfers(a) + transfers(b) =~= transfers(a));
    } else {
        lemma_add(a, b.drop_last());
        assert((a + b).drop_last() =~= a + b.drop_last());
        assert((a + b).last() == b.last());
        assert(transfers(a + b) =~= transfers(a) + transfers(b));
    }
}

proof fn lemma_quiet(trace: Seq<Access>)
    requires
        quiet(trace),
    ensures
        transfers(trace) == Seq::<Access>::empty(),
    decreases trace.len(),
{
    if trace.len() > 0 {
        assert forall|i: int| 0 <= i < trace.drop_last().len() implies !moves(
            #[trigger] trace.drop_last()[i],
        ) by {
            assert(!moves(trace[i]));
        }
        lemma_quiet(trace.drop_last());
        assert(!moves(trace[trace.len() - 1]));
    }
}

proof fn lemma_busy(trace: Seq<Access>)
    requires
        busy(trace),
    ensures
        transfers(trace) == trace,
    decreases trace.len(),
{
    if trace.len() > 0 {
        assert forall|i: int| 0 <= i < trace.drop_last().len() implies moves(
            #[trigger] trace.drop_last()[i],
        ) by {
            assert(moves(trace[i]));
        }
        lemma_busy(trace.drop_last());
        assert(moves(trace[trace.len() - 1]));
        assert(trace.drop_last().push(trace.last()) =~= trace);
    } else {
        assert(trace =~= Seq::<Access>::empty());
    }
}

proof fn lemma_allows_quietly(
    before: AppleSart,
    after: AppleSart,
    pa: u64,
    size: u64,
    trace: Seq<Access>,
    ok: bool,
)
    requires
        before.allows(after, pa, size, trace, ok),
    ensures
        quiet(trace),
{
}

proof fn lemma_probes_quietly(sart: AppleSart, pa: u32, size: u32, n: int, trace: Seq<Access>)
    requires
        sart.probed(pa, size, n, trace),
    ensures
        quiet(trace),
    decreases n,
{
    if n > 0 {
        if sart.is_protected(n - 1) || !sart.is_used(n - 1) {
            lemma_probes_quietly(sart, pa, size, n - 1, trace);
        } else {
            let k = trace.len() - 2;
            lemma_probes_quietly(sart, pa, size, n - 1, trace.take(k));
            let pair = trace.skip(k);
            assert forall|i: int| 0 <= i < trace.len() implies !moves(#[trigger] trace[i]) by {
                if i < k {
                    assert(!moves(trace.take(k)[i]));
                } else {
                    assert(trace[i] == pair[i - k]);
                }
            }
        }
    }
}

proof fn lemma_withdraws_quietly(
    before: AppleSart,
    after: AppleSart,
    pa: u64,
    size: u64,
    trace: Seq<Access>,
    ok: bool,
)
    requires
        before.withdraws(after, pa, size, trace, ok),
    ensures
        quiet(trace),
{
    let p = crate::soc::apple_sart::low32(pa / crate::soc::apple_sart::UNIT);
    let s = crate::soc::apple_sart::low32(size / crate::soc::apple_sart::UNIT);
    if ok {
        let n = trace.len() - 5;
        let slot = choose|slot: int|
            {
                &&& 0 <= slot < crate::soc::apple_sart::MAX_ENTRIES
                &&& n >= 0
                &&& before.probed(p, s, slot, trace.take(n))
                &&& before.entry_holds(slot, p, s, trace.subrange(n, n + 2))
                &&& crate::soc::apple_sart::entry_written(
                    trace.skip(n + 2),
                    (
                        crate::soc::apple_sart::entry_reg(
                            before.phys_base(),
                            crate::soc::apple_sart::CONFIG_BASE,
                            slot,
                        ),
                        crate::soc::apple_sart::entry_reg(
                            before.phys_base(),
                            crate::soc::apple_sart::PADDR_BASE,
                            slot,
                        ),
                        crate::soc::apple_sart::entry_reg(
                            before.phys_base(),
                            crate::soc::apple_sart::SIZE_BASE,
                            slot,
                        ),
                    ),
                    (0, 0, 0),
                )
                &&& #[trigger] after.same_but(before, slot, false)
            };
        lemma_probes_quietly(before, p, s, slot, trace.take(n));
        let pair = trace.subrange(n, n + 2);
        let rest = trace.skip(n + 2);
        assert forall|i: int| 0 <= i < trace.len() implies !moves(#[trigger] trace[i]) by {
            if i < n {
                assert(!moves(trace.take(n)[i]));
            } else if i < n + 2 {
                assert(trace[i] == pair[i - n]);
            } else {
                assert(trace[i] == rest[i - n - 2]);
            }
        }
    } else {
        lemma_probes_quietly(before, p, s, crate::soc::apple_sart::MAX_ENTRIES as int, trace);
    }
}

proof fn lemma_sends_quietly(
    mailbox: AppleMailbox,
    msg: MailboxMessage,
    trace: Seq<Access>,
    ok: bool,
)
    requires
        mailbox.sends(msg, trace, ok),
    ensures
        quiet(trace),
{
    if ok {
        let n = trace.len() - 4;
        let polled = trace.take(n);
        assert forall|i: int| 0 <= i < trace.len() implies !moves(#[trigger] trace[i]) by {
            if i < n - 1 {
                assert(polled.drop_last()[i] == trace[i]);
            } else if i == n - 1 {
                assert(polled.last() == trace[i]);
            }
        }
    }
}

proof fn lemma_provides_quietly(
    before: AppleRtKit,
    after: AppleRtKit,
    msg: MailboxMessage,
    ep: u8,
    trace: Seq<Access>,
    ok: bool,
)
    requires
        before.provides(after, msg, ep, trace, ok),
    ensures
        quiet(trace),
{
    if trace.len() > 3 {
        let cleared = trace.subrange(2, 5);
        let sent = trace.skip(5);
        let pages = crate::soc::apple_rtkit::buffer_request_pages(msg.msg0);
        let pa = trace[0]->AllocDma_pa;
        let size = trace[0]->AllocDma_size;
        lemma_allows_quietly(before.sart, after.sart, pa, size, cleared, true);
        lemma_sends_quietly(
            before.mailbox,
            crate::soc::apple_rtkit::buffer_reply(pages, pa, ep),
            sent,
            ok,
        );
        assert forall|i: int| 0 <= i < trace.len() implies !moves(#[trigger] trace[i]) by {
            if 2 <= i < 5 {
                assert(trace[i] == cleared[i - 2]);
            } else if i >= 5 {
                assert(trace[i] == sent[i - 5]);
            }
        }
    }
}

proof fn lemma_serves_quietly(round: Round, ok: bool)
    requires
        round.served(ok),
    ensures
        quiet(round.trace),
{
    let trace = round.trace;
    let rest = trace.skip(3);
    match crate::soc::apple_rtkit::duty(round.msg, round.before.crashlog_bfr.pa != 0) {
        crate::soc::apple_rtkit::Duty::Echo => {
            if round.before.mailbox.sends(round.msg, rest, true) {
                lemma_sends_quietly(round.before.mailbox, round.msg, rest, true);
            } else {
                lemma_sends_quietly(round.before.mailbox, round.msg, rest, false);
            }
        },
        crate::soc::apple_rtkit::Duty::Provide(ep) => {
            lemma_provides_quietly(round.before, round.after, round.msg, ep, rest, ok);
        },
        _ => {},
    }
    assert forall|i: int| 0 <= i < trace.len() implies !moves(#[trigger] trace[i]) by {
        if i < 3 {
            assert(trace.take(3)[i] == trace[i]);
            assert(trace.take(3)[0] is Read32);
            assert(trace.take(3)[1] is Read64);
            assert(trace.take(3)[2] is Read64);
        } else {
            assert(rest[i - 3] == trace[i]);
        }
    }
}

proof fn lemma_rounds_are_quiet(
    first: AppleRtKit,
    rounds: Seq<Round>,
    last: AppleRtKit,
    trace: Seq<Access>,
)
    requires
        rounds_served(first, rounds, last, trace),
    ensures
        quiet(trace),
    decreases rounds.len(),
{
    if rounds.len() > 0 {
        let round = rounds.last();
        let n = trace.len() - round.trace.len();
        lemma_serves_quietly(round, true);
        lemma_rounds_are_quiet(first, rounds.drop_last(), round.before, trace.take(n));
        assert forall|i: int| 0 <= i < trace.len() implies !moves(#[trigger] trace[i]) by {
            if i < n {
                assert(trace.take(n)[i] == trace[i]);
            } else {
                assert(trace.skip(n)[i - n] == trace[i]);
            }
        }
    }
}

proof fn lemma_drains_quietly(before: AppleRtKit, after: AppleRtKit, trace: Seq<Access>, ok: bool)
    requires
        before.drains(after, trace, ok),
    ensures
        quiet(trace),
{
    let (rounds, mid, n) = choose|rounds: Seq<Round>, mid: AppleRtKit, n: int|
        0 <= n <= trace.len() && #[trigger] rounds_served(before, rounds, mid, trace.take(n))
            && mid.drain_ends(after, rounds.len(), trace.skip(n), ok);
    lemma_rounds_are_quiet(before, rounds, mid, trace.take(n));
    let rest = trace.skip(n);
    if !ok {
        let msg = choose|msg: MailboxMessage|
            #[trigger] (Round { before: mid, msg, after, trace: rest }).served(false);
        lemma_serves_quietly(Round { before: mid, msg, after, trace: rest }, false);
    }
    assert forall|i: int| 0 <= i < trace.len() implies !moves(#[trigger] trace[i]) by {
        if i < n {
            assert(trace.take(n)[i] == trace[i]);
        } else {
            assert(rest[i - n] == trace[i]);
            assert(!moves(rest[i - n]));
        }
    }
}

/// Looks at the completion entry at `entry`, which found `cqes`, in order.
pub open spec fn looks_at(entry: u64, cqes: Seq<NvmeCompletion>) -> Seq<Access> {
    Seq::new(cqes.len(), |i: int| Access::LoadCompletion { addr: entry, cqe: cqes[i] })
}

spec fn found(looks: Seq<Look>) -> Seq<NvmeCompletion> {
    Seq::new(looks.len(), |i: int| looks[i].cqe)
}

proof fn lemma_look(look: Look, entry: u64, phase: u8, done: bool)
    requires
        look.taken(phase, done),
    ensures
        transfers(look.trace(entry)) == seq![Access::LoadCompletion { addr: entry, cqe: look.cqe }],
{
    let fence = seq![Access::Fence];
    let load = seq![Access::LoadCompletion { addr: entry, cqe: look.cqe }];
    lemma_drains_quietly(look.before, look.after, look.drained, true);
    lemma_quiet(look.drained);
    lemma_quiet(fence);
    lemma_busy(load);
    assert(look.trace(entry) =~= look.drained + fence + load);
    lemma_add(look.drained, fence);
    lemma_add(look.drained + fence, load);
    assert(transfers(look.trace(entry)) =~= load);
}

proof fn lemma_awaited(
    first: AppleRtKit,
    looks: Seq<Look>,
    last: AppleRtKit,
    entry: u64,
    phase: u8,
    trace: Seq<Access>,
)
    requires
        awaited(first, looks, last, entry, phase, trace),
    ensures
        transfers(trace) == looks_at(entry, found(looks)),
        forall|i: int| 0 <= i < looks.len() ==> (#[trigger] looks[i]).cqe.status % 2 != phase,
    decreases looks.len(),
{
    if looks.len() == 0 {
        assert(trace =~= Seq::<Access>::empty());
        assert(transfers(trace) =~= looks_at(entry, found(looks)));
    } else {
        let look = looks.last();
        let before = looks.drop_last();
        let n = trace.len() - look.trace(entry).len();
        lemma_awaited(first, before, look.before, entry, phase, trace.take(n));
        lemma_look(look, entry, phase, false);
        lemma_add(trace.take(n), trace.skip(n));
        assert(trace.take(n) + trace.skip(n) =~= trace);
        assert(transfers(trace) =~= looks_at(entry, found(looks)));
        assert forall|i: int| 0 <= i < looks.len() implies (#[trigger] looks[i]).cqe.status % 2
            != phase by {
            if i < looks.len() - 1 {
                assert(before[i] == looks[i]);
            }
        }
    }
}

/// A command on its way through a queue: what is stored for it, and what is found where its
/// completion is expected.
pub struct Visit {
    pub cmd: NvmeCommand,
    pub tcb: AppleNvmmuTcb,
    pub cqes: Seq<NvmeCompletion>,
}

impl Visit {
    /// The accesses of the visit that move data.
    pub open spec fn steps(self, queue: AppleAnsQueue) -> Seq<Access> {
        seq![
            Access::StoreCommand { addr: queue.cmds_va, cmd: self.cmd },
            Access::StoreTcb { addr: queue.tcbs_va, tcb: self.tcb },
        ] + looks_at(
            at(queue.cqes_va, (queue.cq_head * 16) as u64),
            self.cqes,
        )
    }

    /// The command completed without an error: the last look found an entry that carries the
    /// awaited phase and no status code, and none of the looks before found an entry of this
    /// phase.
    pub open spec fn succeeded(self, queue: AppleAnsQueue) -> bool {
        &&& self.cqes.len() > 0
        &&& self.cqes.last().status % 2 == queue.cq_phase
        &&& self.cqes.last().status < 2
        &&& forall|i: int|
            0 <= i < self.cqes.len() - 1 ==> (#[trigger] self.cqes[i]).status % 2 != queue.cq_phase
    }

    /// The logical block that the command names.
    pub open spec fn block(self) -> int {
        self.cmd.cdw11 * 0x1_0000_0000 + self.cmd.cdw10
    }

    /// The command moves one logical block of the first namespace between the medium and the
    /// page at `pa`, and its task control block grants this much and no more.
    pub open spec fn moves_block(self, opcode: u8, direction: u8, pa: u64) -> bool {
        &&& self.cmd.opcode == opcode
        &&& self.cmd.nsid == 1
        &&& self.cmd.prp1 == pa
        &&& self.cmd.prp2 == 0
        &&& self.cmd.cdw12 == 0
        &&& self.cmd.tag == self.tcb.slot_id
        &&& self.tcb.prp1 == pa
        &&& self.tcb.prp2 == 0
        &&& self.tcb.length == 0
        &&& pa != 0 ==> self.tcb.dma_flags == direction
    }
}

proof fn lemma_executes(
    queue: AppleAnsQueue,
    after: AppleAnsQueue,
    rtkit: AppleRtKit,
    rtkit_after: AppleRtKit,
    phys_base: u64,
    cmd: NvmeCommand,
    trace: Seq<Access>,
    res: DeviceResult<u64>,
) -> (visit: Visit)
    requires
        queue.executes(after, rtkit, rtkit_after, phys_base, cmd, trace, res),
    ensures
        transfers(trace) == visit.steps(queue),
        visit.cmd == (NvmeCommand { tag: 0, ..cmd }),
        visit.tcb.describes(
            crate::nvme::queue::dma_flags(cmd),
            0,
            cmd.cdw12,
            cmd.prp1,
            cmd.prp2,
        ),
        res is Ok ==> visit.succeeded(queue) && res == Ok::<u64, crate::error::DeviceError>(
            visit.cqes.last().result,
        ) && after == queue.advanced(),
{
    let run = choose|run: ExecRun|
        trace == run.trace() && #[trigger] queue.run_follows(
            after,
            rtkit,
            rtkit_after,
            phys_base,
            cmd,
            run,
            res,
        );
    let tcb = run.issue[1]->StoreTcb_tcb;
    let stored = run.issue.take(2);
    let rung = run.issue.skip(2);
    lemma_busy(stored);
    lemma_quiet(rung);
    lemma_add(stored, rung);
    assert(stored + rung =~= run.issue);
    lemma_awaited(rtkit, run.looks, run.mid, queue.entry(), queue.cq_phase, run.waiting);
    lemma_add(run.issue, run.waiting);
    lemma_add(run.issue + run.waiting, run.end);
    let early = found(run.looks);
    let entry = queue.entry();
    let completes = exists|look: Look|
        {
            &&& look.before == run.mid
            &&& look.after == rtkit_after
            &&& res == crate::nvme::queue::outcome(look.cqe)
            &&& #[trigger] queue.completes(after, look, phys_base, run.end)
        };
    if run.looks.len() <= crate::nvme::queue::TIMEOUT_SPINS && completes {
        let look = choose|look: Look|
            {
                &&& look.before == run.mid
                &&& look.after == rtkit_after
                &&& res == crate::nvme::queue::outcome(look.cqe)
                &&& #[trigger] queue.completes(after, look, phys_base, run.end)
            };
        let n = look.trace(entry).len() as int;
        lemma_look(look, entry, queue.cq_phase, true);
        let acks = run.end.skip(n);
        assert(acks[0] == run.end[n] && acks[1] == run.end[n + 1] && acks[2] == run.end[n + 2]);
        lemma_quiet(acks);
        lemma_add(run.end.take(n), acks);
        assert(run.end.take(n) + acks =~= run.end);
        let visit = Visit { cmd: NvmeCommand { tag: 0, ..cmd }, tcb, cqes: early.push(look.cqe) };
        assert(transfers(trace) =~= visit.steps(queue));
        assert forall|i: int| 0 <= i < visit.cqes.len() - 1 implies (
        #[trigger] visit.cqes[i]).status % 2 != queue.cq_phase by {
            assert(run.looks[i].cqe.status % 2 != queue.cq_phase);
        }
        visit
    } else {
        if run.looks.len() <= crate::nvme::queue::TIMEOUT_SPINS {
            lemma_drains_quietly(run.mid, rtkit_after, run.end, false);
        }
        lemma_quiet(run.end);
        let visit = Visit { cmd: NvmeCommand { tag: 0, ..cmd }, tcb, cqes: early };
        assert(transfers(trace) =~= visit.steps(queue));
        visit
    }
}

/// The number of bytes that a buffer and a sector have in common.
pub open spec fn common(buf: Seq<u8>) -> int {
    if buf.len() < 512 {
        buf.len() as int
    } else {
        512
    }
}

proof fn lemma_loads_are_busy(base: u64, bytes: Seq<u8>)
    ensures
        transfers(loads(base, bytes)) == loads(base, bytes),
        transfers(stores(base, bytes)) == stores(base, bytes),
{
    lemma_busy(loads(base, bytes));
    lemma_busy(stores(base, bytes));
}

proof fn lemma_place(dev: AppleAnsNvme, block_id: u64, visit: Visit)
    requires
        dev.wf(),
        visit.cmd.cdw10 == crate::bytes::low_word(dev.lba(block_id)),
        visit.cmd.cdw11 == crate::bytes::high_word(dev.lba(block_id)),
    ensures
        dev.lba_offset(block_id) == block_id * 512 - visit.block() * dev.block_size,
        0 <= block_id * 512 - visit.block() * dev.block_size <= dev.block_size - 512,
{
    law_words(dev.lba(block_id));
    law_sector_place(dev, block_id);
    assert(visit.block() == dev.lba(block_id));
}

/// A sector is read from where it is. Sector `block_id` starts `block_id * 512` bytes into
/// the medium. The one command of a successful read fetches the logical block that this byte
/// is in, and what ends up in the front of the buffer is loaded, once the command has
/// completed, from as far into the page as that byte is into the block. The rest of the
/// buffer stays.
pub proof fn law_sector_is_read_from_its_place(
    before: AppleAnsNvme,
    after: AppleAnsNvme,
    block_id: u64,
    buf: Seq<u8>,
    buf_after: Seq<u8>,
    trace: Seq<Access>,
)
    requires
        before.wf(),
        before.reads(after, block_id, buf, buf_after, trace, Ok(())),
    ensures
        exists|visit: Visit|
            #[trigger] reads_sector(before, block_id, buf, buf_after, trace, visit),
{
    let run = choose|run: ReadRun|
        trace == run.trace(before.lba_offset(block_id)) && #[trigger] before.read_follows(
            after,
            block_id,
            buf,
            buf_after,
            run,
            Ok(()),
        );
    let o = before.lba_offset(block_id);
    let head = seq![Access::AllocDma { size: run.size, va: run.va, pa: run.pa }];
    let tail = seq![Access::DeallocDma { va: run.va, size: run.size }];
    let bytes = loads(at(run.va, o), run.bytes);
    let cmd = transfer(NVME_CMD_READ, run.pa, before.lba(block_id));
    let visit = lemma_executes(
        before.io_q,
        after.io_q,
        run.granted,
        run.executed,
        before.phys_nvme_base,
        cmd,
        run.command,
        run.result,
    );
    lemma_allows_quietly(before.rtkit.sart, run.granted.sart, run.pa, run.size, run.allow, true);
    lemma_withdraws_quietly(
        run.executed.sart,
        after.rtkit.sart,
        run.pa,
        run.size,
        run.withdraw,
        run.withdrawn,
    );
    lemma_quiet(head);
    lemma_quiet(tail);
    lemma_quiet(run.allow);
    lemma_quiet(run.withdraw);
    lemma_loads_are_busy(at(run.va, o), run.bytes);
    lemma_add(head, run.allow);
    lemma_add(head + run.allow, run.command);
    lemma_add(head + run.allow + run.command, run.withdraw);
    lemma_add(head + run.allow + run.command + run.withdraw, bytes);
    lemma_add(head + run.allow + run.command + run.withdraw + bytes, tail);
    assert(transfers(trace) =~= visit.steps(before.io_q) + bytes);
    lemma_place(before, block_id, visit);
    let n = common(buf);
    assert(buf_after.take(n) =~= run.bytes);
    assert(buf_after.skip(n) =~= buf.skip(n));
    assert(trace[0] == head[0]);
    assert(reads_sector(before, block_id, buf, buf_after, trace, visit));
}

/// `trace` reads sector `block_id` into the front of a buffer: see
/// [`law_sector_is_read_from_its_place`].
pub open spec fn reads_sector(
    dev: AppleAnsNvme,
    block_id: u64,
    buf: Seq<u8>,
    buf_after: Seq<u8>,
    trace: Seq<Access>,
    visit: Visit,
) -> bool {
    let into = block_id * 512 - visit.block() * dev.block_size;
    let n = common(buf);
    &&& trace.len() > 0
    &&& trace[0] matches Access::AllocDma { size, va, pa } && {
        &&& visit.moves_block(2, 1, pa)
        &&& visit.succeeded(dev.io_q)
        &&& 0 <= into <= dev.block_size - 512
        &&& transfers(trace) == visit.steps(dev.io_q) + loads(
            at(va, into as u64),
            buf_after.take(n),
        )
        &&& buf_after.len() == buf.len()
        &&& buf_after.skip(n) == buf.skip(n)
    }
}

/// A sector is written to where it is: see [`writes_sector`]. In a logical block that holds
/// more than the one sector, the others are written back as they were fetched.
pub proof fn law_sector_is_written_to_its_place(
    before: AppleAnsNvme,
    after: AppleAnsNvme,
    block_id: u64,
    buf: Seq<u8>,
    trace: Seq<Access>,
)
    requires
        before.wf(),
        before.writes(after, block_id, buf, trace, Ok(())),
    ensures
        exists|fetch: Visit, visit: Visit|
            #[trigger] writes_sector(before, block_id, buf, trace, fetch, visit),
{
    let run = choose|run: WriteRun|
        trace == run.trace(before.lba_offset(block_id)) && #[trigger] before.write_follows(
            after,
            block_id,
            buf,
            run,
            Ok(()),
        );
    let o = before.lba_offset(block_id);
    let head = seq![Access::AllocDma { size: run.size, va: run.va, pa: run.pa }];
    let tail = seq![Access::DeallocDma { va: run.va, size: run.size }];
    let bytes = stores(at(run.va, o), run.bytes);
    let lba = before.lba(block_id);
    let visit = lemma_executes(
        run.fetched_q,
        after.io_q,
        run.fetched,
        run.executed,
        before.phys_nvme_base,
        transfer(NVME_CMD_WRITE, run.pa, lba),
        run.command,
        run.result,
    );
    let fetch = if before.block_size > 512 {
        lemma_executes(
            before.io_q,
            run.fetched_q,
            run.granted,
            run.fetched,
            before.phys_nvme_base,
            transfer(NVME_CMD_READ, run.pa, lba),
            run.fetch,
            run.fetch_result,
        )
    } else {
        assert(run.fetch =~= Seq::<Access>::empty());
        visit
    };
    lemma_allows_quietly(before.rtkit.sart, run.granted.sart, run.pa, run.size, run.allow, true);
    lemma_withdraws_quietly(
        run.executed.sart,
        after.rtkit.sart,
        run.pa,
        run.size,
        run.withdraw,
        run.withdrawn,
    );
    lemma_quiet(head);
    lemma_quiet(tail);
    lemma_quiet(run.allow);
    lemma_quiet(run.withdraw);
    lemma_loads_are_busy(at(run.va, o), run.bytes);
    lemma_add(head, run.allow);
    lemma_add(head + run.allow, run.fetch);
    lemma_add(head + run.allow + run.fetch, bytes);
    lemma_add(head + run.allow + run.fetch + bytes, run.command);
    lemma_add(head + run.allow + run.fetch + bytes + run.command, run.withdraw);
    lemma_add(head + run.allow + run.fetch + bytes + run.command + run.withdraw, tail);
    assert(transfers(trace) =~= transfers(run.fetch) + bytes + visit.steps(run.fetched_q));
    lemma_place(before, block_id, visit);
    assert(run.bytes =~= buf.take(common(buf)));
    assert(trace[0] == head[0]);
    if before.block_size <= 512 {
        assert(transfers(trace) =~= bytes + visit.steps(before.io_q));
    }
    assert(writes_sector(before, block_id, buf, trace, fetch, visit));
}

/// `trace` writes the front of a buffer to sector `block_id`. The bytes are stored as far into
/// the page as the sector's first byte is into its logical block, and then the page is
/// written to this block. If the block holds more than the sector, the page was filled from
/// the same block before.
pub open spec fn writes_sector(
    dev: AppleAnsNvme,
    block_id: u64,
    buf: Seq<u8>,
    trace: Seq<Access>,
    fetch: Visit,
    visit: Visit,
) -> bool {
    let into = block_id * 512 - visit.block() * dev.block_size;
    &&& trace.len() > 0
    &&& trace[0] matches Access::AllocDma { size, va, pa } && {
        let bytes = stores(at(va, into as u64), buf.take(common(buf)));
        &&& visit.moves_block(1, 2, pa)
        &&& 0 <= into <= dev.block_size - 512
        &&& if dev.block_size > 512 {
            &&& fetch.moves_block(2, 1, pa)
            &&& fetch.block() == visit.block()
            &&& fetch.succeeded(dev.io_q)
            &&& visit.succeeded(dev.io_q.advanced())
            &&& transfers(trace) == fetch.steps(dev.io_q) + bytes + visit.steps(
                dev.io_q.advanced(),
            )
        } else {
            &&& visit.succeeded(dev.io_q)
            &&& transfers(trace) == bytes + visit.steps(dev.io_q)
        }
    }
}

/// What was written is what is read back: a read of a sector fetches the block that a write
/// of the sector goes to, and takes its bytes from where the write put them.
pub proof fn law_written_sector_is_read_back(
    writer: AppleAnsNvme,
    reader: AppleAnsNvme,
    block_id: u64,
    written: Seq<u8>,
    buf: Seq<u8>,
    buf_after: Seq<u8>,
    write_trace: Seq<Access>,
    read_trace: Seq<Access>,
    fetch: Visit,
    write: Visit,
    read: Visit,
)
    requires
        writer.block_size == reader.block_size,
        writer.block_size > 0,
        writes_sector(writer, block_id, written, write_trace, fetch, write),
        reads_sector(reader, block_id, buf, buf_after, read_trace, read),
    ensures
        write.block() == read.block(),
        block_id * 512 - write.block() * writer.block_size == block_id * 512 - read.block()
            * reader.block_size,
{
    let a = write.block();
    let b = read.block();
    let size = writer.block_size as int;
    let id = block_id * 512;
    assert(a == b) by (nonlinear_arith)
        requires
            size > 0,
            0 <= id - a * size <= size - 512,
            0 <= id - b * size <= size - 512,
    ;
}

/// If the page that a transfer needs cannot be allowed, nothing is moved, and the caller is
/// told.
pub proof fn law_refused_page_moves_nothing(
    before: AppleAnsNvme,
    after: AppleAnsNvme,
    block_id: u64,
    buf: Seq<u8>,
    buf_after: Seq<u8>,
    trace: Seq<Access>,
    res: DeviceResult<()>,
)
    requires
        before.reads(after, block_id, buf, buf_after, trace, res),
        forall|i: int| 0 <= i < 16 ==> !#[trigger] before.rtkit.sart.is_free(i),
    ensures
        transfers(trace) == Seq::<Access>::empty(),
        buf_after == buf,
        res == Err::<(), crate::error::DeviceError>(crate::error::DeviceError::NotReady),
{
    let run = choose|run: ReadRun|
        trace == run.trace(before.lba_offset(block_id)) && #[trigger] before.read_follows(
            after,
            block_id,
            buf,
            buf_after,
            run,
            res,
        );
    assert(!run.allowed);
    assert(quiet(trace)) by {
        assert(loads(at(run.va, before.lba_offset(block_id)), run.bytes).len() == 0);
        assert(run.allow.len() == 0);
    }
    lemma_quiet(trace);
}

/// A read that fails leaves the buffer as it was.
pub proof fn law_failed_read_gives_nothing(
    before: AppleAnsNvme,
    after: AppleAnsNvme,
    block_id: u64,
    buf: Seq<u8>,
    buf_after: Seq<u8>,
    trace: Seq<Access>,
    res: DeviceResult<()>,
)
    requires
        before.reads(after, block_id, buf, buf_after, trace, res),
        res is Err,
    ensures
        buf_after == buf,
{
    let run = choose|run: ReadRun|
        trace == run.trace(before.lba_offset(block_id)) && #[trigger] before.read_follows(
            after,
            block_id,
            buf,
            buf_after,
            run,
            res,
        );
    if run.allowed {
        assert(run.bytes =~= Seq::<u8>::empty());
        assert(buf_after =~= buf);
    }
}

} // verus!
