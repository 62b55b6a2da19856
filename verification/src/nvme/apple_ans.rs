//! Apple ANS (ANS2) storage controller.
//!
//! ANS2 is an RTKit coprocessor with an NVMe personality. It is reset and booted
//! over its mailbox, may reach only the memory that its SART allows, and then
//! takes commands through two queue pairs.

use vstd::prelude::*;

use crate::bus::PageSize;
use crate::bytes::{high_word, le64, le_value, low_word};
use crate::error::{DeviceError, DeviceResult};
use crate::hw::{
    address, at, extends, lemma_since_add, lemma_since_chain, lemma_since_one, lemma_since_self,
    load_bytes, loads, poll_status, poll_trace, since, store_bytes, stores, Access, Bus, Hardware,
};
use crate::nvme::command::NvmeCommand;
use crate::nvme::queue::{AppleAnsQueue, ADMIN_QUEUE_DEPTH, ANS_QUEUE_DEPTH, NVME_CMD_WRITE};
use crate::soc::apple_mailbox::AppleMailbox;
use crate::soc::apple_rtkit::AppleRtKit;
use crate::soc::apple_sart::{AppleSart, CONFIG_BASE, MAX_ENTRIES};
use crate::soc::hvcall::{hv_write, is_hv_write};

verus! {

pub const NVME_REG_CC: u64 = 0x0014;
pub const NVME_REG_CSTS: u64 = 0x001c;
pub const NVME_REG_AQA: u64 = 0x0024;
pub const NVME_REG_ASQ: u64 = 0x0028;
pub const NVME_REG_ACQ: u64 = 0x0030;

pub const NVME_CC_EN: u32 = 0x1;
pub const NVME_CC_SHN_NORMAL: u32 = 0x4000;
pub const NVME_CC_SHN_MASK: u32 = 0xc000;

/// Enabled, NVM command set, no shutdown, 64-byte commands, 16-byte completions.
pub const NVME_CC_RUN: u32 = 0x46_0001;

pub const NVME_CSTS_RDY: u32 = 0x1;
pub const NVME_CSTS_SHST_MASK: u32 = 0xc;
pub const NVME_CSTS_SHST_DONE: u32 = 0x8;

pub const APPLE_ANS_MAX_PEND_CMDS_CTRL: u64 = 0x1210;
pub const APPLE_ANS_BOOT_STATUS: u64 = 0x1300;
pub const APPLE_ANS_BOOT_STATUS_OK: u32 = 0xde71_ce55;

/// ASC CPU control, in the secondary window and not in the NVMe one.
pub const APPLE_ANS_COPROC_CPU_CONTROL: u64 = 0x44;

pub const APPLE_ANS_LINEAR_SQ_CTRL: u64 = 0x24908;
pub const APPLE_ANS_LINEAR_SQ_EN: u32 = 0x1;

pub const APPLE_NVMMU_NUM_TCBS: u64 = 0x28100;
pub const APPLE_NVMMU_ASQ_TCB_BASE: u64 = 0x28108;
pub const APPLE_NVMMU_IOSQ_TCB_BASE: u64 = 0x28110;

pub const NVME_ADMIN_CMD_CREATE_SQ: u8 = 0x01;
pub const NVME_ADMIN_CMD_CREATE_CQ: u8 = 0x05;
pub const NVME_ADMIN_CMD_IDENTIFY: u8 = 0x06;

pub const NVME_CMD_FLUSH: u8 = 0x00;
pub const NVME_CMD_READ: u8 = 0x02;

/// Size of the sectors in which a block device counts.
pub const SECTOR_SIZE: u64 = 512;

/// Repetitions allowed while waiting for the firmware to report its boot.
pub const BOOT_STATUS_SPIN_TIMEOUT: u64 = 20_000_000;

/// Repetitions allowed while waiting for the controller to shut down.
pub const SHUTDOWN_SPIN_TIMEOUT: u64 = 5_000_000;

/// Repetitions allowed while waiting for the controller to become ready.
pub const READY_SPIN_TIMEOUT: u64 = 10_000_000;

/// The controller: its register windows, its coprocessor, its queues, and the
/// geometry of its namespace.
pub struct AppleAnsNvme {
    /// The size of page frames: a transfer goes through one.
    pub page: PageSize,
    pub nvme_base: u64,
    pub phys_nvme_base: u64,
    pub ans_base: u64,
    pub rtkit: AppleRtKit,
    pub admin_q: AppleAnsQueue,
    pub io_q: AppleAnsQueue,
    /// Capacity in 512-byte sectors.
    pub block_count: u64,
    /// Bytes per logical block of the namespace.
    pub block_size: u64,
}

/// `trace` stores a value through the hypervisor for each entry of `list`: a
/// register's offset, the width of the store, and the value.
pub open spec fn programs(phys_base: u64, list: Seq<(u64, u32, u64)>, trace: Seq<Access>) -> bool {
    &&& trace.len() == list.len()
    &&& forall|i: int|
        0 <= i < list.len() ==> is_hv_write(
            #[trigger] trace[i],
            at(phys_base, list[i].0),
            list[i].1,
            list[i].2,
        )
}

/// What it takes to allow or refuse one DMA page.
pub open spec fn allows_page(
    before: AppleRtKit,
    after: AppleRtKit,
    pa: u64,
    size: u64,
    trace: Seq<Access>,
    ok: bool,
) -> bool {
    &&& after == (AppleRtKit { sart: after.sart, ..before })
    &&& before.sart.allows(after.sart, pa, size, trace, ok)
}

/// What it takes to withdraw one DMA page.
pub open spec fn withdraws_page(
    before: AppleRtKit,
    after: AppleRtKit,
    pa: u64,
    size: u64,
    trace: Seq<Access>,
    ok: bool,
) -> bool {
    &&& after == (AppleRtKit { sart: after.sart, ..before })
    &&& before.sart.withdraws(after.sart, pa, size, trace, ok)
}

/// The command that moves one logical block to or from a DMA page.
pub open spec fn spec_transfer(opcode: u8, pa: u64, lba: u64) -> NvmeCommand {
    NvmeCommand {
        opcode,
        nsid: 1,
        prp1: pa,
        cdw10: low_word(lba),
        cdw11: high_word(lba),
        ..NvmeCommand::zeroed()
    }
}

#[verifier::when_used_as_spec(spec_transfer)]
pub fn transfer(opcode: u8, pa: u64, lba: u64) -> (cmd: NvmeCommand)
    ensures
        cmd == spec_transfer(opcode, pa, lba),
{
    let mut cmd: NvmeCommand = NvmeCommand::default();
    cmd.opcode = opcode;
    cmd.nsid = 1;
    cmd.prp1 = pa;
    cmd.cdw10 = low_word(lba);
    cmd.cdw11 = high_word(lba);
    cmd
}

/// The command that makes the device write its caches out.
pub open spec fn flush_command() -> NvmeCommand {
    NvmeCommand { opcode: NVME_CMD_FLUSH, nsid: 1, ..NvmeCommand::zeroed() }
}

/// The command that asks for the description of a namespace.
pub open spec fn identify_command(nsid: u32, pa: u64) -> NvmeCommand {
    NvmeCommand { opcode: NVME_ADMIN_CMD_IDENTIFY, nsid, prp1: pa, ..NvmeCommand::zeroed() }
}

/// The command that creates the I/O completion queue, with interrupts enabled and
/// in contiguous memory.
pub open spec fn create_cq_command(pa: u64) -> NvmeCommand {
    NvmeCommand {
        opcode: NVME_ADMIN_CMD_CREATE_CQ,
        prp1: pa,
        cdw10: 0x3f_0001,
        cdw11: 3,
        ..NvmeCommand::zeroed()
    }
}

/// The command that creates the I/O submission queue, bound to the completion
/// queue and in contiguous memory.
pub open spec fn create_sq_command(pa: u64) -> NvmeCommand {
    NvmeCommand {
        opcode: NVME_ADMIN_CMD_CREATE_SQ,
        prp1: pa,
        cdw10: 0x3f_0001,
        cdw11: 0x1_0001,
        ..NvmeCommand::zeroed()
    }
}

/// The block size that a logical block format states as a power of two. Formats
/// out of range count as 4096 bytes.
pub open spec fn spec_lba_size(shift: u8) -> u64 {
    if 9 <= shift <= 16 {
        1u64 << shift
    } else {
        4096
    }
}

#[verifier::when_used_as_spec(spec_lba_size)]
pub fn lba_size(shift: u8) -> (size: u64)
    ensures
        size == spec_lba_size(shift),
        valid_block_size(size),
{
    if 9 <= shift && shift <= 16 {
        assert(9 <= shift <= 16 ==> 512 <= (1u64 << shift) <= 65536 && (1u64 << shift) % 512 == 0)
            by (bit_vector);
        1u64 << shift
    } else {
        4096
    }
}

/// A block is made up of whole sectors.
pub open spec fn valid_block_size(size: u64) -> bool {
    512 <= size <= 65536 && size % 512 == 0
}

/// The capacity in sectors of a namespace of `nsze` blocks, modulo the width of
/// the counter.
pub open spec fn sector_count(nsze: u64, block_size: u64) -> u64 {
    ((nsze * (block_size / SECTOR_SIZE)) % 0x1_0000_0000_0000_0000) as u64
}

/// Where the logical block format in use stands in a namespace description.
pub open spec fn format_offset(flbas: u8) -> u64 {
    (128 + (flbas % 16) * 4 + 2) as u64
}

/// `trace` reads from the namespace description at `va` what fixes the geometry:
/// the number of blocks, and the format in use.
pub open spec fn reads_geometry(
    va: u64,
    nsze: u64,
    shift: u8,
    trace: Seq<Access>,
) -> bool {
    exists|digits: Seq<u8>, flbas: u8|
        {
            &&& digits.len() == 8
            &&& nsze == le_value(digits)
            &&& trace == #[trigger] loads(va, digits) + seq![
                Access::Read8 { addr: at(va, 26), val: flbas },
                #[trigger] format_load(va, flbas, shift),
            ]
        }
}

pub open spec fn format_load(va: u64, flbas: u8, shift: u8) -> Access {
    Access::Read8 { addr: at(va, format_offset(flbas)), val: shift }
}

/// Reads the geometry out of the namespace description at `va`.
fn read_geometry<H: Hardware>(bus: &mut Bus<H>, va: u64) -> (geometry: (u64, u8))
    ensures
        extends(old(bus).log(), final(bus).log()),
        reads_geometry(va, geometry.0, geometry.1, since(old(bus).log(), final(bus).log())),
{
    let ghost start = bus.log();
    let digits: Vec<u8> = load_bytes(bus, va, 8);
    let nsze: u64 = le64(digits.as_slice(), 0);
    let flbas: u8 = bus.read8(address(va, 26));
    let shift: u8 = bus.read8(address(va, 128 + (flbas % 16) as u64 * 4 + 2));
    proof {
        assert(digits@.subrange(0, 8) =~= digits@);
        assert(bus.log().take(start.len() as int) =~= start);
        assert(since(start, bus.log()) =~= loads(va, digits@) + seq![
            Access::Read8 { addr: at(va, 26), val: flbas },
            format_load(va, flbas, shift),
        ]);
    }
    (nsze, shift)
}

/// The parts of a block read.
pub struct ReadRun {
    /// The size of the page.
    pub size: u64,
    pub va: u64,
    pub pa: u64,
    pub allow: Seq<Access>,
    pub allowed: bool,
    /// The coprocessor once the page is allowed.
    pub granted: AppleRtKit,
    pub command: Seq<Access>,
    pub result: DeviceResult<u64>,
    /// The coprocessor once the command is over.
    pub executed: AppleRtKit,
    pub withdraw: Seq<Access>,
    pub withdrawn: bool,
    /// The bytes that were copied out of the page.
    pub bytes: Seq<u8>,
}

/// The parts of a block write.
pub struct WriteRun {
    /// The size of the page.
    pub size: u64,
    pub va: u64,
    pub pa: u64,
    pub allow: Seq<Access>,
    pub allowed: bool,
    pub granted: AppleRtKit,
    /// The block is read first if a sector is only a part of it.
    pub fetch: Seq<Access>,
    pub fetch_result: DeviceResult<u64>,
    pub fetched: AppleRtKit,
    pub fetched_q: AppleAnsQueue,
    /// The bytes that were copied into the page.
    pub bytes: Seq<u8>,
    pub command: Seq<Access>,
    pub result: DeviceResult<u64>,
    pub executed: AppleRtKit,
    pub withdraw: Seq<Access>,
    pub withdrawn: bool,
}

/// The parts of the identification of a namespace.
pub struct IdentifyRun {
    /// The size of the page.
    pub size: u64,
    pub va: u64,
    pub pa: u64,
    pub allow: Seq<Access>,
    pub allowed: bool,
    pub granted: AppleRtKit,
    pub command: Seq<Access>,
    pub result: DeviceResult<u64>,
    pub executed: AppleRtKit,
    pub withdraw: Seq<Access>,
    pub withdrawn: bool,
    pub geometry: Seq<Access>,
    pub nsze: u64,
    pub shift: u8,
}

/// Whether a command succeeded, without its result.
pub open spec fn done<T>(res: DeviceResult<T>) -> DeviceResult<()> {
    match res {
        Ok(_) => Ok(()),
        Err(e) => Err(e),
    }
}

impl ReadRun {
    pub open spec fn trace(self, offset: u64) -> Seq<Access> {
        seq![Access::AllocDma { size: self.size, va: self.va, pa: self.pa }] + self.allow
            + self.command + self.withdraw + loads(at(self.va, offset), self.bytes) + seq![
            Access::DeallocDma { va: self.va, size: self.size },
        ]
    }
}

impl WriteRun {
    pub open spec fn trace(self, offset: u64) -> Seq<Access> {
        seq![Access::AllocDma { size: self.size, va: self.va, pa: self.pa }] + self.allow
            + self.fetch + stores(at(self.va, offset), self.bytes) + self.command + self.withdraw
            + seq![Access::DeallocDma { va: self.va, size: self.size }]
    }
}

impl IdentifyRun {
    pub open spec fn trace(self) -> Seq<Access> {
        seq![
            Access::AllocDma { size: self.size, va: self.va, pa: self.pa },
            Access::Zero { va: self.va, size: self.size },
        ] + self.allow + self.command + self.withdraw + self.geometry + seq![
            Access::DeallocDma { va: self.va, size: self.size },
        ]
    }
}

impl AppleAnsNvme {
    pub open spec fn wf(self) -> bool {
        &&& self.rtkit.wf()
        &&& self.admin_q.wf()
        &&& self.admin_q.is_admin
        &&& self.io_q.wf()
        &&& !self.io_q.is_admin
        &&& valid_block_size(self.block_size)
    }

    /// The logical block that holds sector `block_id`.
    pub open spec fn lba(self, block_id: u64) -> u64 {
        block_id / (self.block_size / SECTOR_SIZE)
    }

    /// Where sector `block_id` starts within its logical block.
    pub open spec fn lba_offset(self, block_id: u64) -> u64 {
        ((block_id % (self.block_size / SECTOR_SIZE)) * SECTOR_SIZE) as u64
    }

    /// The parts of `run` follow one another as reading sector `block_id` asks:
    /// a page is allocated and allowed, the logical block is read into it, the
    /// page is withdrawn, the sector is copied out if the command succeeded, and
    /// the page is released.
    pub open spec fn read_follows(
        self,
        after: Self,
        block_id: u64,
        buf: Seq<u8>,
        buf_after: Seq<u8>,
        run: ReadRun,
        res: DeviceResult<()>,
    ) -> bool {
        &&& run.size == self.page.bytes()
        &&& allows_page(self.rtkit, run.granted, run.pa, run.size, run.allow, run.allowed)
        &&& if run.allowed {
            &&& self.io_q.executes(
                after.io_q,
                run.granted,
                run.executed,
                self.phys_nvme_base,
                transfer(NVME_CMD_READ, run.pa, self.lba(block_id)),
                run.command,
                run.result,
            )
            &&& withdraws_page(
                run.executed,
                after.rtkit,
                run.pa,
                run.size,
                run.withdraw,
                run.withdrawn,
            )
            &&& run.bytes.len() == (if run.result is Err {
                0
            } else if buf.len() < SECTOR_SIZE {
                buf.len()
            } else {
                SECTOR_SIZE as nat
            })
            &&& buf_after == run.bytes + buf.skip(run.bytes.len() as int)
            &&& after == (AppleAnsNvme { io_q: after.io_q, rtkit: after.rtkit, ..self })
            &&& res == done(run.result)
        } else {
            &&& run.command.len() == 0
            &&& run.withdraw.len() == 0
            &&& run.bytes.len() == 0
            &&& buf_after == buf
            &&& after == (AppleAnsNvme { rtkit: run.granted, ..self })
            &&& res == Err::<(), DeviceError>(DeviceError::NotReady)
        }
    }

    /// What reading a sector leads to.
    pub open spec fn reads(
        self,
        after: Self,
        block_id: u64,
        buf: Seq<u8>,
        buf_after: Seq<u8>,
        trace: Seq<Access>,
        res: DeviceResult<()>,
    ) -> bool {
        exists|run: ReadRun|
            trace == run.trace(self.lba_offset(block_id)) && #[trigger] self.read_follows(
                after,
                block_id,
                buf,
                buf_after,
                run,
                res,
            )
    }

    /// The parts of `run` follow one another as writing sector `block_id` asks:
    /// as for a read, but the bytes are copied into the page before the block is
    /// written, and the block is fetched before that if it holds more than the
    /// one sector. If it cannot be fetched nothing is written, because the rest of
    /// the block would be lost.
    pub open spec fn write_follows(
        self,
        after: Self,
        block_id: u64,
        buf: Seq<u8>,
        run: WriteRun,
        res: DeviceResult<()>,
    ) -> bool {
        &&& run.size == self.page.bytes()
        &&& allows_page(self.rtkit, run.granted, run.pa, run.size, run.allow, run.allowed)
        &&& if run.allowed {
            &&& if self.block_size > SECTOR_SIZE {
                self.io_q.executes(
                    run.fetched_q,
                    run.granted,
                    run.fetched,
                    self.phys_nvme_base,
                    transfer(NVME_CMD_READ, run.pa, self.lba(block_id)),
                    run.fetch,
                    run.fetch_result,
                )
            } else {
                run.fetch.len() == 0 && run.fetched_q == self.io_q && run.fetched == run.granted
            }
            &&& if self.block_size > SECTOR_SIZE && run.fetch_result is Err {
                &&& run.bytes.len() == 0
                &&& run.command.len() == 0
                &&& run.executed == run.fetched
                &&& after.io_q == run.fetched_q
                &&& res == done(run.fetch_result)
            } else {
                &&& run.bytes == buf.take(
                    if buf.len() < SECTOR_SIZE {
                        buf.len() as int
                    } else {
                        SECTOR_SIZE as int
                    },
                )
                &&& run.fetched_q.executes(
                    after.io_q,
                    run.fetched,
                    run.executed,
                    self.phys_nvme_base,
                    transfer(NVME_CMD_WRITE, run.pa, self.lba(block_id)),
                    run.command,
                    run.result,
                )
                &&& res == done(run.result)
            }
            &&& withdraws_page(
                run.executed,
                after.rtkit,
                run.pa,
                run.size,
                run.withdraw,
                run.withdrawn,
            )
            &&& after == (AppleAnsNvme { io_q: after.io_q, rtkit: after.rtkit, ..self })
        } else {
            &&& run.fetch.len() == 0
            &&& run.bytes.len() == 0
            &&& run.command.len() == 0
            &&& run.withdraw.len() == 0
            &&& after == (AppleAnsNvme { rtkit: run.granted, ..self })
            &&& res == Err::<(), DeviceError>(DeviceError::NotReady)
        }
    }

    /// What writing a sector leads to.
    pub open spec fn writes(
        self,
        after: Self,
        block_id: u64,
        buf: Seq<u8>,
        trace: Seq<Access>,
        res: DeviceResult<()>,
    ) -> bool {
        exists|run: WriteRun|
            trace == run.trace(self.lba_offset(block_id)) && #[trigger] self.write_follows(
                after,
                block_id,
                buf,
                run,
                res,
            )
    }

    /// The parts of `run` follow one another as identifying a namespace asks.
    pub open spec fn identify_follows(
        self,
        after: Self,
        nsid: u32,
        run: IdentifyRun,
        res: DeviceResult<()>,
    ) -> bool {
        &&& run.size == self.page.bytes()
        &&& allows_page(self.rtkit, run.granted, run.pa, run.size, run.allow, run.allowed)
        &&& if run.allowed {
            &&& self.admin_q.executes(
                after.admin_q,
                run.granted,
                run.executed,
                self.phys_nvme_base,
                identify_command(nsid, run.pa),
                run.command,
                run.result,
            )
            &&& withdraws_page(
                run.executed,
                after.rtkit,
                run.pa,
                run.size,
                run.withdraw,
                run.withdrawn,
            )
            &&& if run.result is Ok {
                &&& reads_geometry(run.va, run.nsze, run.shift, run.geometry)
                &&& after == (AppleAnsNvme {
                    admin_q: after.admin_q,
                    rtkit: after.rtkit,
                    block_size: lba_size(run.shift),
                    block_count: sector_count(run.nsze, lba_size(run.shift)),
                    ..self
                })
            } else {
                &&& run.geometry.len() == 0
                &&& after == (AppleAnsNvme { admin_q: after.admin_q, rtkit: after.rtkit, ..self })
            }
            &&& res == done(run.result)
        } else {
            &&& run.command.len() == 0
            &&& run.withdraw.len() == 0
            &&& run.geometry.len() == 0
            &&& after == (AppleAnsNvme { rtkit: run.granted, ..self })
            &&& res == Err::<(), DeviceError>(DeviceError::NotReady)
        }
    }

    /// What identifying a namespace leads to.
    pub open spec fn identifies(
        self,
        after: Self,
        nsid: u32,
        trace: Seq<Access>,
        res: DeviceResult<()>,
    ) -> bool {
        exists|run: IdentifyRun|
            trace == run.trace() && #[trigger] self.identify_follows(after, nsid, run, res)
    }

    /// The device's name.
    pub fn name(&self) -> (name: &'static str)
        ensures
            name@ == "apple-ans-nvme"@,
    {
        "apple-ans-nvme"
    }

    /// Capacity in 512-byte sectors.
    pub fn block_count(&self) -> (count: u64)
        ensures
            count == self.block_count,
    {
        self.block_count
    }

    /// Reads up to 512 bytes of sector `block_id` into the front of `buf`.
    pub fn read_block<H: Hardware>(
        &mut self,
        bus: &mut Bus<H>,
        block_id: u64,
        buf: &mut [u8],
    ) -> (res: DeviceResult<()>)
        requires
            old(self).wf(),
        ensures
            final(self).wf(),
            extends(old(bus).log(), final(bus).log()),
            final(buf)@.len() == old(buf)@.len(),
            old(self).reads(
                *final(self),
                block_id,
                old(buf)@,
                final(buf)@,
                since(old(bus).log(), final(bus).log()),
                res,
            ),
    {
        let ghost l0 = bus.log();
        let ghost dev = *self;
        let ghost none = Seq::<Access>::empty();
        let size: u64 = self.page.bytes();
        let (va, pa): (u64, u64) = bus.alloc_dma(size);
        let ghost l1 = bus.log();
        let allowed: bool = self.rtkit.sart_add_allowed_region(bus, pa, size);
        let ghost l2 = bus.log();
        let ghost mut run = ReadRun {
            size,
            va,
            pa,
            allow: since(l1, l2),
            allowed,
            granted: self.rtkit,
            command: none,
            result: Err(DeviceError::NotReady),
            executed: self.rtkit,
            withdraw: none,
            withdrawn: false,
            bytes: Seq::empty(),
        };
        proof {
            lemma_since_one(l0, Access::AllocDma { size, va, pa });
            lemma_since_chain(l0, l1, l2);
        }
        if !allowed {
            bus.dealloc_dma(va, size);
            proof {
                lemma_since_one(l2, Access::DeallocDma { va, size });
                lemma_since_chain(l0, l2, bus.log());
                assert(run.trace(dev.lba_offset(block_id)) =~= since(l0, bus.log()));
                assert(dev.read_follows(
                    *self,
                    block_id,
                    buf@,
                    buf@,
                    run,
                    Err(DeviceError::NotReady),
                ));
            }
            return Err(DeviceError::NotReady);
        }
        let sectors_per_lba: u64 = self.block_size / SECTOR_SIZE;
        let lba: u64 = block_id / sectors_per_lba;
        assert(block_id % sectors_per_lba < sectors_per_lba <= 128);
        let lba_offset: u64 = (block_id % sectors_per_lba) * SECTOR_SIZE;
        let cmd: NvmeCommand = transfer(NVME_CMD_READ, pa, lba);
        let result: DeviceResult<u64> = self.io_q.exec_command(
            bus,
            self.phys_nvme_base,
            &cmd,
            &mut self.rtkit,
        );
        let ghost l3 = bus.log();
        let ghost executed = self.rtkit;
        let withdrawn: bool = self.rtkit.sart_remove_allowed_region(bus, pa, size);
        let ghost l4 = bus.log();
        let n: usize = if result.is_err() {
            0
        } else if buf.len() < 512 {
            buf.len()
        } else {
            512
        };
        let bytes: Vec<u8> = load_bytes(bus, address(va, lba_offset), n);
        let ghost l5 = bus.log();
        let ghost buf0 = buf@;
        let mut i: usize = 0;
        assert(buf@ =~= bytes@.take(0) + buf0.skip(0));
        while i < n
            invariant
                i <= n <= buf0.len(),
                n == bytes@.len(),
                buf@ == bytes@.take(i as int) + buf0.skip(i as int),
            decreases n - i,
        {
            buf[i] = bytes[i];
            assert(buf@ =~= bytes@.take(i + 1) + buf0.skip(i + 1));
            i += 1;
        }
        bus.dealloc_dma(va, size);
        let res: DeviceResult<()> = match result {
            Ok(_) => Ok(()),
            Err(e) => Err(e),
        };
        proof {
            lemma_since_chain(l0, l2, l3);
            lemma_since_chain(l0, l3, l4);
            lemma_since_add(l4, loads(at(va, lba_offset), bytes@));
            lemma_since_chain(l0, l4, l5);
            lemma_since_one(l5, Access::DeallocDma { va, size });
            lemma_since_chain(l0, l5, bus.log());
            run.command = since(l2, l3);
            run.result = result;
            run.executed = executed;
            run.withdraw = since(l3, l4);
            run.withdrawn = withdrawn;
            run.bytes = bytes@;
            assert(bytes@.take(n as int) =~= bytes@);
            assert(run.trace(dev.lba_offset(block_id)) == since(l0, bus.log()));
            assert(dev.read_follows(*self, block_id, buf0, buf@, run, res));
        }
        res
    }

    /// Writes up to 512 bytes from the front of `buf` to sector `block_id`.
    pub fn write_block<H: Hardware>(
        &mut self,
        bus: &mut Bus<H>,
        block_id: u64,
        buf: &[u8],
    ) -> (res: DeviceResult<()>)
        requires
            old(self).wf(),
        ensures
            final(self).wf(),
            extends(old(bus).log(), final(bus).log()),
            old(self).writes(
                *final(self),
                block_id,
                buf@,
                since(old(bus).log(), final(bus).log()),
                res,
            ),
    {
        let ghost l0 = bus.log();
        let ghost dev = *self;
        let ghost none = Seq::<Access>::empty();
        let size: u64 = self.page.bytes();
        let (va, pa): (u64, u64) = bus.alloc_dma(size);
        let ghost l1 = bus.log();
        let allowed: bool = self.rtkit.sart_add_allowed_region(bus, pa, size);
        let ghost l2 = bus.log();
        let ghost mut run = WriteRun {
            size,
            va,
            pa,
            allow: since(l1, l2),
            allowed,
            granted: self.rtkit,
            fetch: none,
            fetch_result: Err(DeviceError::NotReady),
            fetched: self.rtkit,
            fetched_q: self.io_q,
            bytes: Seq::empty(),
            command: none,
            result: Err(DeviceError::NotReady),
            executed: self.rtkit,
            withdraw: none,
            withdrawn: false,
        };
        proof {
            lemma_since_one(l0, Access::AllocDma { size, va, pa });
            lemma_since_chain(l0, l1, l2);
        }
        if !allowed {
            bus.dealloc_dma(va, size);
            proof {
                lemma_since_one(l2, Access::DeallocDma { va, size });
                lemma_since_chain(l0, l2, bus.log());
                assert(run.trace(dev.lba_offset(block_id)) =~= since(l0, bus.log()));
                assert(dev.write_follows(
                    *self,
                    block_id,
                    buf@,
                    run,
                    Err(DeviceError::NotReady),
                ));
            }
            return Err(DeviceError::NotReady);
        }
        let sectors_per_lba: u64 = self.block_size / SECTOR_SIZE;
        let lba: u64 = block_id / sectors_per_lba;
        assert(block_id % sectors_per_lba < sectors_per_lba <= 128);
        let lba_offset: u64 = (block_id % sectors_per_lba) * SECTOR_SIZE;
        proof {
            lemma_since_self(l2);
        }
        if self.block_size > SECTOR_SIZE {
            let read_cmd: NvmeCommand = transfer(NVME_CMD_READ, pa, lba);
            let fetch_result: DeviceResult<u64> = self.io_q.exec_command(
                bus,
                self.phys_nvme_base,
                &read_cmd,
                &mut self.rtkit,
            );
            proof {
                run.fetch_result = fetch_result;
            }
            if let Err(e) = fetch_result {
                let ghost l3 = bus.log();
                let ghost fetched = self.rtkit;
                let withdrawn: bool = self.rtkit.sart_remove_allowed_region(bus, pa, size);
                let ghost l4 = bus.log();
                bus.dealloc_dma(va, size);
                proof {
                    run.fetch = since(l2, l3);
                    run.fetched = fetched;
                    run.fetched_q = self.io_q;
                    run.executed = fetched;
                    run.withdraw = since(l3, l4);
                    run.withdrawn = withdrawn;
                    lemma_since_chain(l0, l2, l3);
                    lemma_since_chain(l0, l3, l4);
                    lemma_since_one(l4, Access::DeallocDma { va, size });
                    lemma_since_chain(l0, l4, bus.log());
                    assert(run.trace(dev.lba_offset(block_id)) =~= since(l0, bus.log()));
                    assert(dev.write_follows(*self, block_id, buf@, run, Err(e)));
                }
                return Err(e);
            }
        }
        let ghost l3 = bus.log();
        proof {
            run.fetch = since(l2, l3);
            run.fetched = self.rtkit;
            run.fetched_q = self.io_q;
            lemma_since_chain(l0, l2, l3);
        }
        let n: usize = if buf.len() < 512 {
            buf.len()
        } else {
            512
        };
        store_bytes(bus, address(va, lba_offset), buf, n);
        let ghost l4 = bus.log();
        proof {
            run.bytes = buf@.take(n as int);
            lemma_since_add(l3, stores(at(va, lba_offset), run.bytes));
            lemma_since_chain(l0, l3, l4);
        }
        let cmd: NvmeCommand = transfer(NVME_CMD_WRITE, pa, lba);
        let result: DeviceResult<u64> = self.io_q.exec_command(
            bus,
            self.phys_nvme_base,
            &cmd,
            &mut self.rtkit,
        );
        let ghost l5 = bus.log();
        let ghost executed = self.rtkit;
        let withdrawn: bool = self.rtkit.sart_remove_allowed_region(bus, pa, size);
        let ghost l6 = bus.log();
        bus.dealloc_dma(va, size);
        let res: DeviceResult<()> = match result {
            Ok(_) => Ok(()),
            Err(e) => Err(e),
        };
        proof {
            lemma_since_chain(l0, l4, l5);
            lemma_since_chain(l0, l5, l6);
            run.command = since(l4, l5);
            run.result = result;
            run.executed = executed;
            run.withdraw = since(l5, l6);
            run.withdrawn = withdrawn;
            lemma_since_one(l6, Access::DeallocDma { va, size });
            lemma_since_chain(l0, l6, bus.log());
            assert(run.trace(dev.lba_offset(block_id)) == since(l0, bus.log()));
            assert(dev.write_follows(*self, block_id, buf@, run, res));
        }
        res
    }

    /// Makes the device write its caches out.
    pub fn flush<H: Hardware>(&mut self, bus: &mut Bus<H>) -> (res: DeviceResult<()>)
        requires
            old(self).wf(),
        ensures
            final(self).wf(),
            extends(old(bus).log(), final(bus).log()),
            *final(self) == (AppleAnsNvme {
                io_q: final(self).io_q,
                rtkit: final(self).rtkit,
                ..*old(self)
            }),
            exists|result: DeviceResult<u64>|
                res == done(result) && #[trigger] old(self).io_q.executes(
                    final(self).io_q,
                    old(self).rtkit,
                    final(self).rtkit,
                    old(self).phys_nvme_base,
                    flush_command(),
                    since(old(bus).log(), final(bus).log()),
                    result,
                ),
    {
        let mut cmd: NvmeCommand = NvmeCommand::default();
        cmd.opcode = NVME_CMD_FLUSH;
        cmd.nsid = 1;
        assert(cmd == flush_command());
        let result: DeviceResult<u64> = self.io_q.exec_command(
            bus,
            self.phys_nvme_base,
            &cmd,
            &mut self.rtkit,
        );
        assert(old(self).io_q.executes(
            self.io_q,
            old(self).rtkit,
            self.rtkit,
            old(self).phys_nvme_base,
            flush_command(),
            since(old(bus).log(), bus.log()),
            result,
        ));
        match result {
            Ok(_) => Ok(()),
            Err(e) => Err(e),
        }
    }

    /// Asks for the description of a namespace and takes its geometry over.
    pub fn identify_namespace<H: Hardware>(&mut self, bus: &mut Bus<H>, nsid: u32) -> (res:
        DeviceResult<()>)
        requires
            old(self).wf(),
        ensures
            final(self).wf(),
            extends(old(bus).log(), final(bus).log()),
            old(self).identifies(
                *final(self),
                nsid,
                since(old(bus).log(), final(bus).log()),
                res,
            ),
    {
        let ghost l0 = bus.log();
        let ghost dev = *self;
        let ghost none = Seq::<Access>::empty();
        let size: u64 = self.page.bytes();
        let (va, pa): (u64, u64) = bus.alloc_dma(size);
        bus.zero(va, size);
        let ghost l1 = bus.log();
        let allowed: bool = self.rtkit.sart_add_allowed_region(bus, pa, size);
        let ghost l2 = bus.log();
        let ghost mut run = IdentifyRun {
            size,
            va,
            pa,
            allow: since(l1, l2),
            allowed,
            granted: self.rtkit,
            command: none,
            result: Err(DeviceError::NotReady),
            executed: self.rtkit,
            withdraw: none,
            withdrawn: false,
            geometry: none,
            nsze: 0,
            shift: 0,
        };
        let ghost head = seq![
            Access::AllocDma { size, va, pa },
            Access::Zero { va, size },
        ];
        proof {
            assert(l1 =~= l0 + head);
            lemma_since_add(l0, head);
            lemma_since_chain(l0, l1, l2);
        }
        if !allowed {
            bus.dealloc_dma(va, size);
            proof {
                lemma_since_one(l2, Access::DeallocDma { va, size });
                lemma_since_chain(l0, l2, bus.log());
                assert(run.trace() =~= since(l0, bus.log()));
                assert(dev.identify_follows(*self, nsid, run, Err(DeviceError::NotReady)));
            }
            return Err(DeviceError::NotReady);
        }
        let mut cmd: NvmeCommand = NvmeCommand::default();
        cmd.opcode = NVME_ADMIN_CMD_IDENTIFY;
        cmd.nsid = nsid;
        cmd.prp1 = pa;
        let result: DeviceResult<u64> = self.admin_q.exec_command(
            bus,
            self.phys_nvme_base,
            &cmd,
            &mut self.rtkit,
        );
        let ghost l3 = bus.log();
        let ghost executed = self.rtkit;
        let withdrawn: bool = self.rtkit.sart_remove_allowed_region(bus, pa, size);
        let ghost l4 = bus.log();
        proof {
            lemma_since_chain(l0, l2, l3);
            lemma_since_chain(l0, l3, l4);
            lemma_since_self(l4);
            run.command = since(l2, l3);
            run.result = result;
            run.executed = executed;
            run.withdraw = since(l3, l4);
            run.withdrawn = withdrawn;
        }
        if result.is_ok() {
            let (nsze, shift): (u64, u8) = read_geometry(bus, va);
            let block_size: u64 = lba_size(shift);
            let sectors_per_lba: u64 = block_size / SECTOR_SIZE;
            self.block_size = block_size;
            self.block_count = nsze.wrapping_mul(sectors_per_lba);
            proof {
                run.nsze = nsze;
                run.shift = shift;
            }
        }
        let ghost l5 = bus.log();
        bus.dealloc_dma(va, size);
        let res: DeviceResult<()> = match result {
            Ok(_) => Ok(()),
            Err(e) => Err(e),
        };
        proof {
            lemma_since_chain(l0, l4, l5);
            run.geometry = since(l4, l5);
            lemma_since_one(l5, Access::DeallocDma { va, size });
            lemma_since_chain(l0, l5, bus.log());
            assert(run.trace() == since(l0, bus.log()));
            assert(dev.identify_follows(*self, nsid, run, res));
        }
        res
    }
}

/// The register values that set the queues up and enable the controller, in the
/// order in which they are stored.
pub open spec fn setup_list(admin_q: AppleAnsQueue, io_q: AppleAnsQueue) -> Seq<(u64, u32, u64)> {
    seq![
        (NVME_REG_AQA, 4u32, 0x1_0001u64),
        (NVME_REG_ASQ, 8u32, admin_q.cmds_pa),
        (NVME_REG_ACQ, 8u32, admin_q.cqes_pa),
        (APPLE_ANS_LINEAR_SQ_CTRL, 4u32, APPLE_ANS_LINEAR_SQ_EN as u64),
        (APPLE_ANS_MAX_PEND_CMDS_CTRL, 4u32, 0x40_0040u64),
        (APPLE_NVMMU_NUM_TCBS, 4u32, 63u64),
        (APPLE_NVMMU_ASQ_TCB_BASE, 8u32, admin_q.tcbs_pa),
        (APPLE_NVMMU_IOSQ_TCB_BASE, 8u32, io_q.tcbs_pa),
        (NVME_REG_CC, 4u32, NVME_CC_RUN as u64),
    ]
}

/// The parts of an orderly shutdown of a running controller.
pub struct DisableRun {
    /// A normal shutdown is requested and waited for.
    pub request: Access,
    pub quiet: Seq<Access>,
    pub quieted: bool,
    /// The enable bit is cleared, and the controller stops being ready.
    pub cc: u32,
    pub clear: Access,
    pub stop: Seq<Access>,
}

impl DisableRun {
    pub open spec fn trace(self, base: u64) -> Seq<Access> {
        seq![self.request] + self.quiet + seq![
            Access::Read32 { addr: at(base, NVME_REG_CC), val: self.cc },
        ] + seq![self.clear] + self.stop
    }

    pub open spec fn follows(self, base: u64, phys_base: u64, cc: u32, stopped: bool) -> bool {
        &&& is_hv_write(
            self.request,
            at(phys_base, NVME_REG_CC),
            4,
            ((cc & !NVME_CC_SHN_MASK) | NVME_CC_SHN_NORMAL) as u64,
        )
        &&& poll_trace(
            self.quiet,
            at(base, NVME_REG_CSTS),
            NVME_CSTS_SHST_MASK,
            NVME_CSTS_SHST_DONE,
            false,
            SHUTDOWN_SPIN_TIMEOUT as nat,
            self.quieted,
        )
        &&& is_hv_write(
            self.clear,
            at(phys_base, NVME_REG_CC),
            4,
            (self.cc & !NVME_CC_EN) as u64,
        )
        &&& poll_trace(
            self.stop,
            at(base, NVME_REG_CSTS),
            NVME_CSTS_RDY,
            0,
            false,
            SHUTDOWN_SPIN_TIMEOUT as nat,
            stopped,
        )
    }
}

/// `trace` shuts a controller down whose configuration register holds `cc`. A
/// controller that does not confirm the shutdown is disabled all the same.
pub open spec fn disables(
    base: u64,
    phys_base: u64,
    cc: u32,
    trace: Seq<Access>,
    stopped: bool,
) -> bool {
    exists|run: DisableRun|
        trace == run.trace(base) && #[trigger] run.follows(base, phys_base, cc, stopped)
}

/// The parts of the controller's initialization, in order. A part that was not
/// reached is empty.
pub struct InitRun {
    pub cc: u32,
    pub csts: u32,
    pub disable: Seq<Access>,
    pub disabled: bool,
    pub setup: Seq<Access>,
    pub poll: Seq<Access>,
    pub ready: bool,
    pub create_cq: Seq<Access>,
    pub cq_result: DeviceResult<u64>,
    pub with_cq: AppleAnsNvme,
    pub create_sq: Seq<Access>,
    pub sq_result: DeviceResult<u64>,
    pub with_sq: AppleAnsNvme,
    pub identify: Seq<Access>,
}

impl InitRun {
    pub open spec fn trace(self, base: u64) -> Seq<Access> {
        seq![
            Access::Read32 { addr: at(base, NVME_REG_CC), val: self.cc },
            Access::Read32 { addr: at(base, NVME_REG_CSTS), val: self.csts },
        ] + self.disable + self.setup + self.poll + self.create_cq + self.create_sq
            + self.identify
    }
}

impl AppleAnsNvme {
    /// What executing an admin command leads to.
    pub open spec fn administers(
        self,
        after: Self,
        cmd: NvmeCommand,
        trace: Seq<Access>,
        res: DeviceResult<u64>,
    ) -> bool {
        &&& after == (AppleAnsNvme { admin_q: after.admin_q, rtkit: after.rtkit, ..self })
        &&& self.admin_q.executes(
            after.admin_q,
            self.rtkit,
            after.rtkit,
            self.phys_nvme_base,
            cmd,
            trace,
            res,
        )
    }

    /// The parts of `run` follow one another as initializing the controller asks:
    /// a running controller is shut down, the queues are set up and the controller
    /// enabled, the I/O queues are created, and the first namespace is identified.
    pub open spec fn init_follows(self, after: Self, run: InitRun, res: DeviceResult<()>) -> bool {
        &&& if run.cc & NVME_CC_EN != 0 {
            disables(self.nvme_base, self.phys_nvme_base, run.cc, run.disable, run.disabled)
        } else {
            run.disable.len() == 0 && run.disabled
        }
        &&& if run.disabled {
            &&& programs(self.phys_nvme_base, setup_list(self.admin_q, self.io_q), run.setup)
            &&& poll_trace(
                run.poll,
                at(self.nvme_base, NVME_REG_CSTS),
                NVME_CSTS_RDY,
                0,
                true,
                READY_SPIN_TIMEOUT as nat,
                run.ready,
            )
        } else {
            run.setup.len() == 0 && run.poll.len() == 0 && !run.ready
        }
        &&& if run.ready {
            self.administers(
                run.with_cq,
                create_cq_command(self.io_q.cqes_pa),
                run.create_cq,
                run.cq_result,
            )
        } else {
            &&& run.create_cq.len() == 0
            &&& run.with_cq == self
            &&& run.cq_result == Err::<u64, DeviceError>(DeviceError::NotReady)
        }
        &&& if run.cq_result is Ok {
            run.with_cq.administers(
                run.with_sq,
                create_sq_command(self.io_q.cmds_pa),
                run.create_sq,
                run.sq_result,
            )
        } else {
            &&& run.create_sq.len() == 0
            &&& run.with_sq == run.with_cq
            &&& run.sq_result == run.cq_result
        }
        &&& if run.sq_result is Ok {
            run.with_sq.identifies(after, 1, run.identify, res)
        } else {
            &&& run.identify.len() == 0
            &&& after == run.with_sq
            &&& res == done(run.sq_result)
        }
    }

    /// What initializing the controller leads to.
    #[verifier::opaque]
    pub open spec fn initializes(
        self,
        after: Self,
        trace: Seq<Access>,
        res: DeviceResult<()>,
    ) -> bool {
        exists|run: InitRun|
            trace == run.trace(self.nvme_base) && #[trigger] self.init_follows(after, run, res)
    }

    /// Stores a 32-bit register, through the hypervisor.
    pub fn write_reg<H: Hardware>(&self, bus: &mut Bus<H>, offset: u64, val: u32)
        ensures
            final(bus).log() == old(bus).log().push(final(bus).log().last()),
            is_hv_write(final(bus).log().last(), at(self.phys_nvme_base, offset), 4, val as u64),
    {
        hv_write(bus, address(self.phys_nvme_base, offset), 4, val as u64);
    }

    /// Stores a 64-bit register, through the hypervisor.
    pub fn write_reg64<H: Hardware>(&self, bus: &mut Bus<H>, offset: u64, val: u64)
        ensures
            final(bus).log() == old(bus).log().push(final(bus).log().last()),
            is_hv_write(final(bus).log().last(), at(self.phys_nvme_base, offset), 8, val),
    {
        hv_write(bus, address(self.phys_nvme_base, offset), 8, val);
    }

    /// Loads a 32-bit register.
    pub fn read_reg<H: Hardware>(&self, bus: &mut Bus<H>, offset: u64) -> (val: u32)
        ensures
            final(bus).log() == old(bus).log().push(
                Access::Read32 { addr: at(self.nvme_base, offset), val },
            ),
    {
        bus.read32(address(self.nvme_base, offset))
    }

    /// Shuts a running controller down. Returns whether it stopped.
    fn disable<H: Hardware>(&self, bus: &mut Bus<H>, cc: u32) -> (stopped: bool)
        ensures
            extends(old(bus).log(), final(bus).log()),
            disables(
                self.nvme_base,
                self.phys_nvme_base,
                cc,
                since(old(bus).log(), final(bus).log()),
                stopped,
            ),
    {
        let ghost l0 = bus.log();
        self.write_reg(bus, NVME_REG_CC, (cc & !NVME_CC_SHN_MASK) | NVME_CC_SHN_NORMAL);
        let ghost l1 = bus.log();
        let quieted: bool = poll_status(
            bus,
            address(self.nvme_base, NVME_REG_CSTS),
            NVME_CSTS_SHST_MASK,
            NVME_CSTS_SHST_DONE,
            false,
            SHUTDOWN_SPIN_TIMEOUT,
        );
        let ghost l2 = bus.log();
        let cc_now: u32 = self.read_reg(bus, NVME_REG_CC);
        let ghost l3 = bus.log();
        self.write_reg(bus, NVME_REG_CC, cc_now & !NVME_CC_EN);
        let ghost l4 = bus.log();
        let stopped: bool = poll_status(
            bus,
            address(self.nvme_base, NVME_REG_CSTS),
            NVME_CSTS_RDY,
            0,
            false,
            SHUTDOWN_SPIN_TIMEOUT,
        );
        proof {
            let run = DisableRun {
                request: l1.last(),
                quiet: since(l1, l2),
                quieted,
                cc: cc_now,
                clear: l4.last(),
                stop: since(l4, bus.log()),
            };
            lemma_since_one(l0, run.request);
            lemma_since_chain(l0, l1, l2);
            lemma_since_one(
                l2,
                Access::Read32 { addr: at(self.nvme_base, NVME_REG_CC), val: cc_now },
            );
            lemma_since_chain(l0, l2, l3);
            lemma_since_one(l3, run.clear);
            lemma_since_chain(l0, l3, l4);
            lemma_since_chain(l0, l4, bus.log());
            assert(run.trace(self.nvme_base) == since(l0, bus.log()));
            assert(run.follows(self.nvme_base, self.phys_nvme_base, cc, stopped));
        }
        stopped
    }

    /// Stores the register values that set the queues up and enable the
    /// controller.
    fn set_up<H: Hardware>(&self, bus: &mut Bus<H>)
        ensures
            extends(old(bus).log(), final(bus).log()),
            programs(
                self.phys_nvme_base,
                setup_list(self.admin_q, self.io_q),
                since(old(bus).log(), final(bus).log()),
            ),
    {
        let ghost start = bus.log();
        let aqa: u32 = (ADMIN_QUEUE_DEPTH as u32 - 1) * 0x1_0000 + (ADMIN_QUEUE_DEPTH as u32 - 1);
        self.write_reg(bus, NVME_REG_AQA, aqa);
        self.write_reg64(bus, NVME_REG_ASQ, self.admin_q.cmds_pa);
        self.write_reg64(bus, NVME_REG_ACQ, self.admin_q.cqes_pa);
        self.write_reg(bus, APPLE_ANS_LINEAR_SQ_CTRL, APPLE_ANS_LINEAR_SQ_EN);
        self.write_reg(
            bus,
            APPLE_ANS_MAX_PEND_CMDS_CTRL,
            ANS_QUEUE_DEPTH as u32 + ANS_QUEUE_DEPTH as u32 * 0x1_0000,
        );
        self.write_reg(bus, APPLE_NVMMU_NUM_TCBS, ANS_QUEUE_DEPTH as u32 - 1);
        self.write_reg64(bus, APPLE_NVMMU_ASQ_TCB_BASE, self.admin_q.tcbs_pa);
        self.write_reg64(bus, APPLE_NVMMU_IOSQ_TCB_BASE, self.io_q.tcbs_pa);
        self.write_reg(bus, NVME_REG_CC, NVME_CC_RUN);
        assert(bus.log().take(start.len() as int) =~= start);
    }

    /// Executes an admin command.
    fn administer<H: Hardware>(&mut self, bus: &mut Bus<H>, cmd: NvmeCommand) -> (res: DeviceResult<
        u64,
    >)
        requires
            old(self).wf(),
        ensures
            final(self).wf(),
            extends(old(bus).log(), final(bus).log()),
            old(self).administers(
                *final(self),
                cmd,
                since(old(bus).log(), final(bus).log()),
                res,
            ),
    {
        self.admin_q.exec_command(bus, self.phys_nvme_base, &cmd, &mut self.rtkit)
    }

    /// Brings the controller up: shuts it down if it is running, sets its queues
    /// up, creates the I/O queues, and takes the geometry of the first namespace
    /// over.
    pub fn init_controller<H: Hardware>(&mut self, bus: &mut Bus<H>) -> (res: DeviceResult<()>)
        requires
            old(self).wf(),
        ensures
            final(self).wf(),
            extends(old(bus).log(), final(bus).log()),
            old(self).initializes(*final(self), since(old(bus).log(), final(bus).log()), res),
    {
        let ghost l0 = bus.log();
        let ghost dev = *self;
        let ghost none = Seq::<Access>::empty();
        let ghost not_ready = Err::<u64, DeviceError>(DeviceError::NotReady);
        proof {
            reveal(AppleAnsNvme::initializes);
        }
        let cc: u32 = self.read_reg(bus, NVME_REG_CC);
        let csts: u32 = self.read_reg(bus, NVME_REG_CSTS);
        let ghost l1 = bus.log();
        let ghost head = seq![
            Access::Read32 { addr: at(dev.nvme_base, NVME_REG_CC), val: cc },
            Access::Read32 { addr: at(dev.nvme_base, NVME_REG_CSTS), val: csts },
        ];
        proof {
            assert(l1 =~= l0 + head);
            lemma_since_add(l0, head);
            lemma_since_self(l1);
        }
        let disabled: bool = if cc & NVME_CC_EN != 0 {
            self.disable(bus, cc)
        } else {
            true
        };
        let ghost l2 = bus.log();
        let ghost mut run = InitRun {
            cc,
            csts,
            disable: since(l1, l2),
            disabled,
            setup: none,
            poll: none,
            ready: false,
            create_cq: none,
            cq_result: not_ready,
            with_cq: dev,
            create_sq: none,
            sq_result: not_ready,
            with_sq: dev,
            identify: none,
        };
        proof {
            lemma_since_chain(l0, l1, l2);
            if !disabled {
                assert(run.trace(dev.nvme_base) =~= since(l0, l2));
                assert(dev.init_follows(*self, run, Err(DeviceError::NotReady)));
            }
        }
        if !disabled {
            return Err(DeviceError::NotReady);
        }
        self.set_up(bus);
        let ghost l3 = bus.log();
        let ready: bool = poll_status(
            bus,
            address(self.nvme_base, NVME_REG_CSTS),
            NVME_CSTS_RDY,
            0,
            true,
            READY_SPIN_TIMEOUT,
        );
        let ghost l4 = bus.log();
        proof {
            lemma_since_chain(l0, l2, l3);
            lemma_since_chain(l0, l3, l4);
            run.setup = since(l2, l3);
            run.poll = since(l3, l4);
            run.ready = ready;
            if !ready {
                assert(run.trace(dev.nvme_base) =~= since(l0, l4));
                assert(dev.init_follows(*self, run, Err(DeviceError::NotReady)));
            }
        }
        if !ready {
            return Err(DeviceError::NotReady);
        }
        let cqes_pa: u64 = self.io_q.cqes_pa;
        let cmds_pa: u64 = self.io_q.cmds_pa;
        let mut create_cq: NvmeCommand = NvmeCommand::default();
        create_cq.opcode = NVME_ADMIN_CMD_CREATE_CQ;
        create_cq.prp1 = cqes_pa;
        create_cq.cdw10 = (ANS_QUEUE_DEPTH as u32 - 1) * 0x1_0000 + 1;
        create_cq.cdw11 = 3;
        assert(create_cq == create_cq_command(cqes_pa));
        let cq_result: DeviceResult<u64> = self.administer(bus, create_cq);
        let ghost l5 = bus.log();
        proof {
            lemma_since_chain(l0, l4, l5);
            run.create_cq = since(l4, l5);
            run.cq_result = cq_result;
            run.with_cq = *self;
            run.with_sq = *self;
            run.sq_result = cq_result;
            if cq_result is Err {
                assert(run.trace(dev.nvme_base) =~= since(l0, l5));
                assert(dev.init_follows(*self, run, done(cq_result)));
            }
        }
        if let Err(e) = cq_result {
            return Err(e);
        }
        let mut create_sq: NvmeCommand = NvmeCommand::default();
        create_sq.opcode = NVME_ADMIN_CMD_CREATE_SQ;
        create_sq.prp1 = cmds_pa;
        create_sq.cdw10 = (ANS_QUEUE_DEPTH as u32 - 1) * 0x1_0000 + 1;
        create_sq.cdw11 = 0x1_0001;
        assert(create_sq == create_sq_command(cmds_pa));
        let sq_result: DeviceResult<u64> = self.administer(bus, create_sq);
        let ghost l6 = bus.log();
        proof {
            lemma_since_chain(l0, l5, l6);
            run.create_sq = since(l5, l6);
            run.sq_result = sq_result;
            run.with_sq = *self;
            if sq_result is Err {
                assert(run.trace(dev.nvme_base) =~= since(l0, l6));
                assert(dev.init_follows(*self, run, done(sq_result)));
            }
        }
        if let Err(e) = sq_result {
            return Err(e);
        }
        let res: DeviceResult<()> = self.identify_namespace(bus, 1);
        proof {
            lemma_since_chain(l0, l6, bus.log());
            run.identify = since(l6, bus.log());
            assert(run.trace(dev.nvme_base) == since(l0, bus.log()));
            assert(dev.init_follows(*self, run, res));
        }
        res
    }
}

/// One look at the boot status that did not find the firmware up; coprocessor
/// messages are served after it.
pub struct StatusLook {
    pub status: u32,
    pub before: AppleRtKit,
    pub after: AppleRtKit,
    pub drained: Seq<Access>,
    pub alive: bool,
}

impl StatusLook {
    pub open spec fn trace(self, base: u64) -> Seq<Access> {
        seq![Access::Read32 { addr: at(base, APPLE_ANS_BOOT_STATUS), val: self.status }]
            + self.drained
    }

    pub open spec fn taken(self) -> bool {
        &&& self.status != APPLE_ANS_BOOT_STATUS_OK
        &&& self.before.drains(self.after, self.drained, self.alive)
    }
}

/// `trace` is made up of looks at the boot status, none of which found the
/// firmware up.
pub open spec fn status_awaited(
    first: AppleRtKit,
    looks: Seq<StatusLook>,
    last: AppleRtKit,
    base: u64,
    trace: Seq<Access>,
) -> bool
    decreases looks.len(),
{
    if looks.len() == 0 {
        last == first && trace.len() == 0
    } else {
        let look = looks.last();
        let n = trace.len() - look.trace(base).len();
        &&& look.taken()
        &&& look.after == last
        &&& n >= 0
        &&& trace.skip(n) == look.trace(base)
        &&& status_awaited(first, looks.drop_last(), look.before, base, trace.take(n))
    }
}

/// What waiting for the firmware leads to.
#[verifier::opaque]
pub open spec fn awaits_firmware(
    before: AppleRtKit,
    after: AppleRtKit,
    base: u64,
    trace: Seq<Access>,
    up: bool,
) -> bool {
    exists|looks: Seq<StatusLook>, n: int|
        {
            &&& 0 <= n <= trace.len()
            &&& #[trigger] status_awaited(before, looks, after, base, trace.take(n))
            &&& if up {
                &&& looks.len() <= BOOT_STATUS_SPIN_TIMEOUT
                &&& trace.skip(n) == seq![
                    Access::Read32 {
                        addr: at(base, APPLE_ANS_BOOT_STATUS),
                        val: APPLE_ANS_BOOT_STATUS_OK,
                    },
                ]
            } else {
                looks.len() == BOOT_STATUS_SPIN_TIMEOUT + 1 && n == trace.len()
            }
        }
}

/// `trace` allows each of `pages`, of `size` bytes each, in order.
pub open spec fn pages_allowed(
    before: AppleRtKit,
    pages: Seq<u64>,
    size: u64,
    after: AppleRtKit,
    trace: Seq<Access>,
) -> bool
    decreases pages.len(),
{
    if pages.len() == 0 {
        after == before && trace.len() == 0
    } else {
        exists|mid: AppleRtKit, n: int|
            {
                &&& 0 <= n <= trace.len()
                &&& #[trigger] allows_page(mid, after, pages.last(), size, trace.skip(n), true)
                &&& pages_allowed(before, pages.drop_last(), size, mid, trace.take(n))
            }
    }
}

/// What allowing each of `pages` leads to; it ends at the first page for which
/// there is no room.
#[verifier::opaque]
pub open spec fn allows_pages(
    before: AppleRtKit,
    pages: Seq<u64>,
    size: u64,
    after: AppleRtKit,
    trace: Seq<Access>,
    ok: bool,
) -> bool {
    if ok {
        pages_allowed(before, pages, size, after, trace)
    } else {
        exists|k: int, n: int, mid: AppleRtKit|
            {
                &&& 0 <= k < pages.len()
                &&& 0 <= n <= trace.len()
                &&& #[trigger] pages_allowed(before, pages.take(k), size, mid, trace.take(n))
                &&& allows_page(mid, after, pages[k], size, trace.skip(n), false)
            }
    }
}

/// The rings that the controller must reach for as long as the driver lives.
pub open spec fn ring_pages(admin_q: AppleAnsQueue, io_q: AppleAnsQueue) -> Seq<u64> {
    seq![
        admin_q.tcbs_pa,
        admin_q.cmds_pa,
        admin_q.cqes_pa,
        io_q.tcbs_pa,
        io_q.cmds_pa,
        io_q.cqes_pa,
    ]
}

/// `trace` reads the flags of every SART entry, and `sart` takes those in use for
/// firmware's.
pub open spec fn surveys_sart(
    sart: AppleSart,
    base: u64,
    phys_base: u64,
    trace: Seq<Access>,
) -> bool {
    &&& sart.base() == base
    &&& sart.phys_base() == phys_base
    &&& trace.len() == MAX_ENTRIES
    &&& forall|i: int|
        0 <= i < MAX_ENTRIES ==> {
            &&& !sart.is_used(i)
            &&& #[trigger] trace[i] matches Access::Read32 { addr, val } && addr
                == crate::soc::apple_sart::entry_reg(base, CONFIG_BASE, i) && sart.is_protected(i)
                == (val & 0xff != 0)
        }
}

/// The size of page frames, and the addresses of the four register windows, virtual
/// and physical.
#[derive(Clone, Copy)]
pub struct AnsWindows {
    pub page: PageSize,
    pub nvme_base: u64,
    pub phys_nvme_base: u64,
    pub ans_base: u64,
    pub phys_ans_base: u64,
    pub mbox_base: u64,
    pub phys_mbox_base: u64,
    pub sart_base: u64,
    pub phys_sart_base: u64,
}

/// The parts of bringing the device up from scratch. A part that was not reached
/// is empty.
pub struct BringUpRun {
    pub park: Access,
    pub survey: Seq<Access>,
    pub rtkit: AppleRtKit,
    pub boot: Seq<Access>,
    pub booted: bool,
    pub boot_rtkit: AppleRtKit,
    pub firmware: Seq<Access>,
    pub up: bool,
    /// The device as it is before its controller is initialized.
    pub dev: AppleAnsNvme,
    pub rings: Seq<Access>,
    pub allow: Seq<Access>,
    pub allowed: bool,
    pub granted: AppleRtKit,
    pub init: Seq<Access>,
    pub init_res: DeviceResult<()>,
    pub dev_after: AppleAnsNvme,
    /// The rings are released when the device cannot be used.
    pub release: Seq<Access>,
}

impl BringUpRun {
    pub open spec fn trace(self) -> Seq<Access> {
        seq![self.park] + seq![Access::ResetDomain] + self.survey + self.boot + self.firmware
            + self.rings + self.allow + self.init + self.release
    }

    /// The parts follow one another: the coprocessor is parked and reset, it is
    /// booted afresh, its firmware is waited for, the queues are allocated and
    /// allowed, and the controller is initialized.
    pub open spec fn follows(self, w: AnsWindows, res: DeviceResult<AppleAnsNvme>) -> bool {
        let not_ready = Err::<AppleAnsNvme, DeviceError>(DeviceError::NotReady);
        &&& is_hv_write(self.park, at(w.phys_ans_base, APPLE_ANS_COPROC_CPU_CONTROL), 4, 0)
        &&& surveys_sart(self.rtkit.sart, w.sart_base, w.phys_sart_base, self.survey)
        &&& self.rtkit.mailbox.base() == w.mbox_base
        &&& self.rtkit.mailbox.phys_base() == w.phys_mbox_base
        &&& self.rtkit.page == w.page
        &&& self.rtkit.is_fresh()
        &&& self.rtkit.boots(self.boot_rtkit, w.ans_base, w.phys_ans_base, self.boot, self.booted)
        &&& if self.booted {
            awaits_firmware(self.boot_rtkit, self.dev.rtkit, w.nvme_base, self.firmware, self.up)
        } else {
            self.firmware.len() == 0 && !self.up
        }
        &&& if self.up {
            &&& self.dev.page == w.page
            &&& self.dev.nvme_base == w.nvme_base
            &&& self.dev.phys_nvme_base == w.phys_nvme_base
            &&& self.dev.ans_base == w.ans_base
            &&& self.dev.block_count == 0
            &&& self.dev.block_size == 4096
            &&& self.dev.admin_q.is_new(true, w.page)
            &&& self.dev.io_q.is_new(false, w.page)
            &&& self.rings == self.dev.admin_q.allocated() + self.dev.io_q.allocated()
            &&& allows_pages(
                self.dev.rtkit,
                ring_pages(self.dev.admin_q, self.dev.io_q),
                w.page.bytes(),
                self.granted,
                self.allow,
                self.allowed,
            )
            &&& if self.allowed {
                AppleAnsNvme { rtkit: self.granted, ..self.dev }.initializes(
                    self.dev_after,
                    self.init,
                    self.init_res,
                )
            } else {
                &&& self.init.len() == 0
                &&& self.init_res == Err::<(), DeviceError>(DeviceError::NotReady)
            }
            &&& match self.init_res {
                Ok(_) => self.release.len() == 0 && res == Ok::<AppleAnsNvme, DeviceError>(
                    self.dev_after,
                ),
                Err(e) => self.release == self.dev.admin_q.released() + self.dev.io_q.released()
                    && res == Err::<AppleAnsNvme, DeviceError>(e),
            }
        } else {
            &&& self.rings.len() == 0
            &&& self.allow.len() == 0
            &&& self.init.len() == 0
            &&& self.release.len() == 0
            &&& res == not_ready
        }
    }
}

/// What bringing the device up leads to.
pub open spec fn brings_up(
    w: AnsWindows,
    trace: Seq<Access>,
    res: DeviceResult<AppleAnsNvme>,
) -> bool {
    exists|run: BringUpRun| trace == run.trace() && #[trigger] run.follows(w, res)
}

/// Waits for the firmware to report that it is up, serving coprocessor messages.
fn await_firmware<H: Hardware>(bus: &mut Bus<H>, rtkit: &mut AppleRtKit, nvme_base: u64) -> (up:
    bool)
    requires
        old(rtkit).wf(),
    ensures
        final(rtkit).wf(),
        extends(old(bus).log(), final(bus).log()),
        awaits_firmware(
            *old(rtkit),
            *final(rtkit),
            nvme_base,
            since(old(bus).log(), final(bus).log()),
            up,
        ),
{
    let ghost start = bus.log();
    let ghost first = *rtkit;
    let ghost mut looks: Seq<StatusLook> = Seq::empty();
    proof {
        lemma_since_self(start);
    }
    let mut spins: u64 = 0;
    loop
        invariant
            start == old(bus).log(),
            first == *old(rtkit),
            rtkit.wf(),
            extends(start, bus.log()),
            spins <= BOOT_STATUS_SPIN_TIMEOUT,
            looks.len() == spins,
            status_awaited(first, looks, *rtkit, nvme_base, since(start, bus.log())),
        decreases BOOT_STATUS_SPIN_TIMEOUT - spins,
    {
        proof {
            reveal(awaits_firmware);
        }
        let ghost before = bus.log();
        let ghost mid = *rtkit;
        let status: u32 = bus.read32(address(nvme_base, APPLE_ANS_BOOT_STATUS));
        let ghost read = bus.log();
        let ghost load = Access::Read32 {
            addr: at(nvme_base, APPLE_ANS_BOOT_STATUS),
            val: status,
        };
        proof {
            lemma_since_one(before, load);
            lemma_since_chain(start, before, read);
        }
        if status == APPLE_ANS_BOOT_STATUS_OK {
            proof {
                let trace = since(start, read);
                let n = since(start, before).len() as int;
                assert(status_awaited(first, looks, *rtkit, nvme_base, trace.take(n)));
            }
            return true;
        }
        let alive: bool = rtkit.poll(bus);
        proof {
            lemma_since_chain(before, read, bus.log());
            lemma_since_chain(start, before, bus.log());
            let look = StatusLook {
                status,
                before: mid,
                after: *rtkit,
                drained: since(read, bus.log()),
                alive,
            };
            let trace = since(start, bus.log());
            let more = looks.push(look);
            assert(more.drop_last() =~= looks);
            assert(look.trace(nvme_base) == since(before, bus.log()));
            assert(status_awaited(first, more, *rtkit, nvme_base, trace));
            looks = more;
            let n = trace.len() as int;
            assert(trace.take(n) =~= trace);
            assert(status_awaited(first, more, *rtkit, nvme_base, trace.take(n)));
        }
        spins += 1;
        if spins > BOOT_STATUS_SPIN_TIMEOUT {
            return false;
        }
        bus.spin_loop();
    }
}

/// Allows the rings for the coprocessor's DMA.
fn allow_rings<H: Hardware>(
    bus: &mut Bus<H>,
    rtkit: &mut AppleRtKit,
    admin_q: &AppleAnsQueue,
    io_q: &AppleAnsQueue,
    size: u64,
) -> (ok: bool)
    requires
        old(rtkit).wf(),
    ensures
        final(rtkit).wf(),
        extends(old(bus).log(), final(bus).log()),
        allows_pages(
            *old(rtkit),
            ring_pages(*admin_q, *io_q),
            size,
            *final(rtkit),
            since(old(bus).log(), final(bus).log()),
            ok,
        ),
{
    let ghost start = bus.log();
    let ghost first = *rtkit;
    proof {
        lemma_since_self(start);
    }
    let pages: [u64; 6] = [
        admin_q.tcbs_pa,
        admin_q.cmds_pa,
        admin_q.cqes_pa,
        io_q.tcbs_pa,
        io_q.cmds_pa,
        io_q.cqes_pa,
    ];
    assert(pages@ =~= ring_pages(*admin_q, *io_q));
    let mut i: usize = 0;
    while i < 6
        invariant
            start == old(bus).log(),
            first == *old(rtkit),
            rtkit.wf(),
            i <= 6,
            pages@ == ring_pages(*admin_q, *io_q),
            extends(start, bus.log()),
            pages_allowed(first, pages@.take(i as int), size, *rtkit, since(start, bus.log())),
        decreases 6 - i,
    {
        proof {
            reveal(allows_pages);
        }
        let ghost before = bus.log();
        let ghost mid = *rtkit;
        let ok: bool = rtkit.sart_add_allowed_region(bus, pages[i], size);
        proof {
            lemma_since_chain(start, before, bus.log());
            let trace = since(start, bus.log());
            let n = since(start, before).len() as int;
            if ok {
                let more = pages@.take(i + 1);
                assert(more.drop_last() =~= pages@.take(i as int));
                assert(more.last() == pages@[i as int]);
                assert(allows_page(mid, *rtkit, more.last(), size, trace.skip(n), true));
                assert(pages_allowed(first, more, size, *rtkit, trace));
            } else {
                assert(pages_allowed(first, pages@.take(i as int), size, mid, trace.take(n)));
                assert(allows_page(mid, *rtkit, pages@[i as int], size, trace.skip(n), false));
            }
        }
        if !ok {
            return false;
        }
        i += 1;
    }
    proof {
        reveal(allows_pages);
        assert(pages@.take(6) =~= pages@);
    }
    true
}

impl AppleAnsNvme {
    /// Brings the device up from scratch.
    ///
    /// The coprocessor is always parked and reset first, never adopted from an
    /// earlier owner: firmware state that such an owner left behind would make it
    /// panic when its queues are created again.
    #[verifier::rlimit(20)]
    pub fn new<H: Hardware>(bus: &mut Bus<H>, w: AnsWindows) -> (res: DeviceResult<Self>)
        ensures
            res matches Ok(dev) ==> dev.wf(),
            extends(old(bus).log(), final(bus).log()),
            brings_up(w, since(old(bus).log(), final(bus).log()), res),
    {
        let ghost l0 = bus.log();
        let ghost none = Seq::<Access>::empty();
        hv_write(bus, address(w.phys_ans_base, APPLE_ANS_COPROC_CPU_CONTROL), 4, 0);
        let ghost l1 = bus.log();
        bus.reset_domain();
        let ghost l2 = bus.log();
        let mailbox: AppleMailbox = AppleMailbox::new(w.mbox_base, w.phys_mbox_base);
        let sart: AppleSart = AppleSart::new(bus, w.sart_base, w.phys_sart_base);
        let ghost l3 = bus.log();
        let mut rtkit: AppleRtKit = AppleRtKit::new(mailbox, sart, w.page);
        let ghost fresh = rtkit;
        let booted: bool = rtkit.boot(bus, w.ans_base, w.phys_ans_base);
        let ghost l4 = bus.log();
        let ghost some_dev: AppleAnsNvme = arbitrary();
        let ghost mut run = BringUpRun {
            park: l1.last(),
            survey: since(l2, l3),
            rtkit: fresh,
            boot: since(l3, l4),
            booted,
            boot_rtkit: rtkit,
            firmware: none,
            up: false,
            dev: some_dev,
            rings: none,
            allow: none,
            allowed: false,
            granted: rtkit,
            init: none,
            init_res: Err(DeviceError::NotReady),
            dev_after: some_dev,
            release: none,
        };
        proof {
            lemma_since_one(l0, l1.last());
            lemma_since_one(l1, Access::ResetDomain);
            lemma_since_chain(l0, l1, l2);
            lemma_since_chain(l0, l2, l3);
            lemma_since_chain(l0, l3, l4);
            if !booted {
                assert(run.trace() =~= since(l0, l4));
                assert(run.follows(w, Err(DeviceError::NotReady)));
            }
        }
        if !booted {
            return Err(DeviceError::NotReady);
        }
        let up: bool = await_firmware(bus, &mut rtkit, w.nvme_base);
        let ghost l5 = bus.log();
        proof {
            lemma_since_chain(l0, l4, l5);
            run.firmware = since(l4, l5);
            run.up = up;
            run.dev.rtkit = rtkit;
            if !up {
                assert(run.trace() =~= since(l0, l5));
                assert(run.follows(w, Err(DeviceError::NotReady)));
            }
        }
        if !up {
            return Err(DeviceError::NotReady);
        }
        let admin_q: AppleAnsQueue = AppleAnsQueue::new(bus, true, w.page);
        let ghost l6a = bus.log();
        let io_q: AppleAnsQueue = AppleAnsQueue::new(bus, false, w.page);
        let ghost l6 = bus.log();
        let mut dev: AppleAnsNvme = AppleAnsNvme {
            page: w.page,
            nvme_base: w.nvme_base,
            phys_nvme_base: w.phys_nvme_base,
            ans_base: w.ans_base,
            rtkit,
            admin_q,
            io_q,
            block_count: 0,
            block_size: 4096,
        };
        proof {
            lemma_since_chain(l5, l6a, l6);
            lemma_since_chain(l0, l5, l6);
            run.dev = dev;
            run.rings = since(l5, l6);
        }
        let allowed: bool = allow_rings(
            bus,
            &mut dev.rtkit,
            &dev.admin_q,
            &dev.io_q,
            w.page.bytes(),
        );
        let ghost l7 = bus.log();
        proof {
            lemma_since_chain(l0, l6, l7);
            lemma_since_self(l7);
            run.allow = since(l6, l7);
            run.allowed = allowed;
            run.granted = dev.rtkit;
        }
        let ghost before = dev;
        let init_res: DeviceResult<()> = if allowed {
            dev.init_controller(bus)
        } else {
            Err(DeviceError::NotReady)
        };
        let ghost l8 = bus.log();
        proof {
            lemma_since_chain(l0, l7, l8);
            run.init = since(l7, l8);
            run.init_res = init_res;
            run.dev_after = dev;
            if allowed {
                lemma_init_keeps_rings(before, dev, run.init, init_res);
            }
        }
        match init_res {
            Ok(_) => {
                proof {
                    assert(run.trace() =~= since(l0, l8));
                    assert(run.follows(w, Ok(dev)));
                }
                Ok(dev)
            },
            Err(e) => {
                dev.admin_q.release(bus);
                dev.io_q.release(bus);
                proof {
                    run.release = run.dev.admin_q.released() + run.dev.io_q.released();
                    assert(bus.log() =~= l8 + run.release);
                    lemma_since_add(l8, run.release);
                    lemma_since_chain(l0, l8, bus.log());
                    assert(run.trace() == since(l0, bus.log()));
                    assert(run.follows(w, Err(e)));
                }
                Err(e)
            },
        }
    }
}

/// Executing a command leaves the queue's rings where they are.
proof fn lemma_exec_keeps_rings(
    before: AppleAnsQueue,
    after: AppleAnsQueue,
    rtkit: AppleRtKit,
    rtkit_after: AppleRtKit,
    phys_base: u64,
    cmd: NvmeCommand,
    trace: Seq<Access>,
    res: DeviceResult<u64>,
)
    requires
        before.executes(after, rtkit, rtkit_after, phys_base, cmd, trace, res),
    ensures
        after.released() == before.released(),
{
}

/// Initializing the controller leaves the queues' rings where they are.
proof fn lemma_init_keeps_rings(
    before: AppleAnsNvme,
    after: AppleAnsNvme,
    trace: Seq<Access>,
    res: DeviceResult<()>,
)
    requires
        before.initializes(after, trace, res),
    ensures
        after.admin_q.released() == before.admin_q.released(),
        after.io_q.released() == before.io_q.released(),
{
    reveal(AppleAnsNvme::initializes);
    let run = choose|run: InitRun|
        trace == run.trace(before.nvme_base) && #[trigger] before.init_follows(after, run, res);
    if run.ready {
        lemma_exec_keeps_rings(
            before.admin_q,
            run.with_cq.admin_q,
            before.rtkit,
            run.with_cq.rtkit,
            before.phys_nvme_base,
            create_cq_command(before.io_q.cqes_pa),
            run.create_cq,
            run.cq_result,
        );
    }
    if run.cq_result is Ok {
        lemma_exec_keeps_rings(
            run.with_cq.admin_q,
            run.with_sq.admin_q,
            run.with_cq.rtkit,
            run.with_sq.rtkit,
            before.phys_nvme_base,
            create_sq_command(before.io_q.cmds_pa),
            run.create_sq,
            run.sq_result,
        );
    }
    if run.sq_result is Ok {
        let ident = choose|ident: IdentifyRun|
            run.identify == ident.trace() && #[trigger] run.with_sq.identify_follows(
                after,
                1,
                ident,
                res,
            );
        if ident.allowed {
            lemma_exec_keeps_rings(
                run.with_sq.admin_q,
                after.admin_q,
                ident.granted,
                ident.executed,
                before.phys_nvme_base,
                identify_command(1, ident.pa),
                ident.command,
                ident.result,
            );
        }
    }
}

/// The page that a sector is moved through is always released, last of all, however
/// the transfer ends.
pub proof fn law_page_is_released(
    before: AppleAnsNvme,
    after: AppleAnsNvme,
    block_id: u64,
    buf: Seq<u8>,
    buf_after: Seq<u8>,
    trace: Seq<Access>,
    res: DeviceResult<()>,
)
    requires
        before.reads(after, block_id, buf, buf_after, trace, res) || before.writes(
            after,
            block_id,
            buf,
            trace,
            res,
        ),
    ensures
        trace.len() >= 2,
        trace[0] matches Access::AllocDma { size, va, pa } && size == before.page.bytes()
            && trace.last() == (Access::DeallocDma { va, size }),
{
}

/// A sector that is a part of its block is written only after the whole block was
/// fetched, so that the other sectors of the block are written back as they were.
pub proof fn law_block_is_fetched_before_it_is_written(
    before: AppleAnsNvme,
    after: AppleAnsNvme,
    block_id: u64,
    buf: Seq<u8>,
    trace: Seq<Access>,
    res: DeviceResult<()>,
)
    requires
        before.writes(after, block_id, buf, trace, res),
        before.block_size > SECTOR_SIZE,
    ensures
        exists|run: WriteRun|
            {
                &&& trace == run.trace(before.lba_offset(block_id))
                &&& #[trigger] before.write_follows(after, block_id, buf, run, res)
                &&& run.command.len() > 0 || res is Ok ==> run.allowed && run.fetch_result is Ok
            },
{
    let run = choose|run: WriteRun|
        trace == run.trace(before.lba_offset(block_id)) && #[trigger] before.write_follows(
            after,
            block_id,
            buf,
            run,
            res,
        );
    assert(run.command.len() > 0 || res is Ok ==> run.allowed && run.fetch_result is Ok);
}

/// Every sector has a place of its own on the medium: blocks follow one another, and
/// so do the sectors within a block. A sector never reaches into the next block.
pub proof fn law_sector_place(dev: AppleAnsNvme, block_id: u64)
    requires
        dev.wf(),
    ensures
        dev.lba(block_id) * dev.block_size + dev.lba_offset(block_id) == block_id * SECTOR_SIZE,
        dev.lba_offset(block_id) + SECTOR_SIZE <= dev.block_size,
{
    let per_lba = (dev.block_size / SECTOR_SIZE) as int;
    let id = block_id as int;
    assert(dev.block_size == per_lba * 512);
    vstd::arithmetic::div_mod::lemma_fundamental_div_mod(id, per_lba);
    let lba = id / per_lba;
    let rest = id % per_lba;
    assert(lba * (per_lba * 512) + rest * 512 == id * 512) by (nonlinear_arith)
        requires
            id == per_lba * lba + rest,
    ;
    assert(0 <= rest < per_lba);
}

/// Different sectors are at different places.
pub proof fn law_sectors_are_apart(dev: AppleAnsNvme, a: u64, b: u64)
    requires
        dev.wf(),
        a != b,
    ensures
        dev.lba(a) != dev.lba(b) || dev.lba_offset(a) != dev.lba_offset(b),
{
    law_sector_place(dev, a);
    law_sector_place(dev, b);
}

} // verus!
