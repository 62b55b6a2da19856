#![allow(dead_code)]

use std::collections::HashMap;

use zcore::bus::PageSize;
use zcore::hw::{Bus, Hardware, MmuFlags};
use zcore::nvme::command::{AppleNvmmuTcb, NvmeCommand, NvmeCompletion};
use zcore::error::DeviceError;
use zcore::nvme::apple_ans::{lba_size, transfer, AnsWindows, AppleAnsNvme};
use zcore::nvme::disk::AnsDisk;
use zcore::nvme::queue::{dma_flags, AppleAnsQueue};
use zcore::scheme::{BlockScheme, Scheme};
use zcore::soc::apple_mailbox::AppleMailbox;
use zcore::soc::apple_rtkit::{make_type, AppleRtKit};
use zcore::soc::apple_sart::AppleSart;

/// What a driver did.
#[derive(Debug, Clone, PartialEq, Eq)]
enum Op {
    R8(u64),
    R32(u64),
    R64(u64),
    W8(u64, u8),
    W32(u64, u32),
    Hv(u64, u64, u64, u64),
    Fence,
    Alloc(u64),
    Dealloc(u64, u64),
    Zero(u64, u64),
    Cmd(u64, u8, u8),
    Tcb(u64, u8, u32),
    Cqe(u64),
    Reset,
    Irq(u64),
    Frames(u64),
    Free(u64),
    Query(u64),
    Update(u64),
    Mapped(u64),
    Flush,
    Timer,
    Gic(u64, u64),
}

/// A machine that answers loads from lists, the last entry of which stays.
#[derive(Default)]
struct Machine {
    ops: Vec<Op>,
    answers: HashMap<u64, Vec<u64>>,
    completions: Vec<NvmeCompletion>,
    timer: Vec<u64>,
    gic: u64,
    next_dma: u64,
    frames: Option<u64>,
    pages: HashMap<u64, (MmuFlags, u64)>,
    updatable: bool,
    mappable: bool,
}

impl Machine {
    fn with(mut self, addr: u64, values: &[u64]) -> Self {
        self.answers.insert(addr, values.to_vec());
        self
    }

    fn answer(&mut self, addr: u64) -> u64 {
        match self.answers.get_mut(&addr) {
            Some(list) if list.len() > 1 => list.remove(0),
            Some(list) => list.first().copied().unwrap_or(0),
            None => 0,
        }
    }
}

impl Hardware for Machine {
    fn read8(&mut self, addr: u64) -> u8 {
        self.ops.push(Op::R8(addr));
        self.answer(addr) as u8
    }
    fn read32(&mut self, addr: u64) -> u32 {
        self.ops.push(Op::R32(addr));
        self.answer(addr) as u32
    }
    fn read64(&mut self, addr: u64) -> u64 {
        self.ops.push(Op::R64(addr));
        self.answer(addr)
    }
    fn write8(&mut self, addr: u64, val: u8) {
        self.ops.push(Op::W8(addr, val));
    }
    fn write32(&mut self, addr: u64, val: u32) {
        self.ops.push(Op::W32(addr, val));
    }
    fn hvcall4(&mut self, id: u64, a1: u64, a2: u64, a3: u64) -> u64 {
        self.ops.push(Op::Hv(id, a1, a2, a3));
        self.answer(a1)
    }
    fn fence(&mut self) {
        self.ops.push(Op::Fence);
    }
    fn spin_loop(&mut self) {}
    fn alloc_dma(&mut self, size: u64) -> (u64, u64) {
        self.ops.push(Op::Alloc(size));
        self.next_dma += 0x1_0000;
        (0xffff_0000_0000_0000 + self.next_dma, self.next_dma)
    }
    fn dealloc_dma(&mut self, va: u64, size: u64) {
        self.ops.push(Op::Dealloc(va, size));
    }
    fn zero(&mut self, va: u64, size: u64) {
        self.ops.push(Op::Zero(va, size));
    }
    fn store_command(&mut self, addr: u64, cmd: NvmeCommand) {
        self.ops.push(Op::Cmd(addr, cmd.opcode, cmd.tag));
    }
    fn store_tcb(&mut self, addr: u64, tcb: AppleNvmmuTcb) {
        self.ops.push(Op::Tcb(addr, tcb.dma_flags, tcb.length));
    }
    fn load_completion(&mut self, addr: u64) -> NvmeCompletion {
        self.ops.push(Op::Cqe(addr));
        if self.completions.len() > 1 {
            self.completions.remove(0)
        } else {
            self.completions.first().copied().unwrap_or_default()
        }
    }
    fn reset_domain(&mut self) {
        self.ops.push(Op::Reset);
    }
    fn dispatch_irq(&mut self, irq: u64) {
        self.ops.push(Op::Irq(irq));
    }
    fn alloc_frames(&mut self, pages: u64) -> Option<u64> {
        self.ops.push(Op::Frames(pages));
        self.frames
    }
    fn free_frame(&mut self, paddr: u64) {
        self.ops.push(Op::Free(paddr));
    }
    fn query_page(&mut self, vaddr: u64) -> Option<(MmuFlags, u64)> {
        self.ops.push(Op::Query(vaddr));
        self.pages.get(&vaddr).copied()
    }
    fn update_page(&mut self, vaddr: u64, flags: MmuFlags) -> bool {
        self.ops.push(Op::Update(vaddr));
        if let Some(page) = self.pages.get_mut(&vaddr) {
            page.0 = flags;
        }
        self.updatable
    }
    fn map_page(&mut self, vaddr: u64, size: u64, paddr: u64, flags: MmuFlags) -> bool {
        self.ops.push(Op::Mapped(vaddr));
        if self.mappable {
            self.pages.insert(vaddr, (flags, size));
        }
        assert_eq!(paddr % 0x1000, 0);
        self.mappable
    }
    fn flush_tlb(&mut self) {
        self.ops.push(Op::Flush);
    }
    fn timer_control(&mut self) -> u64 {
        self.ops.push(Op::Timer);
        if self.timer.len() > 1 {
            self.timer.remove(0)
        } else {
            self.timer.first().copied().unwrap_or(0)
        }
    }
    fn gic_irq(&mut self, cpu: u64, dist: u64) -> u64 {
        self.ops.push(Op::Gic(cpu, dist));
        self.gic
    }
}

const HV_WRITE: u64 = 0x4e56_0002;
const EMPTY: u64 = 0x2_0000;
const NVME: u64 = 0x10_0000_0000;
const ANS: u64 = 0x20_0000_0000;
const MBOX: u64 = 0x30_0000_0000;
const SART: u64 = 0x40_0000_0000;
const PHYS: u64 = 0x1_0000_0000;
const DMA: u64 = 0xffff_0000_0000_0000;

fn windows() -> AnsWindows {
    AnsWindows {
        page: PageSize::Size4K,
        nvme_base: NVME,
        phys_nvme_base: PHYS,
        ans_base: ANS,
        phys_ans_base: PHYS + 0x100_0000,
        mbox_base: MBOX,
        phys_mbox_base: PHYS + 0x200_0000,
        sart_base: SART,
        phys_sart_base: PHYS + 0x300_0000,
    }
}

fn done(status: u16) -> NvmeCompletion {
    NvmeCompletion { result: 5, rsvd: 0, tag: 0, status }
}

/// A storage controller with 1000 blocks of 4 KiB.
fn controller() -> Machine {
    let mut machine = Machine::default()
        .with(MBOX + 0x114, &[0, 0, 0, 0, EMPTY])
        .with(MBOX + 0x830, &[
            make_type(1) | 11 | 12 << 16,
            make_type(8) | 0x8_0000_0000_0000 | 0x116,
            make_type(7) | 0x20,
            make_type(0xb) | 0x20,
        ])
        .with(NVME + 0x1300, &[0xde71_ce55])
        .with(NVME + 0x1c, &[0, 1])
        .with(DMA + 0x7_0000, &[0xe8])
        .with(DMA + 0x7_0001, &[0x03])
        .with(DMA + 0x7_0000 + 130, &[12]);
    machine.completions = vec![done(1), done(1), done(0), done(1)];
    machine
}

#[test]
fn command_fields() {
    let cmd = transfer(2, 0x1000, 0x12_3456_789a);
    assert_eq!((cmd.opcode, cmd.nsid, cmd.prp1), (2, 1, 0x1000));
    assert_eq!((cmd.cdw10, cmd.cdw11, cmd.cdw12), (0x3456_789a, 0x12, 0));
    assert_eq!(dma_flags(cmd), 1);
    assert_eq!(dma_flags(NvmeCommand { opcode: 1, ..cmd }), 2);
    assert_eq!(dma_flags(NvmeCommand::default()), 0);
    assert_eq!(lba_size(9), 512);
    assert_eq!(lba_size(12), 4096);
    assert_eq!(lba_size(16), 65536);
    assert_eq!(lba_size(8), 4096);
    assert_eq!(lba_size(17), 4096);
    assert_eq!(AppleNvmmuTcb::default().length, 0);
}

#[test]
fn queue_goes_round() {
    let mut bus = Bus::new(Machine::default().with(MBOX + 0x114, &[EMPTY]));
    let sart = AppleSart::new(&mut bus, SART, PHYS);
    let mut rtkit = AppleRtKit::new(AppleMailbox::new(MBOX, PHYS), sart, PageSize::Size4K);
    let mut queue = AppleAnsQueue::new(&mut bus, true, PageSize::Size4K);
    assert_eq!((queue.cq_head, queue.cq_phase), (0, 1));
    let mut bus = {
        let mut machine = bus.into_inner();
        machine.ops.clear();
        machine.completions = vec![done(0), done(1), done(1), done(2), done(0)];
        Bus::new(machine)
    };
    let cmd = transfer(2, 0x1000, 0);
    assert_eq!(queue.exec_command(&mut bus, PHYS, &cmd, &mut rtkit), Ok(5));
    assert_eq!((queue.cq_head, queue.cq_phase), (1, 1));
    assert_eq!(queue.exec_command(&mut bus, PHYS, &cmd, &mut rtkit), Ok(5));
    assert_eq!((queue.cq_head, queue.cq_phase), (0, 0));
    assert_eq!(queue.exec_command(&mut bus, PHYS, &cmd, &mut rtkit), Err(DeviceError::IoError));
    assert_eq!(queue.exec_command(&mut bus, PHYS, &cmd, &mut rtkit), Ok(5));
    assert_eq!((queue.cq_head, queue.cq_phase), (0, 1));
    let ops = bus.into_inner().ops;
    assert_eq!(
        ops[..4],
        [
            Op::Cmd(queue.cmds_va, 2, 0),
            Op::Tcb(queue.tcbs_va, 1, 0),
            Op::Fence,
            Op::Hv(HV_WRITE, PHYS + 0x2490c, 4, 0),
        ]
    );
    assert!(ops.contains(&Op::Hv(HV_WRITE, PHYS + 0x1004, 4, 1)));
}

#[test]
fn disk_is_brought_up() {
    let mut bus = Bus::new(controller());
    let dev = AppleAnsNvme::new(&mut bus, windows());
    assert!(dev.is_ok());
    let dev = dev.ok().unwrap();
    assert_eq!(dev.name(), "apple-ans-nvme");
    assert_eq!(dev.block_count(), 8000);
    let ops = bus.into_inner().ops;
    assert_eq!(ops[0], Op::Hv(HV_WRITE, PHYS + 0x100_0044, 4, 0));
    assert_eq!(ops[1], Op::Reset);
    assert!(ops.contains(&Op::Hv(HV_WRITE, PHYS + 0x24, 4, 0x1_0001)));
    assert!(ops.contains(&Op::Hv(HV_WRITE, PHYS + 0x28, 8, 0x2_0000)));
    assert!(ops.contains(&Op::Hv(HV_WRITE, PHYS + 0x30, 8, 0x3_0000)));
    assert!(ops.contains(&Op::Hv(HV_WRITE, PHYS + 0x1210, 4, 0x40_0040)));
    assert!(ops.contains(&Op::Hv(HV_WRITE, PHYS + 0x14, 4, 0x46_0001)));
    let opcodes: Vec<u8> = ops
        .iter()
        .filter_map(|op| match op {
            Op::Cmd(_, opcode, _) => Some(*opcode),
            _ => None,
        })
        .collect();
    assert_eq!(opcodes, vec![5, 1, 6]);
    assert!(ops.contains(&Op::Dealloc(DMA + 0x7_0000, 0x1000)));
}

#[test]
fn disk_uses_pages_of_the_chosen_size() {
    let mut bus = Bus::new(controller());
    let dev = AppleAnsNvme::new(&mut bus, AnsWindows { page: PageSize::Size16K, ..windows() });
    assert!(dev.is_ok());
    let ops = bus.into_inner().ops;
    assert!(ops.contains(&Op::Alloc(0x4000)));
    assert!(!ops.contains(&Op::Alloc(0x1000)));
    assert!(ops.contains(&Op::Dealloc(DMA + 0x7_0000, 0x4000)));
}

#[test]
fn sectors_are_read_and_written() {
    let machine = controller().with(DMA + 0x8_0000 + 512, &[0xab]);
    let mut bus = Bus::new(machine);
    let mut dev = AppleAnsNvme::new(&mut bus, windows()).ok().unwrap();
    let mut buf = vec![0u8; 512];
    assert_eq!(dev.read_block(&mut bus, 9, &mut buf), Ok(()));
    assert_eq!((buf[0], buf[1]), (0xab, 0));
    assert_eq!(dev.write_block(&mut bus, 9, &[7; 512]), Ok(()));
    assert_eq!(dev.flush(&mut bus), Ok(()));
    let ops = bus.into_inner().ops;
    assert!(ops.contains(&Op::W8(DMA + 0x9_0000 + 512, 7)));
    assert!(!ops.contains(&Op::W8(DMA + 0x9_0000, 7)));
    let opcodes: Vec<u8> = ops
        .iter()
        .filter_map(|op| match op {
            Op::Cmd(_, opcode, _) => Some(*opcode),
            _ => None,
        })
        .collect();
    assert_eq!(opcodes, vec![5, 1, 6, 2, 2, 1, 0]);
}

#[test]
fn failed_read_leaves_the_buffer() {
    let mut machine = controller();
    machine.completions = vec![done(1), done(1), done(0), done(5)];
    let mut bus = Bus::new(machine);
    let mut dev = AppleAnsNvme::new(&mut bus, windows()).ok().unwrap();
    let mut buf = vec![9u8; 512];
    assert_eq!(dev.read_block(&mut bus, 0, &mut buf), Err(DeviceError::IoError));
    assert_eq!(buf, vec![9u8; 512]);
}

#[test]
fn block_that_cannot_be_fetched_is_not_written() {
    let mut machine = controller();
    machine.completions = vec![done(1), done(1), done(0), done(5)];
    let mut bus = Bus::new(machine);
    let mut dev = AppleAnsNvme::new(&mut bus, windows()).ok().unwrap();
    assert_eq!(dev.write_block(&mut bus, 9, &[7; 512]), Err(DeviceError::IoError));
    let ops = bus.into_inner().ops;
    assert!(!ops.iter().any(|op| matches!(op, Op::W8(_, 7))));
    let opcodes: Vec<u8> = ops
        .iter()
        .filter_map(|op| match op {
            Op::Cmd(_, opcode, _) => Some(*opcode),
            _ => None,
        })
        .collect();
    assert_eq!(opcodes, vec![5, 1, 6, 2]);
    assert_eq!(ops.last(), Some(&Op::Dealloc(DMA + 0x8_0000, 0x1000)));
}

#[test]
fn no_disk_without_a_coprocessor() {
    let mut machine = controller();
    machine.answers.insert(MBOX + 0x830, vec![make_type(1) | 20 | 30 << 16]);
    let mut bus = Bus::new(machine);
    let dev = AppleAnsNvme::new(&mut bus, windows());
    assert!(matches!(dev, Err(DeviceError::NotReady)));
}

#[test]
fn no_disk_without_entries_for_its_queues() {
    let mut machine = controller();
    for i in 0..11 {
        machine.answers.insert(SART + 4 * i, vec![0xff]);
    }
    let mut bus = Bus::new(machine);
    let dev = AppleAnsNvme::new(&mut bus, windows());
    assert!(matches!(dev, Err(DeviceError::NotReady)));
}

#[test]
fn disk_is_a_block_device() {
    let mut bus = Bus::new(controller());
    let dev = AppleAnsNvme::new(&mut bus, windows()).ok().unwrap();
    let mut disk = AnsDisk { bus, dev };
    assert_eq!(disk.name(), "apple-ans-nvme");
    assert_eq!(disk.block_count(), 8000);
    let mut buf = [0u8; 512];
    assert_eq!(disk.read_block(3, &mut buf), Ok(()));
    assert_eq!(disk.write_block(3, &buf), Ok(()));
    disk.quiesce_for_reboot();
}
