#![allow(dead_code)]

use std::collections::HashMap;

use zcore::bus::PageSize;
use zcore::hw::{Bus, Hardware, MmuFlags};
use zcore::nvme::command::{AppleNvmmuTcb, NvmeCommand, NvmeCompletion};
use zcore::soc::apple_mailbox::{AppleMailbox, MailboxMessage};
use zcore::soc::apple_rtkit::{
    add_endpoints, agreed_version, buffer_request_iova, buffer_request_pages, duty, endpoint,
    make_type, msg_type, pwr_state, AppleRtKit, Duty, Endpoints,
};
use zcore::soc::apple_sart::AppleSart;
use zcore::soc::hvcall::{hv_read, hv_write};

/// What a driver did.
#[derive(Debug, Clone, PartialEq, Eq)]
enum Op {
    R8(u64),
    R32(u64),
    R64(u64),
    W8(u64, u8),
    W32(u64, u32),
    Hv(u64, u64, u64, u64),
    Fence,
    Alloc(u64),
    Dealloc(u64, u64),
    Zero(u64, u64),
    Cmd(u64, u8, u8),
    Tcb(u64, u8, u32),
    Cqe(u64),
    Reset,
    Irq(u64),
    Frames(u64),
    Free(u64),
    Query(u64),
    Update(u64),
    Mapped(u64),
    Flush,
    Timer,
    Gic(u64, u64),
}

/// A machine that answers loads from lists, the last entry of which stays.
#[derive(Default)]
struct Machine {
    ops: Vec<Op>,
    answers: HashMap<u64, Vec<u64>>,
    completions: Vec<NvmeCompletion>,
    timer: Vec<u64>,
    gic: u64,
    next_dma: u64,
    frames: Option<u64>,
    pages: HashMap<u64, (MmuFlags, u64)>,
    updatable: bool,
    mappable: bool,
}

impl Machine {
    fn with(mut self, addr: u64, values: &[u64]) -> Self {
        self.answers.insert(addr, values.to_vec());
        self
    }

    fn answer(&mut self, addr: u64) -> u64 {
        match self.answers.get_mut(&addr) {
            Some(list) if list.len() > 1 => list.remove(0),
            Some(list) => list.first().copied().unwrap_or(0),
            None => 0,
        }
    }
}

impl Hardware for Machine {
    fn read8(&mut self, addr: u64) -> u8 {
        self.ops.push(Op::R8(addr));
        self.answer(addr) as u8
    }
    fn read32(&mut self, addr: u64) -> u32 {
        self.ops.push(Op::R32(addr));
        self.answer(addr) as u32
    }
    fn read64(&mut self, addr: u64) -> u64 {
        self.ops.push(Op::R64(addr));
        self.answer(addr)
    }
    fn write8(&mut self, addr: u64, val: u8) {
        self.ops.push(Op::W8(addr, val));
    }
    fn write32(&mut self, addr: u64, val: u32) {
        self.ops.push(Op::W32(addr, val));
    }
    fn hvcall4(&mut self, id: u64, a1: u64, a2: u64, a3: u64) -> u64 {
        self.ops.push(Op::Hv(id, a1, a2, a3));
        self.answer(a1)
    }
    fn fence(&mut self) {
        self.ops.push(Op::Fence);
    }
    fn spin_loop(&mut self) {}
    fn alloc_dma(&mut self, size: u64) -> (u64, u64) {
        self.ops.push(Op::Alloc(size));
        self.next_dma += 0x1_0000;
        (0xffff_0000_0000_0000 + self.next_dma, self.next_dma)
    }
    fn dealloc_dma(&mut self, va: u64, size: u64) {
        self.ops.push(Op::Dealloc(va, size));
    }
    fn zero(&mut self, va: u64, size: u64) {
        self.ops.push(Op::Zero(va, size));
    }
    fn store_command(&mut self, addr: u64, cmd: NvmeCommand) {
        self.ops.push(Op::Cmd(addr, cmd.opcode, cmd.tag));
    }
    fn store_tcb(&mut self, addr: u64, tcb: AppleNvmmuTcb) {
        self.ops.push(Op::Tcb(addr, tcb.dma_flags, tcb.length));
    }
    fn load_completion(&mut self, addr: u64) -> NvmeCompletion {
        self.ops.push(Op::Cqe(addr));
        if self.completions.len() > 1 {
            self.completions.remove(0)
        } else {
            self.completions.first().copied().unwrap_or_default()
        }
    }
    fn reset_domain(&mut self) {
        self.ops.push(Op::Reset);
    }
    fn dispatch_irq(&mut self, irq: u64) {
        self.ops.push(Op::Irq(irq));
    }
    fn alloc_frames(&mut self, pages: u64) -> Option<u64> {
        self.ops.push(Op::Frames(pages));
        self.frames
    }
    fn free_frame(&mut self, paddr: u64) {
        self.ops.push(Op::Free(paddr));
    }
    fn query_page(&mut self, vaddr: u64) -> Option<(MmuFlags, u64)> {
        self.ops.push(Op::Query(vaddr));
        self.pages.get(&vaddr).copied()
    }
    fn update_page(&mut self, vaddr: u64, flags: MmuFlags) -> bool {
        self.ops.push(Op::Update(vaddr));
        if let Some(page) = self.pages.get_mut(&vaddr) {
            page.0 = flags;
        }
        self.updatable
    }
    fn map_page(&mut self, vaddr: u64, size: u64, paddr: u64, flags: MmuFlags) -> bool {
        self.ops.push(Op::Mapped(vaddr));
        if self.mappable {
            self.pages.insert(vaddr, (flags, size));
        }
        assert_eq!(paddr % 0x1000, 0);
        self.mappable
    }
    fn flush_tlb(&mut self) {
        self.ops.push(Op::Flush);
    }
    fn timer_control(&mut self) -> u64 {
        self.ops.push(Op::Timer);
        if self.timer.len() > 1 {
            self.timer.remove(0)
        } else {
            self.timer.first().copied().unwrap_or(0)
        }
    }
    fn gic_irq(&mut self, cpu: u64, dist: u64) -> u64 {
        self.ops.push(Op::Gic(cpu, dist));
        self.gic
    }
}

const HV_READ: u64 = 0x4e56_0001;
const HV_WRITE: u64 = 0x4e56_0002;
const BASE: u64 = 0x1000_0000;
const PHYS: u64 = 0x3_4740_8000;

const EMPTY: u64 = 0x2_0000;
const FULL: u64 = 0x1_0000;

#[test]
fn default_message_is_zero() {
    let m = MailboxMessage::default();
    assert_eq!(m.msg0, 0);
    assert_eq!(m.msg1, 0);
}

#[test]
fn hypervisor_calls_carry_address_and_width() {
    let mut bus = Bus::new(Machine::default().with(0x500, &[77]));
    hv_write(&mut bus, 0x400, 4, 9);
    assert_eq!(hv_read(&mut bus, 0x500, 8), 77);
    assert_eq!(
        bus.into_inner().ops,
        vec![Op::Hv(HV_WRITE, 0x400, 4, 9), Op::Hv(HV_READ, 0x500, 8, 0)]
    );
}

#[test]
fn mailbox_sends_once_there_is_room() {
    let mailbox = AppleMailbox::new(BASE, PHYS);
    let mut bus = Bus::new(Machine::default().with(BASE + 0x110, &[FULL, FULL, 0]));
    assert!(mailbox.send(&mut bus, MailboxMessage { msg0: 0x1234, msg1: 2 }));
    assert_eq!(
        bus.into_inner().ops,
        vec![
            Op::R32(BASE + 0x110),
            Op::R32(BASE + 0x110),
            Op::R32(BASE + 0x110),
            Op::Fence,
            Op::Hv(HV_WRITE, PHYS + 0x800, 8, 0x1234),
            Op::Hv(HV_WRITE, PHYS + 0x808, 8, 2),
            Op::Fence,
        ]
    );
}

#[test]
fn mailbox_gives_up_when_full() {
    let mailbox = AppleMailbox::new(BASE, PHYS);
    let mut bus = Bus::new(Machine::default().with(BASE + 0x110, &[FULL]));
    assert!(!mailbox.send(&mut bus, MailboxMessage { msg0: 1, msg1: 1 }));
    assert!(!bus.into_inner().ops.iter().any(|op| matches!(op, Op::Hv(..))));
}

#[test]
fn mailbox_receives_unless_empty() {
    let mailbox = AppleMailbox::new(BASE, PHYS);
    let machine = Machine::default()
        .with(BASE + 0x114, &[EMPTY, 0])
        .with(BASE + 0x830, &[0xabcd])
        .with(BASE + 0x838, &[0x5_0000_0020]);
    let mut bus = Bus::new(machine);
    assert_eq!(mailbox.try_recv(&mut bus), None);
    assert_eq!(
        mailbox.try_recv(&mut bus),
        Some(MailboxMessage { msg0: 0xabcd, msg1: 0x20 })
    );
}

#[test]
fn mailbox_reception_times_out() {
    let mailbox = AppleMailbox::new(BASE, PHYS);
    let mut bus = Bus::new(Machine::default().with(BASE + 0x114, &[EMPTY]));
    assert_eq!(mailbox.recv_timeout(&mut bus, 3), None);
    assert_eq!(bus.into_inner().ops, vec![Op::R32(BASE + 0x114); 3]);
}

#[test]
fn sart_leaves_firmware_entries_alone() {
    // Entries 0 and 2 are firmware's.
    let machine = Machine::default().with(BASE, &[0xff]).with(BASE + 8, &[1]);
    let mut bus = Bus::new(machine);
    let mut sart = AppleSart::new(&mut bus, BASE, PHYS);
    assert!(sart.add_allowed_region(&mut bus, 0x8000_1000, 0x4000));
    assert!(sart.add_allowed_region(&mut bus, 0x9000_0000, 0x1000));
    let ops = bus.into_inner().ops;
    assert_eq!(ops.len(), 16 + 6);
    assert_eq!(ops[16], Op::Hv(HV_WRITE, PHYS + 0x40 + 4, 4, 0x8_0001));
    assert_eq!(ops[17], Op::Hv(HV_WRITE, PHYS + 0x80 + 4, 4, 4));
    assert_eq!(ops[18], Op::Hv(HV_WRITE, PHYS + 4, 4, 0xff));
    assert_eq!(ops[19], Op::Hv(HV_WRITE, PHYS + 0x40 + 12, 4, 0x9_0000));
}

#[test]
fn sart_refuses_what_an_entry_cannot_hold() {
    let mut bus = Bus::new(Machine::default());
    let mut sart = AppleSart::new(&mut bus, BASE, PHYS);
    assert!(!sart.add_allowed_region(&mut bus, 0x1001, 0x1000));
    assert!(!sart.add_allowed_region(&mut bus, 0x1000, 0x1800));
    assert!(!sart.add_allowed_region(&mut bus, 0x1000, 0x4000_0000 * 0x1000));
    // The low 32 bits of this size would fit.
    assert!(!sart.add_allowed_region(&mut bus, 0x1000, 0x1_0000_0001 * 0x1000));
    assert!(sart.add_allowed_region(&mut bus, 0x1000, 0x3fff_ffff * 0x1000));
}

#[test]
fn sart_runs_out_of_entries() {
    let mut bus = Bus::new(Machine::default());
    let mut sart = AppleSart::new(&mut bus, BASE, PHYS);
    for i in 0..16 {
        assert!(sart.add_allowed_region(&mut bus, i * 0x1000, 0x1000));
    }
    assert!(!sart.add_allowed_region(&mut bus, 0x10_0000, 0x1000));
}

#[test]
fn sart_range_can_be_withdrawn() {
    let machine = Machine::default().with(BASE + 0x40, &[0x80]).with(BASE + 0x80, &[2]);
    let mut bus = Bus::new(machine);
    let mut sart = AppleSart::new(&mut bus, BASE, PHYS);
    assert!(!sart.remove_allowed_region(&mut bus, 0x8_0000, 0x2000));
    assert!(sart.add_allowed_region(&mut bus, 0x8_0000, 0x2000));
    assert!(!sart.remove_allowed_region(&mut bus, 0x8_0000, 0x3000));
    assert!(sart.remove_allowed_region(&mut bus, 0x8_0000, 0x2000));
    assert!(!sart.remove_allowed_region(&mut bus, 0x8_0000, 0x2000));
    let ops = bus.into_inner().ops;
    let n = ops.len();
    assert_eq!(
        ops[n - 3..],
        [
            Op::Hv(HV_WRITE, PHYS, 4, 0),
            Op::Hv(HV_WRITE, PHYS + 0x40, 4, 0),
            Op::Hv(HV_WRITE, PHYS + 0x80, 4, 0),
        ]
    );
}

#[test]
fn message_fields() {
    assert_eq!(make_type(5), 5 << 52);
    assert_eq!(msg_type(make_type(0xb)), 0xb);
    assert_eq!(pwr_state(0x1_0220), 0x220);
    assert_eq!(buffer_request_pages(0x12 << 44), 0x12);
    assert_eq!(buffer_request_iova(0xffff_ffff_ffff_ffff), 0x3ff_ffff_ffff);
    assert_eq!(endpoint(MailboxMessage { msg0: 0, msg1: 0x1_0020 }), 0x20);
}

#[test]
fn versions_are_negotiated() {
    let hello = |min: u64, max: u64| MailboxMessage { msg0: make_type(1) | min | max << 16, msg1: 0 };
    assert_eq!(agreed_version(hello(11, 12)), Some(12));
    assert_eq!(agreed_version(hello(10, 11)), Some(11));
    assert_eq!(agreed_version(hello(12, 20)), Some(12));
    assert_eq!(agreed_version(hello(13, 20)), None);
    assert_eq!(agreed_version(hello(1, 10)), None);
    assert_eq!(agreed_version(MailboxMessage { msg0: make_type(2) | 12 << 16, msg1: 0 }), None);
    assert_eq!(agreed_version(MailboxMessage { msg0: make_type(1) | 12 << 16, msg1: 1 }), None);
}

#[test]
fn second_crashlog_request_is_a_crash() {
    let msg = MailboxMessage { msg0: make_type(1), msg1: 1 };
    assert!(duty(msg, false) == Duty::Provide(1));
    assert!(duty(msg, true) == Duty::Crashed);
    let other = MailboxMessage { msg0: make_type(1), msg1: 0x20 };
    assert!(duty(other, true) == Duty::Ignore);
    assert!(duty(MailboxMessage { msg0: make_type(7) | 0x20, msg1: 0 }, true) == Duty::IopPower(0x20));
    assert!(duty(MailboxMessage { msg0: make_type(5), msg1: 2 }, true) == Duty::Echo);
    assert!(duty(MailboxMessage { msg0: make_type(8), msg1: 4 }, true) == Duty::Echo);
}

#[test]
fn endpoint_map_is_read_in_block_zero_only() {
    let none = Endpoints {
        crashlog: false,
        syslog: false,
        debug: false,
        ioreport: false,
        oslog: false,
    };
    let some = add_endpoints(none, 0x116);
    assert!(some.crashlog && some.syslog && !some.debug && some.ioreport && some.oslog);
    assert!(add_endpoints(none, 0x1_0000_0116) == none);
}

/// A coprocessor that goes through its handshake.
fn booting() -> Machine {
    Machine::default()
        .with(BASE + 0x114, &[0, 0, 0, 0])
        .with(BASE + 0x830, &[
            make_type(1) | 11 | 12 << 16,
            make_type(8) | 0x8_0000_0000_0000 | 0x116,
            make_type(7) | 0x20,
            make_type(0xb) | 0x20,
        ])
        .with(BASE + 0x838, &[0])
}

#[test]
fn coprocessor_boots() {
    let mut bus = Bus::new(booting());
    let sart = AppleSart::new(&mut bus, BASE + 0x10_0000, PHYS + 0x10_0000);
    let mut rtkit = AppleRtKit::new(AppleMailbox::new(BASE, PHYS), sart, PageSize::Size4K);
    assert!(rtkit.boot(&mut bus, BASE + 0x20_0000, PHYS + 0x20_0000));
    let sent: Vec<u64> = bus
        .into_inner()
        .ops
        .iter()
        .filter_map(|op| match op {
            Op::Hv(HV_WRITE, addr, 8, val) if *addr == PHYS + 0x800 => Some(*val),
            _ => None,
        })
        .collect();
    assert!(sent.contains(&(make_type(2) | 12 | 12 << 16)));
    assert!(sent.contains(&(make_type(8) | 0x8_0000_0000_0000)));
    for ep in [1u64, 2, 4, 8] {
        assert!(sent.contains(&(make_type(5) | 2 | ep << 32)));
    }
}

#[test]
fn boot_fails_without_a_common_version() {
    let machine = Machine::default()
        .with(BASE + 0x114, &[0])
        .with(BASE + 0x830, &[make_type(1) | 20 | 30 << 16]);
    let mut bus = Bus::new(machine);
    let sart = AppleSart::new(&mut bus, BASE + 0x10_0000, PHYS + 0x10_0000);
    let mut rtkit = AppleRtKit::new(AppleMailbox::new(BASE, PHYS), sart, PageSize::Size4K);
    assert!(!rtkit.boot(&mut bus, BASE + 0x20_0000, PHYS + 0x20_0000));
}

#[test]
fn buffer_is_lent_and_announced() {
    let mut bus = Bus::new(Machine::default());
    let sart = AppleSart::new(&mut bus, BASE + 0x10_0000, PHYS + 0x10_0000);
    let mut rtkit = AppleRtKit::new(AppleMailbox::new(BASE, PHYS), sart, PageSize::Size4K);
    let request = MailboxMessage { msg0: make_type(1) | 3 << 44, msg1: 2 };
    assert!(rtkit.dispatch(&mut bus, request));
    let ops = bus.into_inner().ops;
    assert!(ops.contains(&Op::Alloc(0x3000)));
    let reply = make_type(1) | 3 << 44 | 0x1_0000;
    assert!(ops.contains(&Op::Hv(HV_WRITE, PHYS + 0x800, 8, reply)));
    assert_eq!(buffer_request_pages(reply), 3);
    assert_eq!(buffer_request_iova(reply), 0x1_0000);
}

#[test]
fn lent_buffer_fills_whole_pages() {
    for (page, pages, size) in [
        (PageSize::Size4K, 0u64, 0x1000u64),
        (PageSize::Size16K, 0, 0x4000),
        (PageSize::Size16K, 5, 0x8000),
        (PageSize::Size64K, 3, 0x1_0000),
        (PageSize::Size64K, 0x11, 0x2_0000),
    ] {
        let mut bus = Bus::new(Machine::default());
        let sart = AppleSart::new(&mut bus, BASE + 0x10_0000, PHYS + 0x10_0000);
        let mut rtkit = AppleRtKit::new(AppleMailbox::new(BASE, PHYS), sart, page);
        let request = MailboxMessage { msg0: make_type(1) | pages << 44, msg1: 2 };
        assert!(rtkit.dispatch(&mut bus, request));
        assert!(bus.into_inner().ops.contains(&Op::Alloc(size)));
    }
}
