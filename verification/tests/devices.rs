#![allow(dead_code)]

use std::collections::HashMap;

use zcore::hw::{Bus, Hardware, MmuFlags};
use zcore::nvme::command::{AppleNvmmuTcb, NvmeCommand, NvmeCompletion};
use zcore::bus::{phys_to_virt, virt_to_phys};
use zcore::display::{
    boot_edid, nouveau_uapi_enabled, set_boot_edid, set_boot_fb_info, set_nouveau_uapi_enabled,
    DisplayState,
};
use zcore::error::DeviceError;
use zcore::gpu::gsp::{GspMessageHeader, GspQueue, GspRpcFunction, GSP_MSG_MAGIC};
use zcore::gpu::pci::{
    generation, match_nvidia_pci, probe_nvidia_device, Bar, Location, NvidiaChipGen, PciDevice,
};
use zcore::irq::aic::{get_irq_num, AicLayout, AppleAic};
use zcore::hal::console::TextSink;
use zcore::hw::VacantMachine;
use zcore::uart::uart_s5l::{AppleS5lUart, SerialPort};
use zcore::utils::event_listener::EventHandler;

/// What a driver did.
#[derive(Debug, Clone, PartialEq, Eq)]
enum Op {
    R8(u64),
    R32(u64),
    R64(u64),
    W8(u64, u8),
    W32(u64, u32),
    Hv(u64, u64, u64, u64),
    Fence,
    Alloc(u64),
    Dealloc(u64, u64),
    Zero(u64, u64),
    Cmd(u64, u8, u8),
    Tcb(u64, u8, u32),
    Cqe(u64),
    Reset,
    Irq(u64),
    Frames(u64),
    Free(u64),
    Query(u64),
    Update(u64),
    Mapped(u64),
    Flush,
    Timer,
    Gic(u64, u64),
}

/// A machine that answers loads from lists, the last entry of which stays.
#[derive(Default)]
struct Machine {
    ops: Vec<Op>,
    answers: HashMap<u64, Vec<u64>>,
    completions: Vec<NvmeCompletion>,
    timer: Vec<u64>,
    gic: u64,
    next_dma: u64,
    frames: Option<u64>,
    pages: HashMap<u64, (MmuFlags, u64)>,
    updatable: bool,
    mappable: bool,
}

impl Machine {
    fn with(mut self, addr: u64, values: &[u64]) -> Self {
        self.answers.insert(addr, values.to_vec());
        self
    }

    fn answer(&mut self, addr: u64) -> u64 {
        match self.answers.get_mut(&addr) {
            Some(list) if list.len() > 1 => list.remove(0),
            Some(list) => list.first().copied().unwrap_or(0),
            None => 0,
        }
    }
}

impl Hardware for Machine {
    fn read8(&mut self, addr: u64) -> u8 {
        self.ops.push(Op::R8(addr));
        self.answer(addr) as u8
    }
    fn read32(&mut self, addr: u64) -> u32 {
        self.ops.push(Op::R32(addr));
        self.answer(addr) as u32
    }
    fn read64(&mut self, addr: u64) -> u64 {
        self.ops.push(Op::R64(addr));
        self.answer(addr)
    }
    fn write8(&mut self, addr: u64, val: u8) {
        self.ops.push(Op::W8(addr, val));
    }
    fn write32(&mut self, addr: u64, val: u32) {
        self.ops.push(Op::W32(addr, val));
    }
    fn hvcall4(&mut self, id: u64, a1: u64, a2: u64, a3: u64) -> u64 {
        self.ops.push(Op::Hv(id, a1, a2, a3));
        self.answer(a1)
    }
    fn fence(&mut self) {
        self.ops.push(Op::Fence);
    }
    fn spin_loop(&mut self) {}
    fn alloc_dma(&mut self, size: u64) -> (u64, u64) {
        self.ops.push(Op::Alloc(size));
        self.next_dma += 0x1_0000;
        (0xffff_0000_0000_0000 + self.next_dma, self.next_dma)
    }
    fn dealloc_dma(&mut self, va: u64, size: u64) {
        self.ops.push(Op::Dealloc(va, size));
    }
    fn zero(&mut self, va: u64, size: u64) {
        self.ops.push(Op::Zero(va, size));
    }
    fn store_command(&mut self, addr: u64, cmd: NvmeCommand) {
        self.ops.push(Op::Cmd(addr, cmd.opcode, cmd.tag));
    }
    fn store_tcb(&mut self, addr: u64, tcb: AppleNvmmuTcb) {
        self.ops.push(Op::Tcb(addr, tcb.dma_flags, tcb.length));
    }
    fn load_completion(&mut self, addr: u64) -> NvmeCompletion {
        self.ops.push(Op::Cqe(addr));
        if self.completions.len() > 1 {
            self.completions.remove(0)
        } else {
            self.completions.first().copied().unwrap_or_default()
        }
    }
    fn reset_domain(&mut self) {
        self.ops.push(Op::Reset);
    }
    fn dispatch_irq(&mut self, irq: u64) {
        self.ops.push(Op::Irq(irq));
    }
    fn alloc_frames(&mut self, pages: u64) -> Option<u64> {
        self.ops.push(Op::Frames(pages));
        self.frames
    }
    fn free_frame(&mut self, paddr: u64) {
        self.ops.push(Op::Free(paddr));
    }
    fn query_page(&mut self, vaddr: u64) -> Option<(MmuFlags, u64)> {
        self.ops.push(Op::Query(vaddr));
        self.pages.get(&vaddr).copied()
    }
    fn update_page(&mut self, vaddr: u64, flags: MmuFlags) -> bool {
        self.ops.push(Op::Update(vaddr));
        if let Some(page) = self.pages.get_mut(&vaddr) {
            page.0 = flags;
        }
        self.updatable
    }
    fn map_page(&mut self, vaddr: u64, size: u64, paddr: u64, flags: MmuFlags) -> bool {
        self.ops.push(Op::Mapped(vaddr));
        if self.mappable {
            self.pages.insert(vaddr, (flags, size));
        }
        assert_eq!(paddr % 0x1000, 0);
        self.mappable
    }
    fn flush_tlb(&mut self) {
        self.ops.push(Op::Flush);
    }
    fn timer_control(&mut self) -> u64 {
        self.ops.push(Op::Timer);
        if self.timer.len() > 1 {
            self.timer.remove(0)
        } else {
            self.timer.first().copied().unwrap_or(0)
        }
    }
    fn gic_irq(&mut self, cpu: u64, dist: u64) -> u64 {
        self.ops.push(Op::Gic(cpu, dist));
        self.gic
    }
}

const BASE: u64 = 0x2_8e10_0000;

struct Quiet;

impl EventHandler<()> for Quiet {
    fn handle(&self, _event: &()) {}
}

fn sent(ops: &[Op], port: u64) -> String {
    ops.iter()
        .filter_map(|op| match op {
            Op::W32(addr, val) if *addr == port => Some(*val as u8 as char),
            _ => None,
        })
        .collect()
}

#[test]
fn direct_map_goes_both_ways() {
    assert_eq!(phys_to_virt(0xffff_8000_0000_0000, 0x1000), 0xffff_8000_0000_1000);
    assert_eq!(virt_to_phys(0xffff_8000_0000_0000, 0xffff_8000_0000_1000), 0x1000);
    assert_eq!(virt_to_phys(0x1000, phys_to_virt(0x1000, u64::MAX)), u64::MAX);
}

#[test]
fn aic_of_the_second_generation() {
    // 0x121 interrupts in use, two dies; room for 0x400 interrupts on four dies.
    let machine = Machine::default().with(BASE + 4, &[0x0100_0121]).with(BASE + 0xc, &[0x0400_0400]);
    let mut bus = Bus::new(machine);
    let aic = AppleAic::new(&mut bus, BASE, 0x1_4000, AicLayout { version: 2, ..AicLayout::default() });
    assert_eq!(aic.version, 2);
    assert_eq!((aic.nr_irq, aic.max_irq, aic.nr_die, aic.max_die), (0x121, 0x400, 2, 4));
    assert_eq!(aic.sw_set, 0x2000 + 0x1000);
    assert_eq!(aic.sw_clr, 0x3000 + 0x80);
    assert_eq!(aic.mask_set, 0x3100);
    assert_eq!(aic.mask_clr, 0x3180);
    assert_eq!(aic.hw_state, 0x3200);
    assert_eq!(aic.mask_set_stride, 0x1000 + 5 * 0x80);
    assert_eq!(aic.event_base, BASE + 0xc000);
    assert_eq!(aic.target_cpu, None);
    assert_eq!(aic.name(), "apple-aic2");
}

#[test]
fn aic_of_the_first_generation() {
    let mut bus = Bus::new(Machine::default().with(BASE + 4, &[0x380]));
    let aic = AppleAic::new(&mut bus, BASE, 0x8000, AicLayout { version: 1, ..AicLayout::default() });
    assert_eq!((aic.version, aic.nr_irq, aic.max_irq, aic.nr_die), (1, 0x380, 1024, 1));
    assert_eq!(aic.target_cpu, Some(0x3000));
    assert_eq!(aic.event_base, BASE + 0x2004);
    assert_eq!(aic.sw_set, 0x4000);
}

#[test]
fn aic_masks_by_die_and_bit() {
    let machine = Machine::default().with(BASE + 4, &[0x0100_0121]).with(BASE + 0xc, &[0x0400_0400]);
    let mut bus = Bus::new(machine);
    let aic = AppleAic::new(&mut bus, BASE, 0x1_4000, AicLayout { version: 2, ..AicLayout::default() });
    aic.irq_enable(&mut bus, 33);
    aic.irq_disable(&mut bus, 0x400 + 5);
    let ops = bus.into_inner().ops;
    assert_eq!(ops[2], Op::W32(BASE + 0x3180 + 4, 2));
    assert_eq!(ops[3], Op::W32(BASE + 0x3100 + 0x1280, 1 << 5));
}

#[test]
fn aic_never_stores_outside_of_its_window() {
    let machine = Machine::default().with(BASE + 4, &[0x0100_0121]).with(BASE + 0xc, &[0x0400_0400]);
    let mut bus = Bus::new(machine);
    let aic = AppleAic::new(&mut bus, BASE, 0x1000, AicLayout::default());
    aic.irq_enable(&mut bus, 33);
    aic.write_reg(&mut bus, 0xffd, 1);
    aic.write_reg(&mut bus, u64::MAX, 1);
    aic.write_reg(&mut bus, 0xffc, 1);
    let ops = bus.into_inner().ops;
    assert_eq!(ops[2..], [Op::W32(BASE + 0xffc, 1)]);
}

#[test]
fn aic_rejects_invalid_interrupts() {
    let machine = Machine::default().with(BASE + 4, &[0x0000_0121]).with(BASE + 0xc, &[0x0100_0400]);
    let mut bus = Bus::new(machine);
    let aic = AppleAic::new(&mut bus, BASE, 0x1_4000, AicLayout::default());
    assert!(aic.is_valid_irq(0x120));
    assert!(!aic.is_valid_irq(0x1_0000));
    assert_eq!(aic.mask(&mut bus, 3), Ok(()));
    assert_eq!(aic.unmask(&mut bus, 3), Ok(()));
}

#[test]
fn aic_events() {
    let mut bus = Bus::new(Machine::default().with(0x9000, &[0x0001_0055, 0x0004_0055, 0]));
    assert_eq!(get_irq_num(&mut bus, 0x9000), 0x55);
    assert_eq!(get_irq_num(&mut bus, 0x9000), 0);
    assert_eq!(get_irq_num(&mut bus, 0x9000), 0);
}

#[test]
fn uart_prefixes_every_line() {
    let mut bus = Bus::new(Machine::default());
    let mut uart: AppleS5lUart<Quiet> = AppleS5lUart::new(&mut bus, BASE);
    assert_eq!(uart.name(), "apple-s5l-uart");
    assert_eq!(uart.write_str(&mut bus, "ab"), Ok(()));
    assert_eq!(uart.write_str(&mut bus, "c\nd\n\n"), Ok(()));
    let ops = bus.into_inner().ops;
    assert_eq!(sent(&ops, BASE + 0x20), "HVLOG: abc\r\nHVLOG: d\r\nHVLOG: \r\n");
}

#[test]
fn uart_receives_by_either_status() {
    let machine = Machine::default()
        .with(BASE + 0x10, &[1, 0, 0])
        .with(BASE + 0x18, &[3, 0])
        .with(BASE + 0x24, &[0x141, 0x42]);
    let mut bus = Bus::new(machine);
    let uart: AppleS5lUart<Quiet> = AppleS5lUart::new(&mut bus, BASE);
    let got: Vec<Option<u8>> = (0..3).map(|_| uart.getchar(&mut bus)).collect();
    assert_eq!(got.iter().filter(|g| g.is_some()).count(), 2);
    assert!(got.contains(&Some(0x41)));
    assert!(got.contains(&Some(0x42)));
    assert_eq!(uart.try_recv(&mut bus), Ok(None));
    assert_eq!(uart.send(&mut bus, b'x'), Ok(()));
}

#[test]
fn gpu_generations() {
    assert_eq!(generation(0x15f), NvidiaChipGen::PreTuring);
    assert_eq!(generation(0x160), NvidiaChipGen::Turing);
    assert_eq!(generation(0x17f), NvidiaChipGen::Ampere);
    assert_eq!(generation(0x180), NvidiaChipGen::Unknown(0x180));
    assert_eq!(generation(0x192), NvidiaChipGen::Ada);
    assert_eq!(generation(0x1b0), NvidiaChipGen::Hopper);
    assert_eq!(generation(0x20f), NvidiaChipGen::Blackwell);
    assert_eq!(generation(0xfff), NvidiaChipGen::Unknown(0xfff));
    assert!(!NvidiaChipGen::PreTuring.has_gsp());
    assert!(NvidiaChipGen::Ada.has_gsp());
    assert!(!NvidiaChipGen::Unknown(3).has_gsp());
    assert_eq!(NvidiaChipGen::Ada.name(), "Ada Lovelace");
    assert_eq!(NvidiaChipGen::PreTuring.name(), "Pre-Turing (Legacy RM / Falcon)");
}

#[test]
fn gpu_is_probed() {
    let dev = PciDevice {
        loc: Location { bus: 1, device: 0, function: 0 },
        vendor_id: 0x10de,
        device_id: 0x2684,
        class: 3,
    };
    let bar0 = Bar { addr: 0xf000_0000, size: 0x100_0000 };
    let bar1 = Bar { addr: 0xe000_0000, size: 0x1000_0000 };
    let mut bus = Bus::new(Machine::default().with(0x1_f000_0000, &[0x1920_00a1]));
    let gpu = probe_nvidia_device(&mut bus, 0x1_0000_0000, &dev, bar0, bar1).unwrap();
    assert_eq!(gpu.chip_id, 0x192);
    assert_eq!(gpu.chip_gen, NvidiaChipGen::Ada);
    assert_eq!((gpu.bar0_addr, gpu.bar1_size), (0xf000_0000, 0x1000_0000));
    assert!(probe_nvidia_device(&mut bus, 0, &dev, Bar { addr: 0, size: 0 }, bar1).is_none());
    let other = PciDevice { vendor_id: 0x8086, ..dev };
    assert!(!match_nvidia_pci(&other));
    assert!(!match_nvidia_pci(&PciDevice { class: 2, ..dev }));
    assert!(match_nvidia_pci(&PciDevice { class: 4, ..dev }));
    assert!(probe_nvidia_device(&mut bus, 0, &other, bar0, bar1).is_none());
    assert_eq!(bus.into_inner().ops, vec![Op::R32(0x1_f000_0000)]);
}

#[test]
fn gsp_queue_starts_empty() {
    let mut queue = GspQueue::new(0x1000, 0x2000, 64);
    assert_eq!((queue.head(), queue.tail()), (0, 0));
    queue.set_head(3);
    queue.set_tail(9);
    assert_eq!((queue.head(), queue.tail()), (3, 9));
    assert_eq!(GspRpcFunction::Nop.code(), 0);
    assert_eq!(GspRpcFunction::FreeChannel.code(), 0xb);
    assert_eq!(GspRpcFunction::GetDisplayInfo.code(), 0x11);
    assert_eq!(GspMessageHeader::default().magic, 0);
    assert_eq!(GSP_MSG_MAGIC.to_be_bytes(), *b"GSPM");
}

#[test]
fn display_state_is_kept() {
    let mut state = DisplayState::new();
    assert!(!nouveau_uapi_enabled(&state));
    set_nouveau_uapi_enabled(&mut state, true);
    set_boot_fb_info(&mut state, 1, 2, 3, 4);
    set_boot_edid(&mut state, &[1, 2], 2);
    assert!(nouveau_uapi_enabled(&state));
    assert!(boot_edid(&state).is_none());
    assert_ne!(DeviceError::NotReady, DeviceError::IoError);
}

#[test]
fn serial_port_shows_text() {
    let mut bus = Bus::new(Machine::default());
    let uart: AppleS5lUart<Quiet> = AppleS5lUart::new(&mut bus, BASE);
    let mut port = SerialPort::new(uart, bus);
    port.write_str("a\n");
    port.write_str("b");
    let text: String = port
        .bus
        .into_inner()
        .ops
        .iter()
        .filter_map(|op| match op {
            Op::W32(addr, val) if *addr == BASE + 0x20 => char::from_u32(*val),
            _ => None,
        })
        .collect();
    assert_eq!(text, "HVLOG: a\r\nHVLOG: b");
}

#[test]
fn vacant_machine_answers_nothing() {
    let mut bus = Bus::new(VacantMachine::new());
    assert_eq!(get_irq_num(&mut bus, BASE), 0);
    bus.write32(BASE, 7);
    assert_eq!(bus.read32(BASE), 0);
    assert_eq!(bus.alloc_frames(1), None);
    assert_eq!(bus.query_page(BASE), None);
    assert_eq!(bus.hvcall4(1, 2, 3, 4), 0);
}
