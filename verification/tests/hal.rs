#![allow(dead_code)]

use std::collections::HashMap;

use zcore::hw::{Bus, Hardware, MmuFlags};
use zcore::nvme::command::{AppleNvmmuTcb, NvmeCommand, NvmeCompletion};
use std::cell::RefCell;
use std::rc::Rc;
use std::sync::Arc;

use zcore::boot::entry::EarlyConsole;
use zcore::boot::fdt::Region;
use zcore::bus::{PageSize, PAGE_SIZE};
use zcore::display::DisplayState;
use zcore::hal::config::{phys_addr_mask, AppleMmio, KernelConfig, PHYS_ADDR_MASK};
use zcore::hal::console::{
    active_vt, console_win_size, console_write_fmt, console_write_str, debug_write_str,
    graphic_console_write_str, init_graphic_console, kd_mode, klog_emit, serial_write_str,
    set_kd_mode, Console, TextSink, KD_GRAPHICS, KD_TEXT, LOG_INFO,
};
use zcore::hal::cpu::{cpu_frequency, cpu_id, reset, ResetStep};
use zcore::hal::drivers::{
    all_block, all_uart, drivers_dma_alloc, drivers_dma_dealloc, drivers_dma_mark_uncached,
    drivers_dma_verify_uncached, AllDeviceList, Arch, Device, DeviceList,
};
use zcore::hal::early::{early_hex, early_puts};
use zcore::hal::init::{
    init, init_early, init_ram_disk, is_apple, primary_init, primary_init_early, DeviceStep,
    EarlyUart, InitStep,
};
use zcore::hal::interrupt::{handle_irq, intr_get, wait_for_interrupt, IrqAction, WaitAction};
use zcore::hal::mem::free_pmem_regions;
use zcore::hal::pmgr::{self, is_active, power_on};
use zcore::hal::smp::{delay_us, start_application_processors, ApStep};
use zcore::hal::trap::{
    pending_irq, split_trap_num, sync_handler, trap_handler, Kind, SyncAction, TrapAction,
    TrapReason,
};
use zcore::hw::CachePolicy;
use zcore::lang::{enter, print_panic, EarlyWriter, PanicEnd};
use zcore::scheme::Scheme;
use zcore::start::{primary_main, root_args, root_envs, secondary_main, MainStep, SecondaryStep};

/// What a driver did.
#[derive(Debug, Clone, PartialEq, Eq)]
enum Op {
    R8(u64),
    R32(u64),
    R64(u64),
    W8(u64, u8),
    W32(u64, u32),
    Hv(u64, u64, u64, u64),
    Fence,
    Alloc(u64),
    Dealloc(u64, u64),
    Zero(u64, u64),
    Cmd(u64, u8, u8),
    Tcb(u64, u8, u32),
    Cqe(u64),
    Reset,
    Irq(u64),
    Frames(u64),
    Free(u64),
    Query(u64),
    Update(u64),
    Mapped(u64),
    Flush,
    Timer,
    Gic(u64, u64),
}

/// A machine that answers loads from lists, the last entry of which stays.
#[derive(Default)]
struct Machine {
    ops: Vec<Op>,
    answers: HashMap<u64, Vec<u64>>,
    completions: Vec<NvmeCompletion>,
    timer: Vec<u64>,
    gic: u64,
    next_dma: u64,
    frames: Option<u64>,
    pages: HashMap<u64, (MmuFlags, u64)>,
    updatable: bool,
    mappable: bool,
    spins: u64,
}

impl Machine {
    fn with(mut self, addr: u64, values: &[u64]) -> Self {
        self.answers.insert(addr, values.to_vec());
        self
    }

    fn answer(&mut self, addr: u64) -> u64 {
        match self.answers.get_mut(&addr) {
            Some(list) if list.len() > 1 => list.remove(0),
            Some(list) => list.first().copied().unwrap_or(0),
            None => 0,
        }
    }
}

impl Hardware for Machine {
    fn read8(&mut self, addr: u64) -> u8 {
        self.ops.push(Op::R8(addr));
        self.answer(addr) as u8
    }
    fn read32(&mut self, addr: u64) -> u32 {
        self.ops.push(Op::R32(addr));
        self.answer(addr) as u32
    }
    fn read64(&mut self, addr: u64) -> u64 {
        self.ops.push(Op::R64(addr));
        self.answer(addr)
    }
    fn write8(&mut self, addr: u64, val: u8) {
        self.ops.push(Op::W8(addr, val));
    }
    fn write32(&mut self, addr: u64, val: u32) {
        self.ops.push(Op::W32(addr, val));
    }
    fn hvcall4(&mut self, id: u64, a1: u64, a2: u64, a3: u64) -> u64 {
        self.ops.push(Op::Hv(id, a1, a2, a3));
        self.answer(a1)
    }
    fn fence(&mut self) {
        self.ops.push(Op::Fence);
    }
    fn spin_loop(&mut self) {
        self.spins += 1;
    }
    fn alloc_dma(&mut self, size: u64) -> (u64, u64) {
        self.ops.push(Op::Alloc(size));
        self.next_dma += 0x1_0000;
        (0xffff_0000_0000_0000 + self.next_dma, self.next_dma)
    }
    fn dealloc_dma(&mut self, va: u64, size: u64) {
        self.ops.push(Op::Dealloc(va, size));
    }
    fn zero(&mut self, va: u64, size: u64) {
        self.ops.push(Op::Zero(va, size));
    }
    fn store_command(&mut self, addr: u64, cmd: NvmeCommand) {
        self.ops.push(Op::Cmd(addr, cmd.opcode, cmd.tag));
    }
    fn store_tcb(&mut self, addr: u64, tcb: AppleNvmmuTcb) {
        self.ops.push(Op::Tcb(addr, tcb.dma_flags, tcb.length));
    }
    fn load_completion(&mut self, addr: u64) -> NvmeCompletion {
        self.ops.push(Op::Cqe(addr));
        if self.completions.len() > 1 {
            self.completions.remove(0)
        } else {
            self.completions.first().copied().unwrap_or_default()
        }
    }
    fn reset_domain(&mut self) {
        self.ops.push(Op::Reset);
    }
    fn dispatch_irq(&mut self, irq: u64) {
        self.ops.push(Op::Irq(irq));
    }
    fn alloc_frames(&mut self, pages: u64) -> Option<u64> {
        self.ops.push(Op::Frames(pages));
        self.frames
    }
    fn free_frame(&mut self, paddr: u64) {
        self.ops.push(Op::Free(paddr));
    }
    fn query_page(&mut self, vaddr: u64) -> Option<(MmuFlags, u64)> {
        self.ops.push(Op::Query(vaddr));
        self.pages.get(&vaddr).copied()
    }
    fn update_page(&mut self, vaddr: u64, flags: MmuFlags) -> bool {
        self.ops.push(Op::Update(vaddr));
        if let Some(page) = self.pages.get_mut(&vaddr) {
            page.0 = flags;
        }
        self.updatable
    }
    fn map_page(&mut self, vaddr: u64, size: u64, paddr: u64, flags: MmuFlags) -> bool {
        self.ops.push(Op::Mapped(vaddr));
        if self.mappable {
            self.pages.insert(vaddr, (flags, size));
        }
        assert_eq!(paddr % 0x1000, 0);
        self.mappable
    }
    fn flush_tlb(&mut self) {
        self.ops.push(Op::Flush);
    }
    fn timer_control(&mut self) -> u64 {
        self.ops.push(Op::Timer);
        if self.timer.len() > 1 {
            self.timer.remove(0)
        } else {
            self.timer.first().copied().unwrap_or(0)
        }
    }
    fn gic_irq(&mut self, cpu: u64, dist: u64) -> u64 {
        self.ops.push(Op::Gic(cpu, dist));
        self.gic
    }
}

const OFFSET: u64 = 0xffff_8000_0000_0000;

fn config<'a>(firmware_type: &'a str) -> KernelConfig<'a> {
    KernelConfig {
        cmdline: "LOG=warn",
        firmware_type,
        uart_base: 0x900_0000,
        gic_base: 0x800_0000,
        phys_to_virt_offset: OFFSET,
        apple: AppleMmio::default(),
    }
}

fn sent(ops: &[Op]) -> String {
    ops.iter()
        .filter_map(|op| match op {
            Op::W32(_, val) => Some(*val as u8 as char),
            _ => None,
        })
        .collect()
}

#[test]
fn early_output() {
    let mut bus = Bus::new(Machine::default());
    early_puts(&mut bus, 0x1000, "a\nb");
    early_hex(&mut bus, 0x1000, 0);
    early_hex(&mut bus, 0x1000, 0xdead_0f00);
    early_hex(&mut bus, 0x1000, u64::MAX);
    let ops = bus.into_inner().ops;
    assert_eq!(ops[0], Op::W32(0x1020, 'a' as u32));
    assert_eq!(sent(&ops), "a\r\nb0x00xdead0f000xffffffffffffffff");
}

#[test]
fn apple_machines_are_told_by_their_firmware() {
    assert!(is_apple("Apple Silicon"));
    assert!(is_apple("m1n1/Asahi"));
    assert!(!is_apple("UEFI"));
    assert!(!is_apple("apple"));
}

#[test]
fn first_uart() {
    assert_eq!(init_early(&config("Apple m1n1")), EarlyUart::AppleS5l(OFFSET + 0x900_0000));
    assert_eq!(init_early(&config("UEFI")), EarlyUart::Pl011(OFFSET + 0x900_0000));
    let (cmdline, uart) = primary_init_early(&config("UEFI"));
    assert_eq!(cmdline, "LOG=warn");
    assert_eq!(uart, EarlyUart::Pl011(OFFSET + 0x900_0000));
}

#[test]
fn devices_are_brought_up_in_order() {
    assert!(init(&config("Asahi")).is_empty());
    let steps = init(&config("UEFI"));
    assert_eq!(steps.len(), 7);
    assert_eq!(
        steps[0],
        DeviceStep::Gic { cpu: OFFSET + 0x801_0000, dist: OFFSET + 0x800_0000 }
    );
    assert_eq!(steps[1], DeviceStep::Enable(30));
    assert_eq!(steps[6], DeviceStep::VirtioBlk(OFFSET + 0xa00_0000));
    let mut without_gic = config("UEFI");
    without_gic.gic_base = 0;
    assert_eq!(init(&without_gic), vec![DeviceStep::VirtioBlk(OFFSET + 0xa00_0000)]);
    assert!(matches!(primary_init()[1], InitStep::Vm));
    assert!(matches!(primary_init()[4], InitStep::Say("HVLOG: hal: primary_init done\n")));
}

#[test]
fn ram_disk_is_in_the_direct_map() {
    assert_eq!(init_ram_disk(None, OFFSET), None);
    let region = Region { start: 0x1000, end: 0x3000 };
    assert_eq!(init_ram_disk(Some(region), OFFSET), Some((OFFSET + 0x1000, 0x2000)));
    let empty = Region { start: 0x3000, end: 0x1000 };
    assert_eq!(init_ram_disk(Some(empty), OFFSET), Some((OFFSET + 0x3000, 0)));
}

#[test]
fn free_memory_follows_the_kernel() {
    let low = free_pmem_regions(0x4010_0001, PageSize::Size4K);
    assert_eq!(low.len(), 1);
    assert_eq!((low[0].start, low[0].end), (0x4010_1000, 0x4640_0000));
    let high = free_pmem_regions(0x100_0000_0000, PageSize::Size4K);
    assert_eq!((high[0].start, high[0].end), (0x100_0000_0000, 0x100_0800_0000));
    let coarse = free_pmem_regions(0x4010_0001, PageSize::Size16K);
    assert_eq!((coarse[0].start, coarse[0].end), (0x4010_4000, 0x4640_0000));
    let coarser = free_pmem_regions(0x4010_0001, PageSize::Size64K);
    assert_eq!((coarser[0].start, coarser[0].end), (0x4011_0000, 0x4640_0000));
}

#[test]
fn cpu_facts() {
    assert_eq!(cpu_id(0x8000_0007), 3);
    assert_eq!(cpu_frequency(), 0);
    assert_eq!(
        reset(),
        [ResetStep::Hvc(0x8400_0009), ResetStep::Hvc(0x8400_0008), ResetStep::Brk]
    );
}

#[test]
fn waiting_polls_on_apple_machines() {
    assert_eq!(
        wait_for_interrupt(true),
        vec![
            WaitAction::PollUart,
            WaitAction::IntrOn,
            WaitAction::Wfi,
            WaitAction::IntrOff,
            WaitAction::PollUart,
        ]
    );
    assert_eq!(
        wait_for_interrupt(false),
        vec![WaitAction::IntrOn, WaitAction::Wfi, WaitAction::IntrOff]
    );
    assert_eq!(handle_irq(30, true), IrqAction::Tick);
    assert_eq!(handle_irq(30, false), IrqAction::Dispatch(30));
    assert_eq!(handle_irq(33, true), IrqAction::Dispatch(33));
    assert!(intr_get(0x340));
    assert!(!intr_get(0x3c0));
}

#[test]
fn pending_interrupt_of_a_gic() {
    let mut bus = Bus::new(Machine { gic: 33, ..Machine::default() });
    assert_eq!(pending_irq(&mut bus, &config("UEFI")), 33);
    assert_eq!(bus.into_inner().ops, vec![Op::Gic(OFFSET + 0x801_0000, OFFSET + 0x800_0000)]);
}

#[test]
fn pending_timer_comes_first_on_apple_machines() {
    let mut bus = Bus::new(Machine { timer: vec![0x5], ..Machine::default() });
    assert_eq!(pending_irq(&mut bus, &config("Apple")), 30);
    assert_eq!(bus.into_inner().ops, vec![Op::Timer, Op::Timer]);
    // Masked, so the interrupt controller is asked.
    let event = OFFSET + 0x800_0000 + 0xc000;
    let machine = Machine { timer: vec![0x7], ..Machine::default() }.with(event, &[0x1_0044]);
    let mut bus = Bus::new(machine);
    assert_eq!(trap_handler(&mut bus, &config("Apple"), Kind::Fiq), TrapAction::Interrupt(0x44));
    assert_eq!(bus.into_inner().ops, vec![Op::Timer, Op::Timer, Op::R32(event)]);
}

#[test]
fn nothing_is_pending_without_a_controller() {
    let mut none = config("Apple");
    none.gic_base = 0;
    let mut bus = Bus::new(Machine::default());
    assert_eq!(pending_irq(&mut bus, &none), 0);
    assert_eq!(trap_handler(&mut bus, &none, Kind::Irq), TrapAction::Nothing);
    assert_eq!(trap_handler(&mut bus, &none, Kind::Synchronous), TrapAction::Synchronous);
    assert_eq!(trap_handler(&mut bus, &none, Kind::Other), TrapAction::Panic);
}

#[test]
fn traps_are_sorted() {
    assert_eq!(split_trap_num(0x0002_0001), (1, 2));
    assert_eq!(
        sync_handler(TrapReason::PageFault(9, 6), 0x100),
        SyncAction::HandlePageFault(9, 6)
    );
    assert_eq!(sync_handler(TrapReason::SoftwareBreakpoint, 0x100), SyncAction::Resume(0x104));
    assert_eq!(sync_handler(TrapReason::Other, 0x100), SyncAction::Report);
}

#[test]
fn processors_are_started_one_by_one() {
    assert!(start_application_processors(&[], OFFSET).is_empty());
    let steps = start_application_processors(&[1, 5], OFFSET);
    assert_eq!(steps.len(), 4 + 2 * 10);
    assert_eq!(steps[0], ApStep::StorePageTable(OFFSET + 0x6ff8));
    assert_eq!(steps[3], ApStep::OpenApic(OFFSET + 0xfee0_0000));
    assert_eq!(steps[14], ApStep::StoreStack { addr: OFFSET + 0x6fe8, apic_id: 5 });
    assert_eq!(steps[19], ApStep::Startup { apic_id: 5, page: 6 });
    assert_eq!(delay_us(1000, 3000, 200), 601_000);
}

#[test]
fn power_domain_is_switched_on() {
    let reg = 0x5000 + 0x1a8;
    let mut bus = Bus::new(Machine::default().with(reg, &[0, 0xff]));
    power_on(&mut bus, 0x9000, 0x5000, 0x1a8);
    assert!(is_active(&mut bus, 0x5000, 0x1a8));
    let ops = bus.into_inner().ops;
    assert!(ops.iter().any(|op| matches!(op, Op::W32(addr, val) if *addr == reg && val & 0xf == 0xf)));
}

#[test]
fn domain_that_enables_itself_is_active() {
    let reg = 0x5000 + 0x1a8;
    for (value, active) in [(0, false), (0xf0, true), (0x1000_0000, true), (0x9000_0000, true)] {
        let mut bus = Bus::new(Machine::default().with(reg, &[value]));
        assert_eq!(is_active(&mut bus, 0x5000, 0x1a8), active);
        assert_eq!(bus.into_inner().ops, vec![Op::R32(reg)]);
    }
}

#[test]
fn power_domain_discharges_before_it_is_switched_on() {
    let reg = 0x5000 + 0x1a8;
    let machine = Machine::default().with(reg, &[0xf0, 0xf0, 0xf0, 0, 0, 0, 0xf0]);
    let mut bus = Bus::new(machine);
    pmgr::reset(&mut bus, 0x9000, 0x5000, 0x1a8);
    let machine = bus.into_inner();
    assert_eq!(machine.spins, 2 + 10_000 + 1);
    let stores: Vec<u32> = machine
        .ops
        .iter()
        .filter_map(|op| match op {
            Op::W32(addr, val) if *addr == reg => Some(*val),
            _ => None,
        })
        .collect();
    assert_eq!(stores, vec![0x14f0, 0xf]);
}

#[test]
fn dma_memory() {
    let mut bus = Bus::new(Machine { frames: Some(0x7000), ..Machine::default() });
    assert_eq!(drivers_dma_alloc(&mut bus, 2), Some(0x7000));
    assert_eq!(drivers_dma_dealloc(&mut bus, 0x7000, 2, PageSize::Size4K), 0);
    let ops = bus.into_inner().ops;
    assert_eq!(ops, vec![Op::Frames(2), Op::Free(0x7000), Op::Free(0x8000)]);
    let mut bus = Bus::new(Machine { mappable: true, ..Machine::default() });
    let code = drivers_dma_mark_uncached(&mut bus, OFFSET, 0, 1, PageSize::Size4K);
    assert_eq!(code, -1);
    let code = drivers_dma_mark_uncached(&mut bus, OFFSET, 0x7000, 2, PageSize::Size4K);
    assert_eq!(code, 0);
    let code = drivers_dma_verify_uncached(&mut bus, OFFSET, 0x7000, 2, PageSize::Size4K);
    assert_eq!(code, 0);
    let machine = bus.into_inner();
    assert_eq!(machine.pages[&(OFFSET + 0x8000)].0.cache, CachePolicy::UncachedDevice);
    let mut bus = Bus::new(Machine::default());
    let code = drivers_dma_mark_uncached(&mut bus, OFFSET, 0x7000, 2, PageSize::Size4K);
    assert_eq!(code, -1);
    let code = drivers_dma_verify_uncached(&mut bus, OFFSET, 0x7000, 2, PageSize::Size4K);
    assert_eq!(code, -1);
}

#[test]
fn page_sizes_of_a_build() {
    assert_eq!(PageSize::of_build(false, false).bytes(), PAGE_SIZE);
    assert_eq!(PageSize::of_build(true, false).bytes(), 0x4000);
    assert_eq!(PageSize::of_build(false, true).bytes(), 0x1_0000);
    assert_eq!(PageSize::of_build(true, true).bytes(), 0x4000);
    assert_eq!(phys_addr_mask(PageSize::Size4K), PHYS_ADDR_MASK);
    assert_eq!(phys_addr_mask(PageSize::Size16K), 0xffff_ffff_c000);
    assert_eq!(phys_addr_mask(PageSize::Size64K), 0xffff_ffff_0000);
}

#[test]
fn dma_memory_of_larger_pages() {
    let mut bus = Bus::new(Machine::default());
    assert_eq!(drivers_dma_dealloc(&mut bus, 0x1_0000, 2, PageSize::Size16K), 0);
    assert_eq!(bus.into_inner().ops, vec![Op::Free(0x1_0000), Op::Free(0x1_4000)]);
    let mut bus = Bus::new(Machine { mappable: true, ..Machine::default() });
    let code = drivers_dma_mark_uncached(&mut bus, OFFSET, 0x1_0000, 2, PageSize::Size64K);
    assert_eq!(code, 0);
    let code = drivers_dma_verify_uncached(&mut bus, OFFSET, 0x1_0000, 2, PageSize::Size64K);
    assert_eq!(code, 0);
    let code = drivers_dma_mark_uncached(&mut bus, OFFSET, 0x1_0000, 1, PageSize::Size4K);
    assert_eq!(code, -1);
    let machine = bus.into_inner();
    assert_eq!(machine.pages[&(OFFSET + 0x2_0000)].1, 0x1_0000);
}

struct Named(&'static str);

impl Scheme for Named {
    fn name(&self) -> &str {
        self.0
    }
}

#[test]
fn devices_are_found_by_name() {
    let mut list: DeviceList<Named> = DeviceList::new();
    assert!(list.first().is_none());
    list.add(Arc::new(Named("a")));
    list.add(Arc::new(Named("b")));
    assert_eq!(list.find("b").unwrap().0, "b");
    assert!(list.find("c").is_none());
    assert_eq!(list.first_unwrap().0, "a");
    assert!(list.try_get(2).is_none());
    assert_eq!(list.as_vec().len(), 2);
    let mut all: AllDeviceList<Named, Named, Named, Named, Named, Named, Named> =
        AllDeviceList::new();
    all.add_device(Device::Uart(Arc::new(Named("u"))));
    assert_eq!(all_uart(&all).first().unwrap().0, "u");
    assert!(all_block(&all).first().is_none());
}

#[test]
fn only_pcs_have_the_nouveau_interface() {
    let mut state = DisplayState::new();
    zcore::hal::drivers::set_nouveau_uapi_enabled(Arch::Aarch64, &mut state, true);
    assert!(!zcore::hal::drivers::nouveau_uapi_enabled(Arch::X86_64, &state));
    zcore::hal::drivers::set_nouveau_uapi_enabled(Arch::X86_64, &mut state, true);
    assert!(zcore::hal::drivers::nouveau_uapi_enabled(Arch::X86_64, &state));
    assert!(!zcore::hal::drivers::nouveau_uapi_enabled(Arch::Riscv64, &state));
}

struct Sink(&'static str, Rc<RefCell<Vec<String>>>);

impl TextSink for Sink {
    fn write_str(&mut self, s: &str) {
        self.1.borrow_mut().push(format!("{}:{}", self.0, s));
    }
}

#[test]
fn console_output() {
    let out = Rc::new(RefCell::new(Vec::new()));
    let mut console: Console<Sink, Sink, Sink> = Console::new(Sink("early", out.clone()));
    serial_write_str(&mut console, "1");
    graphic_console_write_str(&mut console, "lost");
    assert_eq!(console_win_size(&console).ws_row, 0);
    console.set_uart(Sink("uart", out.clone()));
    console_write_str(&mut console, "2");
    debug_write_str(&mut console, "3");
    init_graphic_console(&mut console, Sink("screen", out.clone()), 25, 80, 0x1_0280, 480);
    console_write_fmt(&mut console, "4");
    klog_emit(&mut console, LOG_INFO, "5");
    assert_eq!(
        *out.borrow(),
        vec!["early:1", "uart:2", "early:3", "uart:4", "screen:4", "uart:5"]
    );
    let size = console_win_size(&console);
    assert_eq!((size.ws_row, size.ws_col, size.ws_xpixel, size.ws_ypixel), (25, 80, 0x280, 480));
    assert_eq!(kd_mode(&console), KD_TEXT);
    set_kd_mode(&mut console, KD_GRAPHICS);
    assert_eq!(kd_mode(&console), KD_GRAPHICS);
    assert_eq!(active_vt(), 0);
}

#[test]
fn panic_is_reported_once() {
    let console = EarlyConsole::new(true);
    let mut bus = Bus::new(Machine::default());
    let mut in_panic = false;
    assert_eq!(zcore::lang::panic(&mut bus, console, &mut in_panic, false, "at x:\nboom"), PanicEnd::Reset);
    assert!(in_panic);
    assert_eq!(zcore::lang::panic(&mut bus, console, &mut in_panic, false, "again"), PanicEnd::Reset);
    assert_eq!(
        sent(&bus.into_inner().ops),
        "HVLOG: panic: at x:\r\nHVLOG: boom\r\nHVLOG: panic in panic handler\r\n"
    );
}

#[test]
fn panic_on_other_boards() {
    let console = EarlyConsole::new(false);
    let mut bus = Bus::new(Machine::default());
    let mut in_panic = false;
    assert_eq!(zcore::lang::panic(&mut bus, console, &mut in_panic, false, "x"), PanicEnd::ReportAndSpin);
    assert_eq!(zcore::lang::panic(&mut bus, console, &mut in_panic, true, "x"), PanicEnd::ReportAndReset);
    assert!(!in_panic);
    assert!(bus.into_inner().ops.is_empty());
    let firsts: Vec<bool> = (0..4).map(|_| enter(&mut in_panic)).collect();
    assert_eq!(firsts, vec![true, false, false, false]);
}

#[test]
fn panic_writer_splits_freely() {
    let console = EarlyConsole::new(true);
    let mut bus = Bus::new(Machine::default());
    let mut writer = EarlyWriter::new();
    for piece in ["", "a", "\n", "b\nc", ""] {
        writer.write_str(&mut bus, console, piece);
    }
    assert_eq!(sent(&bus.into_inner().ops), "HVLOG: a\r\nHVLOG: b\r\nHVLOG: c");
    let mut bus = Bus::new(Machine::default());
    print_panic(&mut bus, console, "p");
    assert_eq!(sent(&bus.into_inner().ops), "HVLOG: panic: p\r\n");
}

#[test]
fn kernel_starts_in_stages() {
    let steps = primary_main();
    assert!(matches!(steps[0], MainStep::Stage("HVLOG: stage: logging\n")));
    assert!(matches!(steps[11], MainStep::Init));
    assert!(matches!(steps[14], MainStep::RunRoot));
    assert_eq!(root_args("/bin/busybox?sh?"), vec!["/bin/busybox", "sh", ""]);
    assert_eq!(root_args(""), vec![""]);
    assert_eq!(root_envs(), vec!["PATH=/usr/sbin:/usr/bin:/sbin:/bin"]);
    let mut taken = false;
    assert!(secondary_main(true, &mut taken).contains(&SecondaryStep::MockDisk));
    assert!(!secondary_main(true, &mut taken).contains(&SecondaryStep::MockDisk));
    let mut free = false;
    assert_eq!(secondary_main(false, &mut free).len(), 3);
    assert!(!free);
}
