#![allow(dead_code)]

use std::collections::HashMap;

use zcore::hw::{Bus, Hardware, MmuFlags};
use zcore::nvme::command::{AppleNvmmuTcb, NvmeCommand, NvmeCompletion};
use zcore::boot::adt::Adt;
use zcore::boot::entry::{
    adt_location, discover_apple_mmio, early_say, read_boot_args, rust_entry, rust_entry_apple_bootargs,
    rust_entry_fdt, rust_entry_rboot, store_cmdline, AppleBootArgs, AppleBootVideo, BootHead,
    BootKind, EarlyConsole, Piece, RbootInfo,
};
use zcore::boot::fdt::{
    check_header, find_reg_property, interpret, is_walkable, parse_fdt, FdtEvent, FdtItem,
};

/// What a driver did.
#[derive(Debug, Clone, PartialEq, Eq)]
enum Op {
    R8(u64),
    R32(u64),
    R64(u64),
    W8(u64, u8),
    W32(u64, u32),
    Hv(u64, u64, u64, u64),
    Fence,
    Alloc(u64),
    Dealloc(u64, u64),
    Zero(u64, u64),
    Cmd(u64, u8, u8),
    Tcb(u64, u8, u32),
    Cqe(u64),
    Reset,
    Irq(u64),
    Frames(u64),
    Free(u64),
    Query(u64),
    Update(u64),
    Mapped(u64),
    Flush,
    Timer,
    Gic(u64, u64),
}

/// A machine that answers loads from lists, the last entry of which stays.
#[derive(Default)]
struct Machine {
    ops: Vec<Op>,
    answers: HashMap<u64, Vec<u64>>,
    completions: Vec<NvmeCompletion>,
    timer: Vec<u64>,
    gic: u64,
    next_dma: u64,
    frames: Option<u64>,
    pages: HashMap<u64, (MmuFlags, u64)>,
    updatable: bool,
    mappable: bool,
}

impl Machine {
    fn with(mut self, addr: u64, values: &[u64]) -> Self {
        self.answers.insert(addr, values.to_vec());
        self
    }

    fn answer(&mut self, addr: u64) -> u64 {
        match self.answers.get_mut(&addr) {
            Some(list) if list.len() > 1 => list.remove(0),
            Some(list) => list.first().copied().unwrap_or(0),
            None => 0,
        }
    }
}

impl Hardware for Machine {
    fn read8(&mut self, addr: u64) -> u8 {
        self.ops.push(Op::R8(addr));
        self.answer(addr) as u8
    }
    fn read32(&mut self, addr: u64) -> u32 {
        self.ops.push(Op::R32(addr));
        self.answer(addr) as u32
    }
    fn read64(&mut self, addr: u64) -> u64 {
        self.ops.push(Op::R64(addr));
        self.answer(addr)
    }
    fn write8(&mut self, addr: u64, val: u8) {
        self.ops.push(Op::W8(addr, val));
    }
    fn write32(&mut self, addr: u64, val: u32) {
        self.ops.push(Op::W32(addr, val));
    }
    fn hvcall4(&mut self, id: u64, a1: u64, a2: u64, a3: u64) -> u64 {
        self.ops.push(Op::Hv(id, a1, a2, a3));
        self.answer(a1)
    }
    fn fence(&mut self) {
        self.ops.push(Op::Fence);
    }
    fn spin_loop(&mut self) {}
    fn alloc_dma(&mut self, size: u64) -> (u64, u64) {
        self.ops.push(Op::Alloc(size));
        self.next_dma += 0x1_0000;
        (0xffff_0000_0000_0000 + self.next_dma, self.next_dma)
    }
    fn dealloc_dma(&mut self, va: u64, size: u64) {
        self.ops.push(Op::Dealloc(va, size));
    }
    fn zero(&mut self, va: u64, size: u64) {
        self.ops.push(Op::Zero(va, size));
    }
    fn store_command(&mut self, addr: u64, cmd: NvmeCommand) {
        self.ops.push(Op::Cmd(addr, cmd.opcode, cmd.tag));
    }
    fn store_tcb(&mut self, addr: u64, tcb: AppleNvmmuTcb) {
        self.ops.push(Op::Tcb(addr, tcb.dma_flags, tcb.length));
    }
    fn load_completion(&mut self, addr: u64) -> NvmeCompletion {
        self.ops.push(Op::Cqe(addr));
        if self.completions.len() > 1 {
            self.completions.remove(0)
        } else {
            self.completions.first().copied().unwrap_or_default()
        }
    }
    fn reset_domain(&mut self) {
        self.ops.push(Op::Reset);
    }
    fn dispatch_irq(&mut self, irq: u64) {
        self.ops.push(Op::Irq(irq));
    }
    fn alloc_frames(&mut self, pages: u64) -> Option<u64> {
        self.ops.push(Op::Frames(pages));
        self.frames
    }
    fn free_frame(&mut self, paddr: u64) {
        self.ops.push(Op::Free(paddr));
    }
    fn query_page(&mut self, vaddr: u64) -> Option<(MmuFlags, u64)> {
        self.ops.push(Op::Query(vaddr));
        self.pages.get(&vaddr).copied()
    }
    fn update_page(&mut self, vaddr: u64, flags: MmuFlags) -> bool {
        self.ops.push(Op::Update(vaddr));
        if let Some(page) = self.pages.get_mut(&vaddr) {
            page.0 = flags;
        }
        self.updatable
    }
    fn map_page(&mut self, vaddr: u64, size: u64, paddr: u64, flags: MmuFlags) -> bool {
        self.ops.push(Op::Mapped(vaddr));
        if self.mappable {
            self.pages.insert(vaddr, (flags, size));
        }
        assert_eq!(paddr % 0x1000, 0);
        self.mappable
    }
    fn flush_tlb(&mut self) {
        self.ops.push(Op::Flush);
    }
    fn timer_control(&mut self) -> u64 {
        self.ops.push(Op::Timer);
        if self.timer.len() > 1 {
            self.timer.remove(0)
        } else {
            self.timer.first().copied().unwrap_or(0)
        }
    }
    fn gic_irq(&mut self, cpu: u64, dist: u64) -> u64 {
        self.ops.push(Op::Gic(cpu, dist));
        self.gic
    }
}

fn sent(ops: &[Op]) -> String {
    ops.iter()
        .filter_map(|op| match op {
            Op::W32(_, val) => Some(*val as u8 as char),
            _ => None,
        })
        .collect()
}

/// Builds a node of an Apple device tree.
fn node(props: &[(&str, Vec<u8>)], children: &[Vec<u8>]) -> Vec<u8> {
    let mut out = Vec::new();
    out.extend((props.len() as u32).to_le_bytes());
    out.extend((children.len() as u32).to_le_bytes());
    for (name, value) in props {
        let mut field = [0u8; 32];
        field[..name.len()].copy_from_slice(name.as_bytes());
        out.extend(field);
        out.extend((value.len() as u32 | 0x8000_0000).to_le_bytes());
        out.extend(value);
        out.resize(out.len().div_ceil(4) * 4, 0);
    }
    for child in children {
        out.extend(child);
    }
    out
}

fn text(s: &str) -> Vec<u8> {
    let mut bytes = s.as_bytes().to_vec();
    bytes.push(0);
    bytes
}

fn word(v: u32) -> Vec<u8> {
    v.to_le_bytes().to_vec()
}

fn reg(list: &[u64]) -> Vec<u8> {
    list.iter().flat_map(|v| v.to_le_bytes()).collect()
}

fn tree() -> Vec<u8> {
    let aic = node(
        &[
            ("name", text("aic")),
            ("compatible", text("aic,2")),
            ("reg", reg(&[0x8e10_0000, 0x1c000])),
            ("aic-iack-offset", word(0xc000)),
            ("cap0-offset", word(0x4)),
        ],
        &[],
    );
    let ans = node(
        &[("name", text("ans")), ("reg", reg(&[0x10, 1, 0x20, 2, 0x30, 3, 0x40, 4]))],
        &[],
    );
    let uart = node(&[("name", text("uart0")), ("interrupts", word(0x4b8))], &[]);
    let arm_io = node(
        &[
            ("name", text("arm-io")),
            ("#address-cells", word(2)),
            ("#size-cells", word(2)),
            ("ranges", reg(&[0, 0x2_0000_0000, 0x1_0000_0000])),
        ],
        &[aic, ans, uart],
    );
    node(
        &[("name", text("device-tree")), ("#address-cells", word(2)), ("#size-cells", word(2))],
        &[arm_io],
    )
}

fn args(size: u32) -> AppleBootArgs {
    let mut cmdline = [0u8; 256];
    cmdline[..7].copy_from_slice(b"LOG=inf");
    AppleBootArgs {
        revision: 2,
        version: 2,
        virt_base: 0xffff_fe00_0000_0000,
        phys_base: 0x100_0000_0000,
        mem_size: 0x4_0000_0000,
        top_of_kernel_data: 0,
        video: AppleBootVideo { base: 7, display: 1, stride: 8, width: 9, height: 10, depth: 30 },
        machine_type: 0,
        devtree: 0xffff_fe00_0010_0000,
        devtree_size: size,
        cmdline,
    }
}

#[test]
fn tree_is_walked_by_path() {
    let data = tree();
    let adt = Adt::new(0x1000, &data).unwrap();
    let aic = adt.path("/arm-io/aic").unwrap();
    assert_eq!(adt.prop_u32(aic.offset(), "aic-iack-offset"), Some(0xc000));
    assert!(adt.is_compatible(aic.offset(), "aic,2"));
    assert!(!adt.is_compatible(aic.offset(), "aic,3"));
    assert_eq!(adt.reg(&aic, 0), Some((0x2_8e10_0000, 0x1c000)));
    assert_eq!(adt.reg(&aic, 1), None);
    assert_eq!(adt.path_reg("/arm-io/ans", 3), Some((0x2_0000_0040, 4)));
    assert!(adt.path("/arm-io/none").is_none());
    assert_eq!(adt.prop(aic.offset(), "name"), Some(&b"aic\0"[..]));
    assert_eq!(adt.prop(aic.offset(), "nothing"), None);
}

#[test]
fn bad_trees_are_refused() {
    let data = tree();
    assert!(Adt::new(0, &data).is_none());
    assert!(Adt::new(0x1002, &data).is_none());
    assert!(Adt::new(0x1000, &[0; 7]).is_none());
    assert!(Adt::new(0x1000, &[0; 8]).is_none());
    let adt = Adt::new(0x1000, &data[..60]).unwrap();
    assert!(adt.path("/arm-io/aic").is_none());
}

#[test]
fn tree_must_be_in_memory() {
    assert_eq!(adt_location(&args(0x1000)), Some((0x100_0010_0000, 0x1000)));
    assert_eq!(adt_location(&args(4)), None);
    assert_eq!(adt_location(&args(0x100_0001)), None);
    let mut below = args(0x1000);
    below.devtree = 0x1000;
    assert_eq!(adt_location(&below), None);
    let mut odd = args(0x1000);
    odd.devtree += 2;
    assert_eq!(adt_location(&odd), None);
    let mut beyond = args(0x1000);
    beyond.mem_size = 0x10_0800;
    assert_eq!(adt_location(&beyond), None);
}

#[test]
fn windows_are_discovered() {
    let data = tree();
    let mut bus = Bus::new(Machine::default());
    let ba = args(data.len() as u32);
    let out = discover_apple_mmio(&mut bus, EarlyConsole::new(true), &ba, &data);
    assert_eq!((out.aic_base, out.aic_size, out.aic_version), (0x2_8e10_0000, 0x1c000, 2));
    assert_eq!((out.aic_event_offset, out.aic_cap0_offset, out.aic_irq_cfg), (0xc000, 4, 0));
    assert_eq!((out.ans_base, out.nvme_base, out.nvme_size), (0x2_0000_0010, 0x2_0000_0040, 4));
    assert_eq!((out.sart_base, out.pmgr_base, out.uart_irq), (0, 0, 0x4b8));
    let said = sent(&bus.into_inner().ops);
    assert!(said.starts_with("HVLOG: ba: rev=0x2 ver=0x2 virt=0xfffffe0000000000"));
    assert!(said.contains("HVLOG: adt: aic version=0x2\r\n"));
    assert!(said.ends_with(" nvme=0x200000040 sart=0x0\r\n"));
}

#[test]
fn nothing_is_discovered_without_a_tree() {
    let mut bus = Bus::new(Machine::default());
    let console = EarlyConsole::new(true);
    let out = discover_apple_mmio(&mut bus, console, &args(4), &[]);
    assert_eq!(out.aic_base, 0);
    let out = discover_apple_mmio(&mut bus, console, &args(16), &[0; 16]);
    assert_eq!(out.aic_base, 0);
    let said = sent(&bus.into_inner().ops);
    assert!(said.contains("implausible location 0x10000100000"));
    assert!(said.contains("bad header"));
}

#[test]
fn apple_arguments_make_a_configuration() {
    let data = tree();
    let mut bus = Bus::new(Machine::default());
    let mut console = EarlyConsole::new(true);
    let ba = args(data.len() as u32);
    let offset = 0xffff_8000_0000_0000;
    let config = rust_entry_apple_bootargs(&mut bus, &mut console, &ba, offset, &data);
    assert_eq!(config.cmdline, "LOG=inf");
    assert!(config.firmware_type.contains("Apple") || config.firmware_type.contains("Asahi"));
    assert_eq!(config.apple.aic_base, 0x2_8e10_0000);
    assert_eq!(config.gic_base, 0x2_8e10_0000);
    assert_eq!(config.phys_to_virt_offset, offset);
    assert_eq!((config.apple.fb_base, config.apple.fb_width), (7, 9));
    // The firmware switched the display off.
    let mut headless = args(data.len() as u32);
    headless.video.display = 0;
    let config = rust_entry_apple_bootargs(&mut bus, &mut console, &headless, offset, &data);
    assert_eq!((config.apple.fb_base, config.apple.fb_width), (0, 0));
}

#[test]
fn kernel_tells_what_it_was_handed() {
    let console = EarlyConsole::new(false);
    let head = BootHead { arg0: 0x4000_0000, first_word: 0xd00d_feed, revision: 0, phys_base: 0 };
    let mut bus = Bus::new(Machine::default());
    assert_eq!(rust_entry(&mut bus, console, head), BootKind::Fdt);
    let low = BootHead { arg0: 0xfff, ..head };
    assert_eq!(rust_entry(&mut bus, console, low), BootKind::Rboot);
    let apple = BootHead { first_word: 2, revision: 2, phys_base: 0x8_0000_0000, ..head };
    assert_eq!(rust_entry(&mut bus, console, apple), BootKind::AppleBootArgs);
    let later = BootHead { revision: 4, ..apple };
    assert_eq!(rust_entry(&mut bus, console, later), BootKind::Rboot);
    assert!(bus.into_inner().ops.is_empty());
}

#[test]
fn boot_arguments_are_read_from_memory() {
    let mut bytes = vec![0u8; 364];
    bytes[0] = 3;
    bytes[2..4].copy_from_slice(&0x201u16.to_le_bytes());
    bytes[16..24].copy_from_slice(&0x100_0000_0000u64.to_le_bytes());
    bytes[64..72].copy_from_slice(&3024u64.to_le_bytes());
    bytes[96..104].copy_from_slice(&0xffff_fe00_0010_0000u64.to_le_bytes());
    bytes[104..108].copy_from_slice(&0x6_0000u32.to_le_bytes());
    bytes[108..112].copy_from_slice(b"-v x");
    let ba = read_boot_args(&bytes).unwrap();
    assert_eq!((ba.revision, ba.version, ba.phys_base), (3, 0x201, 0x100_0000_0000));
    assert_eq!((ba.video.width, ba.devtree_size), (3024, 0x6_0000));
    assert_eq!(ba.devtree, 0xffff_fe00_0010_0000);
    assert_eq!(store_cmdline(&ba.cmdline), "-v x");
    assert!(read_boot_args(&bytes[..363]).is_none());
}

#[test]
fn pieces_are_said_in_order() {
    let mut bus = Bus::new(Machine::default());
    let console = EarlyConsole::new(true);
    early_say(&mut bus, console, &[Piece::Text("a="), Piece::Hex(0x2f), Piece::Text("\n")]);
    assert_eq!(sent(&bus.into_inner().ops), "a=0x2f\r\n");
}

#[test]
fn command_line_ends_at_nul() {
    assert_eq!(store_cmdline(b"LOG=warn\0rest"), "LOG=warn");
    assert_eq!(store_cmdline(b"\xff\xfe"), "");
    assert_eq!(store_cmdline(b""), "");
}

/// Builds a device tree blob.
struct Blob {
    structure: Vec<u8>,
    strings: Vec<u8>,
}

impl Blob {
    fn new() -> Self {
        Blob { structure: Vec::new(), strings: Vec::new() }
    }

    fn word(&mut self, v: u32) {
        self.structure.extend(v.to_be_bytes());
    }

    fn pad(&mut self) {
        self.structure.resize(self.structure.len().div_ceil(4) * 4, 0);
    }

    fn begin(&mut self, name: &str) {
        self.word(1);
        self.structure.extend(name.as_bytes());
        self.structure.push(0);
        self.pad();
    }

    fn end(&mut self) {
        self.word(2);
    }

    fn prop(&mut self, name: &str, value: &[u8]) {
        let off = self.strings.len() as u32;
        self.strings.extend(name.as_bytes());
        self.strings.push(0);
        self.word(3);
        self.word(value.len() as u32);
        self.word(off);
        self.structure.extend(value);
        self.pad();
    }

    fn finish(mut self) -> Vec<u8> {
        self.word(9);
        let reserved = 40u32;
        let structure = reserved + 16;
        let strings = structure + self.structure.len() as u32;
        let total = strings + self.strings.len() as u32;
        let mut out = Vec::new();
        for v in [
            0xd00d_feed,
            total,
            structure,
            strings,
            reserved,
            17,
            16,
            0,
            self.strings.len() as u32,
            self.structure.len() as u32,
        ] {
            out.extend(v.to_be_bytes());
        }
        out.extend([0; 16]);
        out.extend(self.structure);
        out.extend(self.strings);
        out
    }
}

fn blob() -> Vec<u8> {
    let mut b = Blob::new();
    b.begin("");
    b.prop("model", b"test\0");
    b.begin("chosen");
    b.prop("bootargs", b"LOG=debug\0");
    b.begin("framebuffer@1");
    b.prop("reg", &[0, 0, 0, 0, 0, 0, 0x10, 0, 0, 0, 0, 0, 0, 0, 0x20, 0]);
    b.prop("width", &[0, 0, 5, 0]);
    b.prop("format", b"x8r8g8b8\0");
    b.end();
    b.end();
    b.begin("memory@40000000");
    b.prop("reg", &[0, 0, 0, 0, 0x40, 0, 0, 0, 0, 0, 0, 0, 8, 0, 0, 0]);
    b.end();
    b.begin("aic@1");
    b.prop("compatible", b"apple,t6020-aic\0apple,aic2\0");
    b.end();
    b.end();
    b.finish()
}

#[test]
fn blob_is_parsed() {
    let data = blob();
    assert!(is_walkable(&data));
    assert!(check_header(&data).is_some());
    let parsed = parse_fdt(0x8000_0000, &data).unwrap();
    assert_eq!(parsed.cmdline.as_deref(), Some("LOG=debug"));
    assert_eq!(parsed.memory_regions.len(), 1);
    let memory = parsed.memory_regions[0];
    assert_eq!((memory.start, memory.end), (0x4000_0000, 0x4800_0000));
    assert_eq!((parsed.fb_base, parsed.fb_size), (Some(0x1000), Some(0x2000)));
    assert_eq!(parsed.fb_width, Some(0x500));
    assert_eq!(parsed.fb_height, None);
    assert_eq!(parsed.fb_format.as_deref(), Some("x8r8g8b8"));
    assert_eq!(parsed.aic_version, Some(2));
    let parsed = Some(parsed);
    let config = rust_entry_fdt(&parsed, 0);
    assert_eq!(config.cmdline, "LOG=debug");
}

#[test]
fn bad_blobs_are_refused() {
    let data = blob();
    assert!(parse_fdt(0x8000_0002, &data).is_none());
    assert!(parse_fdt(0x8000_0000, &data[..data.len() - 1]).is_none());
    assert!(parse_fdt(0x8000_0000, &[]).is_none());
    let mut magic = data.clone();
    magic[0] = 0;
    assert!(parse_fdt(0x8000_0000, &magic).is_none());
    let mut old = data.clone();
    old[23] = 16;
    assert!(parse_fdt(0x8000_0000, &old).is_none());
    // The token that ends the root.
    let mut open = data.clone();
    let last = open.windows(8).rposition(|w| w == [0, 0, 0, 2, 0, 0, 0, 9]).unwrap();
    open[last + 3] = 4;
    assert!(!is_walkable(&open));
    assert!(parse_fdt(0x8000_0000, &open).is_none());
    let config = rust_entry_fdt(&None, 0xffff_0000_0000_0000);
    assert_eq!(config.cmdline, "");
    assert_eq!(config.phys_to_virt_offset, 0xffff_0000_0000_0000);
}

#[test]
fn only_the_root_has_a_reg() {
    let event = |level, node: &str, name: &str| FdtEvent {
        level,
        node: node.as_bytes().to_vec(),
        item: FdtItem::General(name.as_bytes().to_vec(), vec![1, 2, 3]),
    };
    let events = vec![
        event(0, "", "reg"),
        FdtEvent { level: 0, node: Vec::new(), item: FdtItem::SubNode(b"uart".to_vec()) },
        event(1, "uart", "reg"),
    ];
    assert_eq!(find_reg_property(&events, b""), Some(vec![1, 2, 3]));
    assert_eq!(find_reg_property(&events, b"uart"), None);
    assert!(interpret(&events).uart_base.is_none());
}

#[test]
fn loader_record_is_taken_over() {
    let info = RbootInfo {
        cmdline: "c",
        firmware_type: "UEFI",
        uart_base: 1,
        gic_base: 2,
        offset: 3,
    };
    let config = rust_entry_rboot(&info);
    assert_eq!((config.cmdline, config.firmware_type), ("c", "UEFI"));
    assert_eq!((config.uart_base, config.gic_base, config.phys_to_virt_offset), (1, 2, 3));
    assert_eq!(config.apple.aic_base, 0);
}
