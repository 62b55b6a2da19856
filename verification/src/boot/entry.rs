//! Entry from the boot loader.
//!
//! The kernel is handed a device tree blob, Apple boot arguments, or the record of
//! a UEFI loader, and makes its configuration out of it.

use vstd::prelude::*;

use crate::boot::adt::{
    compatible, name_bytes, nodes_on, path_reg_of, prop_word_of, reg_of, Adt, NodePath,
};
use crate::boot::fdt::{text_or_empty, ParsedFdt};
use crate::bytes::{le32, le64, le_value};
use crate::hal::config::{AppleMmio, KernelConfig};
use crate::hal::early::{crlf, early_puts, hex, sent};
use crate::hw::{address, at, Access, Bus, Hardware};
use crate::text::{cut_at_nul, until_nul, utf8};
use crate::uart::uart_s5l::UTXH;

verus! {

/// The first word of a device tree blob.
pub const FDT_MAGIC_BE: u32 = 0xd00d_feed;

/// Physical address of the serial port of a T6020.
pub const UART_PHYS_BASE: u64 = 0x3_9b20_0000;

/// Physical address of the interrupt controller of a T6020.
pub const AIC_PHYS_BASE: u64 = 0x2_8e10_0000;

/// Address of the interrupt controller of a virtual machine.
pub const GIC_DEFAULT_BASE: u64 = 0x0800_0000;

/// No Apple device tree is larger.
pub const ADT_MAX_SIZE: u64 = 0x100_0000;

/// The output that is available from the first instruction on, if the board has
/// one: the address of its serial port. It moves when page tables change.
#[derive(Clone, Copy)]
pub struct EarlyConsole {
    pub is_apple_board: bool,
    pub uart: u64,
}

/// A piece of early output.
#[derive(Clone, Copy)]
pub enum Piece {
    Text(&'static str),
    Hex(u64),
}

/// The characters of a piece.
pub open spec fn piece_bytes(piece: Piece) -> Seq<u8> {
    match piece {
        Piece::Text(s) => crlf(vstd::utf8::encode_utf8(s@)),
        Piece::Hex(v) => hex(v as nat),
    }
}

/// The characters of several pieces.
pub open spec fn spelled(pieces: Seq<Piece>) -> Seq<u8>
    decreases pieces.len(),
{
    if pieces.len() == 0 {
        Seq::empty()
    } else {
        spelled(pieces.drop_last()) + piece_bytes(pieces.last())
    }
}

proof fn lemma_spelled_add(a: Seq<Piece>, b: Seq<Piece>)
    ensures
        spelled(a + b) == spelled(a) + spelled(b),
    decreases b.len(),
{
    if b.len() == 0 {
        assert(a + b =~= a);
        assert(spelled(a) + spelled(b) =~= spelled(a));
    } else {
        lemma_spelled_add(a, b.drop_last());
        assert((a + b).drop_last() =~= a + b.drop_last());
        assert((a + b).last() == b.last());
        assert(spelled(a + b) =~= spelled(a) + spelled(b));
    }
}

impl EarlyConsole {
    /// The stores that output `bytes`. Other boards have nothing to store to.
    pub open spec fn says(self, bytes: Seq<u8>) -> Seq<Access> {
        if self.is_apple_board {
            sent(at(self.uart, UTXH), bytes)
        } else {
            Seq::empty()
        }
    }

    /// The console before the kernel's page tables are in place.
    pub fn new(is_apple_board: bool) -> (console: Self)
        ensures
            console.is_apple_board == is_apple_board,
            console.uart == UART_PHYS_BASE,
    {
        EarlyConsole { is_apple_board, uart: UART_PHYS_BASE }
    }
}

/// Outputs one character.
pub fn early_putchar<H: Hardware>(bus: &mut Bus<H>, console: EarlyConsole, c: u8)
    ensures
        final(bus).log() == old(bus).log() + console.says(seq![c]),
{
    let ghost start = bus.log();
    if console.is_apple_board {
        bus.write32(address(console.uart, UTXH), c as u32);
    }
    assert(bus.log() =~= start + console.says(seq![c]));
}

/// Outputs a text.
pub fn early_print<H: Hardware>(bus: &mut Bus<H>, console: EarlyConsole, s: &str)
    ensures
        final(bus).log() == old(bus).log() + console.says(crlf(vstd::utf8::encode_utf8(s@))),
{
    let ghost start = bus.log();
    if console.is_apple_board {
        early_puts(bus, console.uart, s);
    } else {
        assert(bus.log() =~= start + Seq::<Access>::empty());
    }
}

/// Outputs a number as `0x…`.
pub fn early_hex<H: Hardware>(bus: &mut Bus<H>, console: EarlyConsole, v: u64)
    ensures
        final(bus).log() == old(bus).log() + console.says(hex(v as nat)),
{
    let ghost start = bus.log();
    if console.is_apple_board {
        crate::hal::early::early_hex(bus, console.uart, v);
    } else {
        assert(bus.log() =~= start + Seq::<Access>::empty());
    }
}

/// Outputs several pieces.
pub fn early_say<H: Hardware>(bus: &mut Bus<H>, console: EarlyConsole, pieces: &[Piece])
    ensures
        final(bus).log() == old(bus).log() + console.says(spelled(pieces@)),
{
    let ghost start = bus.log();
    let mut i: usize = 0;
    assert(bus.log() =~= start + console.says(spelled(pieces@.take(0))));
    while i < pieces.len()
        invariant
            i <= pieces@.len(),
            pieces@.len() == pieces.len(),
            bus.log() == start + console.says(spelled(pieces@.take(i as int))),
        decreases pieces.len() - i,
    {
        match pieces[i] {
            Piece::Text(s) => early_print(bus, console, s),
            Piece::Hex(v) => early_hex(bus, console, v),
        }
        proof {
            assert(pieces@.take(i + 1).drop_last() =~= pieces@.take(i as int));
            assert(pieces@.take(i + 1).last() == pieces@[i as int]);
            assert(bus.log() =~= start + console.says(spelled(pieces@.take(i + 1))));
        }
        i += 1;
    }
    assert(pieces@.take(i as int) =~= pieces@);
}

/// The framebuffer that the firmware left behind.
#[derive(Debug, Clone, Copy)]
pub struct AppleBootVideo {
    pub base: u64,
    pub display: u64,
    pub stride: u64,
    pub width: u64,
    pub height: u64,
    pub depth: u64,
}

/// Apple boot arguments.
#[derive(Clone, Copy)]
pub struct AppleBootArgs {
    pub revision: u16,
    pub version: u16,
    pub virt_base: u64,
    pub phys_base: u64,
    pub mem_size: u64,
    pub top_of_kernel_data: u64,
    pub video: AppleBootVideo,
    pub machine_type: u32,
    pub devtree: u64,
    pub devtree_size: u32,
    pub cmdline: [u8; 256],
}

/// The size of Apple boot arguments in memory.
pub const BOOT_ARGS_SIZE: usize = 364;

/// The number in `bytes[from..to]`.
pub open spec fn number_in(bytes: Seq<u8>, from: int, to: int) -> nat {
    le_value(bytes.subrange(from, to))
}

/// Whether `ba` is what `bytes` hold. Fields are aligned to their sizes.
pub open spec fn is_laid_out(ba: AppleBootArgs, bytes: Seq<u8>) -> bool {
    &&& ba.revision == number_in(bytes, 0, 2)
    &&& ba.version == number_in(bytes, 2, 4)
    &&& ba.virt_base == number_in(bytes, 8, 16)
    &&& ba.phys_base == number_in(bytes, 16, 24)
    &&& ba.mem_size == number_in(bytes, 24, 32)
    &&& ba.top_of_kernel_data == number_in(bytes, 32, 40)
    &&& ba.video.base == number_in(bytes, 40, 48)
    &&& ba.video.display == number_in(bytes, 48, 56)
    &&& ba.video.stride == number_in(bytes, 56, 64)
    &&& ba.video.width == number_in(bytes, 64, 72)
    &&& ba.video.height == number_in(bytes, 72, 80)
    &&& ba.video.depth == number_in(bytes, 80, 88)
    &&& ba.machine_type == number_in(bytes, 88, 92)
    &&& ba.devtree == number_in(bytes, 96, 104)
    &&& ba.devtree_size == number_in(bytes, 104, 108)
    &&& ba.cmdline@ == bytes.subrange(108, 364)
}

/// The 16-bit number at `offset`.
fn half_word(bytes: &[u8], offset: usize) -> (value: u16)
    requires
        offset + 2 <= bytes@.len(),
    ensures
        value == number_in(bytes@, offset as int, offset + 2),
{
    proof {
        let both = bytes@.subrange(offset as int, offset + 2);
        reveal_with_fuel(le_value, 3);
        assert(both.skip(1) =~= seq![both[1]]);
        assert(both.skip(1).skip(1) =~= Seq::<u8>::empty());
    }
    bytes[offset] as u16 + 256 * bytes[offset + 1] as u16
}

/// Reads Apple boot arguments as they are in memory.
pub fn read_boot_args(bytes: &[u8]) -> (ba: Option<AppleBootArgs>)
    ensures
        match ba {
            Some(ba) => bytes@.len() >= BOOT_ARGS_SIZE && is_laid_out(ba, bytes@),
            None => bytes@.len() < BOOT_ARGS_SIZE,
        },
{
    if bytes.len() < BOOT_ARGS_SIZE {
        return None;
    }
    let mut cmdline: [u8; 256] = [0; 256];
    let mut i: usize = 0;
    while i < 256
        invariant
            i <= 256,
            bytes@.len() >= BOOT_ARGS_SIZE,
            bytes@.len() == bytes.len(),
            forall|k: int| 0 <= k < i ==> cmdline@[k] == bytes@[108 + k],
        decreases 256 - i,
    {
        cmdline[i] = bytes[108 + i];
        i += 1;
    }
    assert(cmdline@ =~= bytes@.subrange(108, 364));
    Some(
        AppleBootArgs {
            revision: half_word(bytes, 0),
            version: half_word(bytes, 2),
            virt_base: le64(bytes, 8),
            phys_base: le64(bytes, 16),
            mem_size: le64(bytes, 24),
            top_of_kernel_data: le64(bytes, 32),
            video: AppleBootVideo {
                base: le64(bytes, 40),
                display: le64(bytes, 48),
                stride: le64(bytes, 56),
                width: le64(bytes, 64),
                height: le64(bytes, 72),
                depth: le64(bytes, 80),
            },
            machine_type: le32(bytes, 88),
            devtree: le64(bytes, 96),
            devtree_size: le32(bytes, 104),
            cmdline,
        },
    )
}

/// What the kernel was handed.
#[derive(Debug, Clone, Copy, PartialEq, Eq, Structural)]
pub enum BootKind {
    Fdt,
    AppleBootArgs,
    Rboot,
}

/// The fields by which the kernel tells what it was handed: the big-endian first
/// word, if the address can be one at all, and two fields of Apple boot arguments.
#[derive(Debug, Clone, Copy)]
pub struct BootHead {
    pub arg0: u64,
    pub first_word: u32,
    pub revision: u16,
    pub phys_base: u64,
}

/// What the kernel was handed.
pub open spec fn boot_kind(head: BootHead) -> BootKind {
    if head.arg0 >= 0x1000 && head.first_word == FDT_MAGIC_BE {
        BootKind::Fdt
    } else if 1 <= head.revision <= 3 && head.phys_base >= 0x1000_0000 {
        BootKind::AppleBootArgs
    } else {
        BootKind::Rboot
    }
}

/// What is output about it.
pub open spec fn kind_report(kind: BootKind) -> Seq<Piece> {
    seq![
        Piece::Text("HVLOG: [rust_entry] reached successfully!\n"),
        match kind {
            BootKind::Fdt => Piece::Text("HVLOG: [rust_entry] detected FDT\n"),
            BootKind::AppleBootArgs => Piece::Text(
                "HVLOG: [rust_entry] detected Apple BootArgs\n",
            ),
            BootKind::Rboot => Piece::Text("HVLOG: [rust_entry] fallback to rboot\n"),
        },
    ]
}

/// Finds out what the kernel was handed.
pub fn rust_entry<H: Hardware>(bus: &mut Bus<H>, console: EarlyConsole, head: BootHead) -> (kind:
    BootKind)
    ensures
        kind == boot_kind(head),
        final(bus).log() == old(bus).log() + console.says(spelled(kind_report(kind))),
{
    let magic: u32 = if head.arg0 != 0 && head.arg0 >= 0x1000 {
        head.first_word
    } else {
        0
    };
    let kind: BootKind = if magic == FDT_MAGIC_BE {
        BootKind::Fdt
    } else if head.revision >= 1 && head.revision <= 3 && head.phys_base >= 0x1000_0000 {
        BootKind::AppleBootArgs
    } else {
        BootKind::Rboot
    };
    let found: Piece = match kind {
        BootKind::Fdt => Piece::Text("HVLOG: [rust_entry] detected FDT\n"),
        BootKind::AppleBootArgs => Piece::Text("HVLOG: [rust_entry] detected Apple BootArgs\n"),
        BootKind::Rboot => Piece::Text("HVLOG: [rust_entry] fallback to rboot\n"),
    };
    let pieces: [Piece; 2] = [Piece::Text("HVLOG: [rust_entry] reached successfully!\n"), found];
    assert(pieces@ =~= kind_report(kind));
    early_say(bus, console, pieces.as_slice());
    kind
}

/// The boot command line up to its first NUL, or nothing if it is not text.
pub fn store_cmdline<'a>(src: &'a [u8]) -> (cmdline: &'a str)
    ensures
        vstd::utf8::encode_utf8(cmdline@) == text_or_empty(until_nul(src@)),
{
    match utf8(cut_at_nul(src)) {
        Some(s) => s,
        None => {
            let empty: &'static str = "";
            proof {
                reveal_strlit("");
                assert(empty@ =~= Seq::<char>::empty());
            }
            empty
        },
    }
}

/// Where the device tree is in physical memory: the address that the arguments
/// give is one of the firmware's own map.
pub open spec fn adt_paddr(ba: AppleBootArgs) -> u64 {
    at(minus(ba.devtree, ba.virt_base), ba.phys_base)
}

/// A difference modulo the width of an address.
pub open spec fn minus(a: u64, b: u64) -> u64 {
    if a >= b {
        (a - b) as u64
    } else {
        (a - b + 0x1_0000_0000_0000_0000) as u64
    }
}

/// Whether the device tree can be where the arguments say: aligned, of a plausible
/// size, and in memory.
pub open spec fn is_plausible(ba: AppleBootArgs) -> bool {
    let paddr = adt_paddr(ba);
    &&& ba.devtree >= ba.virt_base
    &&& paddr % 4 == 0
    &&& 8 <= ba.devtree_size <= ADT_MAX_SIZE
    &&& paddr >= ba.phys_base
    &&& paddr - ba.phys_base + ba.devtree_size <= ba.mem_size
}

/// The physical address and the size of the device tree, if they are plausible.
pub fn adt_location(ba: &AppleBootArgs) -> (place: Option<(u64, u64)>)
    ensures
        place == (if is_plausible(*ba) {
            Some((adt_paddr(*ba), ba.devtree_size as u64))
        } else {
            None
        }),
{
    let size: u64 = ba.devtree_size as u64;
    let paddr: u64 = ba.devtree.wrapping_sub(ba.virt_base).wrapping_add(ba.phys_base);
    if ba.devtree >= ba.virt_base && paddr % 4 == 0 && size >= 8 && size <= ADT_MAX_SIZE && paddr
        >= ba.phys_base && size <= ba.mem_size && paddr - ba.phys_base <= ba.mem_size - size {
        Some((paddr, size))
    } else {
        None
    }
}

/// What is output about the boot arguments.
pub open spec fn args_report(ba: AppleBootArgs) -> Seq<Piece> {
    seq![
        Piece::Text("HVLOG: ba: rev="),
        Piece::Hex(ba.revision as u64),
        Piece::Text(" ver="),
        Piece::Hex(ba.version as u64),
        Piece::Text(" virt="),
        Piece::Hex(ba.virt_base),
        Piece::Text(" phys="),
        Piece::Hex(ba.phys_base),
        Piece::Text(" memsz="),
        Piece::Hex(ba.mem_size),
        Piece::Text(" devtree="),
        Piece::Hex(ba.devtree),
        Piece::Text("/"),
        Piece::Hex(ba.devtree_size as u64),
        Piece::Text("\n"),
    ]
}

/// What is output about what was found in the device tree.
pub open spec fn mmio_report(out: AppleMmio) -> Seq<Piece> {
    seq![
        Piece::Text("HVLOG: adt: aic="),
        Piece::Hex(out.aic_base),
        Piece::Text("/"),
        Piece::Hex(out.aic_size),
        Piece::Text(" iack="),
        Piece::Hex(out.aic_event_offset),
        Piece::Text(" cap0="),
        Piece::Hex(out.aic_cap0_offset),
        Piece::Text(" maxnumirq="),
        Piece::Hex(out.aic_maxnumirq_offset),
        Piece::Text(" extint="),
        Piece::Hex(out.aic_irq_cfg),
        Piece::Text(" strides="),
        Piece::Hex(out.aic_cfg_stride),
        Piece::Text("/"),
        Piece::Hex(out.aic_mask_set_stride),
        Piece::Text("/"),
        Piece::Hex(out.aic_mask_clr_stride),
        Piece::Text("\nHVLOG: adt: pmgr="),
        Piece::Hex(out.pmgr_base),
        Piece::Text(" ans="),
        Piece::Hex(out.ans_base),
        Piece::Text(" nvme="),
        Piece::Hex(out.nvme_base),
        Piece::Text(" sart="),
        Piece::Hex(out.sart_base),
        Piece::Text("\n"),
    ]
}

/// A word property, or zero.
pub open spec fn word_or_zero(data: Seq<u8>, node: int, name: &str) -> u64 {
    match prop_word_of(data, node, name_bytes(name)) {
        Some(v) => v as u64,
        None => 0,
    }
}

/// The generation of an interrupt controller. It comes from `compatible` alone.
pub open spec fn aic_generation(data: Seq<u8>, node: int) -> u32 {
    if compatible(data, node, name_bytes("aic,3")) {
        3
    } else if compatible(data, node, name_bytes("aic,2")) {
        2
    } else if compatible(data, node, name_bytes("aic,1")) {
        1
    } else {
        0
    }
}

/// What the tree says about the interrupt controller.
pub open spec fn with_aic(out: AppleMmio, data: Seq<u8>) -> AppleMmio {
    match nodes_on(data, name_bytes("/arm-io/aic")) {
        None => out,
        Some(nodes) => {
            let node = nodes.last() as int;
            let window = match reg_of(data, nodes, 0) {
                Some(r) => r,
                None => (out.aic_base, out.aic_size),
            };
            AppleMmio {
                aic_base: window.0,
                aic_size: window.1,
                aic_version: aic_generation(data, node),
                aic_event_offset: word_or_zero(data, node, "aic-iack-offset"),
                aic_cap0_offset: word_or_zero(data, node, "cap0-offset"),
                aic_maxnumirq_offset: word_or_zero(data, node, "maxnumirq-offset"),
                aic_irq_cfg: word_or_zero(data, node, "extint-baseaddress"),
                aic_cfg_stride: word_or_zero(data, node, "extintrcfg-stride"),
                aic_mask_set_stride: word_or_zero(data, node, "intmaskset-stride"),
                aic_mask_clr_stride: word_or_zero(data, node, "intmaskclear-stride"),
                ..out
            }
        },
    }
}

/// What is output about the interrupt controller.
pub open spec fn aic_report(data: Seq<u8>) -> Seq<Piece> {
    match nodes_on(data, name_bytes("/arm-io/aic")) {
        None => Seq::empty(),
        Some(nodes) => seq![
            Piece::Text("HVLOG: adt: aic version="),
            Piece::Hex(aic_generation(data, nodes.last() as int) as u64),
            Piece::Text("\n"),
        ],
    }
}

/// What the tree says about the power manager.
pub open spec fn with_pmgr(out: AppleMmio, data: Seq<u8>) -> AppleMmio {
    match path_reg_of(data, name_bytes("/arm-io/pmgr"), 0) {
        None => out,
        Some(r) => AppleMmio { pmgr_base: r.0, pmgr_size: r.1, ..out },
    }
}

/// What the tree says about the storage controller: one window for its
/// coprocessor, and one for both the NVMe and the NVMMU registers.
pub open spec fn with_ans(out: AppleMmio, data: Seq<u8>) -> AppleMmio {
    match nodes_on(data, name_bytes("/arm-io/ans")) {
        None => out,
        Some(nodes) => {
            let ans = match reg_of(data, nodes, 0) {
                Some(r) => r,
                None => (out.ans_base, out.ans_size),
            };
            let nvme = match reg_of(data, nodes, 3) {
                Some(r) => r,
                None => (out.nvme_base, out.nvme_size),
            };
            AppleMmio {
                ans_base: ans.0,
                ans_size: ans.1,
                nvme_base: nvme.0,
                nvme_size: nvme.1,
                ..out
            }
        },
    }
}

/// What is output about the storage controller's mailbox.
pub open spec fn mbox_report(data: Seq<u8>) -> Seq<Piece> {
    match path_reg_of(data, name_bytes("/arm-io/ans_mbox"), 0) {
        None => Seq::empty(),
        Some(r) => seq![
            Piece::Text("HVLOG: adt: ans_mbox="),
            Piece::Hex(r.0),
            Piece::Text("\n"),
        ],
    }
}

/// What the tree says about the storage controller's DMA filter.
pub open spec fn with_sart(out: AppleMmio, data: Seq<u8>) -> AppleMmio {
    match path_reg_of(data, name_bytes("/arm-io/sart-ans"), 0) {
        None => out,
        Some(r) => AppleMmio { sart_base: r.0, sart_size: r.1, ..out },
    }
}

/// What the tree says about the serial port.
pub open spec fn with_uart(out: AppleMmio, data: Seq<u8>) -> AppleMmio {
    let nodes = match nodes_on(data, name_bytes("/arm-io/uart0")) {
        Some(nodes) => Some(nodes),
        None => nodes_on(data, name_bytes("/arm-io/uart2")),
    };
    match nodes {
        None => out,
        Some(found) => match prop_word_of(
            data,
            found.last() as int,
            name_bytes("interrupts"),
        ) {
            None => out,
            Some(irq) => AppleMmio { uart_irq: irq as u64, ..out },
        },
    }
}

/// Whether `data` can be a device tree at `base`.
pub open spec fn is_adt(base: u64, data: Seq<u8>) -> bool {
    base != 0 && base % 4 == 0 && data.len() >= 8 && (crate::boot::adt::counts_at(
        data,
        0,
    ) matches Some((props, children)) && 1 <= props <= 2048 && 1 <= children <= 2048)
}

/// All that a device tree says.
pub open spec fn mmio_in(data: Seq<u8>) -> AppleMmio {
    with_uart(
        with_sart(with_ans(with_pmgr(with_aic(AppleMmio::absent(), data), data), data), data),
        data,
    )
}

/// What discovering the register windows yields. Without a usable device tree
/// nothing is known.
pub open spec fn discovered(ba: AppleBootArgs, data: Seq<u8>) -> AppleMmio {
    if is_plausible(ba) && is_adt(adt_paddr(ba), data) {
        mmio_in(data)
    } else {
        AppleMmio::absent()
    }
}

/// What is output meanwhile.
pub open spec fn discovery_report(ba: AppleBootArgs, data: Seq<u8>) -> Seq<Piece> {
    args_report(ba) + if !is_plausible(ba) {
        seq![
            Piece::Text("HVLOG: adt: implausible location "),
            Piece::Hex(adt_paddr(ba)),
            Piece::Text(", falling back to hardcoded MMIO\n"),
        ]
    } else if !is_adt(adt_paddr(ba), data) {
        seq![Piece::Text("HVLOG: adt: bad header, falling back to hardcoded MMIO\n")]
    } else {
        aic_report(data) + mbox_report(data) + mmio_report(mmio_in(data))
    }
}

/// Reads what the tree says about the interrupt controller.
fn find_aic<'a>(adt: &Adt<'a>, out: AppleMmio) -> (found: Option<AppleMmio>)
    ensures
        found is Some <==> nodes_on(adt.data(), name_bytes("/arm-io/aic")) is Some,
        found matches Some(mmio) ==> mmio == with_aic(out, adt.data()),
        found is None ==> with_aic(out, adt.data()) == out,
{
    let aic: NodePath = match adt.path("/arm-io/aic") {
        None => {
            return None;
        },
        Some(aic) => aic,
    };
    let mut out = out;
    if let Some((base, size)) = adt.reg(&aic, 0) {
        out.aic_base = base;
        out.aic_size = size;
    }
    let node: usize = aic.offset();
    out.aic_version = if adt.is_compatible(node, "aic,3") {
        3
    } else if adt.is_compatible(node, "aic,2") {
        2
    } else if adt.is_compatible(node, "aic,1") {
        1
    } else {
        0
    };
    out.aic_event_offset = adt.prop_u32(node, "aic-iack-offset").unwrap_or(0) as u64;
    out.aic_cap0_offset = adt.prop_u32(node, "cap0-offset").unwrap_or(0) as u64;
    out.aic_maxnumirq_offset = adt.prop_u32(node, "maxnumirq-offset").unwrap_or(0) as u64;
    out.aic_irq_cfg = adt.prop_u32(node, "extint-baseaddress").unwrap_or(0) as u64;
    out.aic_cfg_stride = adt.prop_u32(node, "extintrcfg-stride").unwrap_or(0) as u64;
    out.aic_mask_set_stride = adt.prop_u32(node, "intmaskset-stride").unwrap_or(0) as u64;
    out.aic_mask_clr_stride = adt.prop_u32(node, "intmaskclear-stride").unwrap_or(0) as u64;
    Some(out)
}

/// Reads what the tree says about everything but the interrupt controller.
fn find_others<'a>(adt: &Adt<'a>, out: AppleMmio) -> (found: AppleMmio)
    ensures
        found == with_uart(
            with_sart(with_ans(with_pmgr(out, adt.data()), adt.data()), adt.data()),
            adt.data(),
        ),
{
    let mut out = out;
    if let Some((base, size)) = adt.path_reg("/arm-io/pmgr", 0) {
        out.pmgr_base = base;
        out.pmgr_size = size;
    }
    if let Some(ans) = adt.path("/arm-io/ans") {
        if let Some((base, size)) = adt.reg(&ans, 0) {
            out.ans_base = base;
            out.ans_size = size;
        }
        if let Some((base, size)) = adt.reg(&ans, 3) {
            out.nvme_base = base;
            out.nvme_size = size;
        }
    }
    if let Some((base, size)) = adt.path_reg("/arm-io/sart-ans", 0) {
        out.sart_base = base;
        out.sart_size = size;
    }
    let uart: Option<NodePath> = match adt.path("/arm-io/uart0") {
        Some(path) => Some(path),
        None => adt.path("/arm-io/uart2"),
    };
    if let Some(path) = uart {
        if let Some(irq) = adt.prop_u32(path.offset(), "interrupts") {
            out.uart_irq = irq as u64;
        }
    }
    out
}

/// Reads the register windows and the layout of the interrupt controller out of
/// the Apple device tree. `data` holds the bytes at [`adt_location`].
pub fn discover_apple_mmio<H: Hardware>(
    bus: &mut Bus<H>,
    console: EarlyConsole,
    ba: &AppleBootArgs,
    data: &[u8],
) -> (out: AppleMmio)
    ensures
        out == discovered(*ba, data@),
        final(bus).log() == old(bus).log() + console.says(
            spelled(discovery_report(*ba, data@)),
        ),
{
    let ghost start = bus.log();
    let intro: [Piece; 15] = [
        Piece::Text("HVLOG: ba: rev="),
        Piece::Hex(ba.revision as u64),
        Piece::Text(" ver="),
        Piece::Hex(ba.version as u64),
        Piece::Text(" virt="),
        Piece::Hex(ba.virt_base),
        Piece::Text(" phys="),
        Piece::Hex(ba.phys_base),
        Piece::Text(" memsz="),
        Piece::Hex(ba.mem_size),
        Piece::Text(" devtree="),
        Piece::Hex(ba.devtree),
        Piece::Text("/"),
        Piece::Hex(ba.devtree_size as u64),
        Piece::Text("\n"),
    ];
    assert(intro@ =~= args_report(*ba));
    early_say(bus, console, intro.as_slice());
    let paddr: u64 = ba.devtree.wrapping_sub(ba.virt_base).wrapping_add(ba.phys_base);
    if adt_location(ba).is_none() {
        let last: [Piece; 3] = [
            Piece::Text("HVLOG: adt: implausible location "),
            Piece::Hex(paddr),
            Piece::Text(", falling back to hardcoded MMIO\n"),
        ];
        early_say(bus, console, last.as_slice());
        proof {
            let end = seq![
                Piece::Text("HVLOG: adt: implausible location "),
                Piece::Hex(adt_paddr(*ba)),
                Piece::Text(", falling back to hardcoded MMIO\n"),
            ];
            assert(last@ =~= end);
            lemma_spelled_add(args_report(*ba), end);
            assert(bus.log() =~= start + console.says(spelled(discovery_report(*ba, data@))));
        }
        return AppleMmio::default();
    }
    let adt: Adt = match Adt::new(paddr, data) {
        None => {
            let last: [Piece; 1] = [
                Piece::Text("HVLOG: adt: bad header, falling back to hardcoded MMIO\n"),
            ];
            early_say(bus, console, last.as_slice());
            proof {
                let end = seq![
                    Piece::Text("HVLOG: adt: bad header, falling back to hardcoded MMIO\n"),
                ];
                assert(last@ =~= end);
                lemma_spelled_add(args_report(*ba), end);
                assert(bus.log() =~= start + console.says(
                    spelled(discovery_report(*ba, data@)),
                ));
            }
            return AppleMmio::default();
        },
        Some(adt) => adt,
    };
    let mut out: AppleMmio = AppleMmio::default();
    let ghost l1 = bus.log();
    if let Some(with) = find_aic(&adt, out) {
        out = with;
        let version: [Piece; 3] = [
            Piece::Text("HVLOG: adt: aic version="),
            Piece::Hex(out.aic_version as u64),
            Piece::Text("\n"),
        ];
        assert(version@ =~= aic_report(data@));
        early_say(bus, console, version.as_slice());
    }
    let ghost l2 = bus.log();
    assert(l2 =~= l1 + console.says(spelled(aic_report(data@))));
    if let Some((base, _)) = adt.path_reg("/arm-io/ans_mbox", 0) {
        let mbox: [Piece; 3] = [
            Piece::Text("HVLOG: adt: ans_mbox="),
            Piece::Hex(base),
            Piece::Text("\n"),
        ];
        assert(mbox@ =~= mbox_report(data@));
        early_say(bus, console, mbox.as_slice());
    }
    let ghost l3 = bus.log();
    assert(l3 =~= l2 + console.says(spelled(mbox_report(data@))));
    out = find_others(&adt, out);
    let summary: [Piece; 27] = [
        Piece::Text("HVLOG: adt: aic="),
        Piece::Hex(out.aic_base),
        Piece::Text("/"),
        Piece::Hex(out.aic_size),
        Piece::Text(" iack="),
        Piece::Hex(out.aic_event_offset),
        Piece::Text(" cap0="),
        Piece::Hex(out.aic_cap0_offset),
        Piece::Text(" maxnumirq="),
        Piece::Hex(out.aic_maxnumirq_offset),
        Piece::Text(" extint="),
        Piece::Hex(out.aic_irq_cfg),
        Piece::Text(" strides="),
        Piece::Hex(out.aic_cfg_stride),
        Piece::Text("/"),
        Piece::Hex(out.aic_mask_set_stride),
        Piece::Text("/"),
        Piece::Hex(out.aic_mask_clr_stride),
        Piece::Text("\nHVLOG: adt: pmgr="),
        Piece::Hex(out.pmgr_base),
        Piece::Text(" ans="),
        Piece::Hex(out.ans_base),
        Piece::Text(" nvme="),
        Piece::Hex(out.nvme_base),
        Piece::Text(" sart="),
        Piece::Hex(out.sart_base),
        Piece::Text("\n"),
    ];
    assert(summary@ =~= mmio_report(out));
    early_say(bus, console, summary.as_slice());
    proof {
        let rest = aic_report(data@) + mbox_report(data@) + mmio_report(out);
        lemma_spelled_add(aic_report(data@), mbox_report(data@));
        lemma_spelled_add(aic_report(data@) + mbox_report(data@), mmio_report(out));
        lemma_spelled_add(args_report(*ba), rest);
        assert(bus.log() =~= start + console.says(spelled(discovery_report(*ba, data@))));
    }
    out
}

/// Whether the firmware left a framebuffer that can be used. A display that it
/// switched off counts as none.
pub open spec fn has_video(video: AppleBootVideo) -> bool {
    video.base != 0 && video.display != 0 && video.width != 0 && video.height != 0
}

/// `out` with the framebuffer, if there is one.
pub open spec fn with_video(out: AppleMmio, video: AppleBootVideo) -> AppleMmio {
    if has_video(video) {
        AppleMmio {
            fb_base: video.base,
            fb_stride: video.stride,
            fb_width: video.width,
            fb_height: video.height,
            fb_depth: video.depth,
            ..out
        }
    } else {
        out
    }
}

/// What is output about the framebuffer.
pub open spec fn video_report(out: AppleMmio) -> Seq<Piece> {
    seq![
        Piece::Text("HVLOG: video: base="),
        Piece::Hex(out.fb_base),
        Piece::Text(" stride="),
        Piece::Hex(out.fb_stride),
        Piece::Text(" "),
        Piece::Hex(out.fb_width),
        Piece::Text("x"),
        Piece::Hex(out.fb_height),
        Piece::Text(" depth="),
        Piece::Hex(out.fb_depth),
        Piece::Text("\nHVLOG: initialising logging & memory...\n"),
    ]
}

/// Makes the configuration out of Apple boot arguments. `offset` is the distance
/// between virtual and physical addresses of the direct map; early output moves
/// there, because the identity map goes away. `data` holds the bytes at
/// [`adt_location`].
pub fn rust_entry_apple_bootargs<'a, H: Hardware>(
    bus: &mut Bus<H>,
    console: &mut EarlyConsole,
    ba: &'a AppleBootArgs,
    offset: u64,
    data: &[u8],
) -> (config: KernelConfig<'a>)
    ensures
        *final(console) == (EarlyConsole { uart: at(UART_PHYS_BASE, offset), ..*old(console) }),
        vstd::utf8::encode_utf8(config.cmdline@) == text_or_empty(until_nul(ba.cmdline@)),
        config.firmware_type@ == "Apple Silicon (m1n1 BootArgs)"@,
        config.uart_base == UART_PHYS_BASE,
        config.apple == with_video(discovered(*ba, data@), ba.video),
        config.gic_base == (if config.apple.aic_base != 0 {
            config.apple.aic_base
        } else {
            AIC_PHYS_BASE
        }),
        config.phys_to_virt_offset == offset,
        final(bus).log() == old(bus).log() + final(console).says(
            spelled(discovery_report(*ba, data@) + video_report(config.apple)),
        ),
{
    let ghost start = bus.log();
    console.uart = address(UART_PHYS_BASE, offset);
    let cmdline: &'a str = store_cmdline(ba.cmdline.as_slice());
    let mut apple: AppleMmio = discover_apple_mmio(bus, *console, ba, data);
    if ba.video.base != 0 && ba.video.display != 0 && ba.video.width != 0 && ba.video.height != 0 {
        apple.fb_base = ba.video.base;
        apple.fb_stride = ba.video.stride;
        apple.fb_width = ba.video.width;
        apple.fb_height = ba.video.height;
        apple.fb_depth = ba.video.depth;
    }
    let pieces: [Piece; 11] = [
        Piece::Text("HVLOG: video: base="),
        Piece::Hex(apple.fb_base),
        Piece::Text(" stride="),
        Piece::Hex(apple.fb_stride),
        Piece::Text(" "),
        Piece::Hex(apple.fb_width),
        Piece::Text("x"),
        Piece::Hex(apple.fb_height),
        Piece::Text(" depth="),
        Piece::Hex(apple.fb_depth),
        Piece::Text("\nHVLOG: initialising logging & memory...\n"),
    ];
    assert(pieces@ =~= video_report(apple));
    early_say(bus, *console, pieces.as_slice());
    proof {
        lemma_spelled_add(discovery_report(*ba, data@), video_report(apple));
        assert(bus.log() =~= start + console.says(
            spelled(discovery_report(*ba, data@) + video_report(apple)),
        ));
    }
    KernelConfig {
        cmdline,
        firmware_type: "Apple Silicon (m1n1 BootArgs)",
        uart_base: UART_PHYS_BASE,
        gic_base: if apple.aic_base != 0 {
            apple.aic_base
        } else {
            AIC_PHYS_BASE
        },
        phys_to_virt_offset: offset,
        apple,
    }
}

/// The fields of a configuration that are numbers.
pub open spec fn fdt_apple(parsed: crate::boot::fdt::ParsedView, is_apple: bool) -> AppleMmio {
    let aic_base = value_or(parsed.aic_base, 0);
    if is_apple && aic_base != 0 {
        AppleMmio {
            aic_base,
            aic_event_offset: if value_or(parsed.aic_event_base, 0) >= aic_base {
                (value_or(parsed.aic_event_base, 0) - aic_base) as u64
            } else {
                0
            },
            aic_version: match parsed.aic_version {
                Some(v) => v,
                None => 0,
            },
            ..AppleMmio::absent()
        }
    } else {
        AppleMmio::absent()
    }
}

pub open spec fn value_or(value: Option<u64>, fallback: u64) -> u64 {
    match value {
        Some(v) => v,
        None => fallback,
    }
}

/// What is known about the machine: nothing, if there is no device tree.
pub open spec fn tree_view(parsed: Option<ParsedFdt>) -> crate::boot::fdt::ParsedView {
    match parsed {
        Some(p) => p@,
        None => crate::boot::fdt::nothing(),
    }
}

/// Whether a device tree describes an Apple machine: it has Apple's interrupt
/// controller, or the serial port is where such a machine has it, which is also
/// where it is taken to be by default.
pub open spec fn fdt_is_apple(parsed: crate::boot::fdt::ParsedView) -> bool {
    value_or(parsed.aic_base, 0) != 0 || value_or(parsed.uart_base, UART_PHYS_BASE)
        == UART_PHYS_BASE
}

/// Makes the configuration out of a device tree. An Apple interrupt controller
/// takes the place of a GIC; its layout is not in the tree, so it stays absent.
/// `offset` is the virtual-minus-physical offset of the direct map.
pub fn rust_entry_fdt<'a>(parsed: &'a Option<ParsedFdt>, offset: u64) -> (config: KernelConfig<'a>)
    ensures
        ({
            let tree = tree_view(*parsed);
            let is_apple = fdt_is_apple(tree);
            &&& config.cmdline@ == match tree.cmdline {
                Some(text) => text,
                None => ""@,
            }
            &&& config.firmware_type@ == if is_apple {
                "Apple Silicon / Asahi (m1n1)"@
            } else {
                "FDT (Linux AArch64)"@
            }
            &&& config.uart_base == value_or(tree.uart_base, UART_PHYS_BASE)
            &&& config.gic_base == if is_apple {
                value_or(tree.aic_base, 0)
            } else {
                value_or(tree.gic_base, GIC_DEFAULT_BASE)
            }
            &&& config.phys_to_virt_offset == offset
            &&& config.apple == fdt_apple(tree, is_apple)
        }),
{
    let mut cmdline: &'a str = "";
    let mut uart_base: u64 = UART_PHYS_BASE;
    let mut gic_base: u64 = GIC_DEFAULT_BASE;
    let mut aic_base: u64 = 0;
    let mut aic_event_base: u64 = 0;
    let mut aic_version: u32 = 0;
    if let Some(fdt) = parsed {
        if let Some(cmd) = &fdt.cmdline {
            cmdline = cmd.as_str();
        }
        uart_base = fdt.uart_base.unwrap_or(UART_PHYS_BASE);
        gic_base = fdt.gic_base.unwrap_or(GIC_DEFAULT_BASE);
        aic_base = fdt.aic_base.unwrap_or(0);
        aic_event_base = fdt.aic_event_base.unwrap_or(0);
        aic_version = fdt.aic_version.unwrap_or(0);
    }
    let is_apple: bool = aic_base != 0 || uart_base == UART_PHYS_BASE;
    let firmware_type: &'a str = if is_apple {
        "Apple Silicon / Asahi (m1n1)"
    } else {
        "FDT (Linux AArch64)"
    };
    let mut apple: AppleMmio = AppleMmio::default();
    if is_apple && aic_base != 0 {
        apple.aic_base = aic_base;
        apple.aic_event_offset = aic_event_base.saturating_sub(aic_base);
        apple.aic_version = aic_version;
    }
    KernelConfig {
        cmdline,
        firmware_type,
        uart_base,
        gic_base: if is_apple {
            aic_base
        } else {
            gic_base
        },
        phys_to_virt_offset: offset,
        apple,
    }
}

/// What a UEFI loader tells the kernel.
#[derive(Debug, Clone, Copy)]
pub struct RbootInfo<'a> {
    pub cmdline: &'a str,
    pub firmware_type: &'a str,
    pub uart_base: u64,
    pub gic_base: u64,
    pub offset: u64,
}

/// Makes the configuration out of what a UEFI loader says.
pub fn rust_entry_rboot<'a>(boot_info: &RbootInfo<'a>) -> (config: KernelConfig<'a>)
    ensures
        config.cmdline == boot_info.cmdline,
        config.firmware_type == boot_info.firmware_type,
        config.uart_base == boot_info.uart_base,
        config.gic_base == boot_info.gic_base,
        config.phys_to_virt_offset == boot_info.offset,
        config.apple == AppleMmio::absent(),
{
    KernelConfig {
        cmdline: boot_info.cmdline,
        firmware_type: boot_info.firmware_type,
        uart_base: boot_info.uart_base,
        gic_base: boot_info.gic_base,
        phys_to_virt_offset: boot_info.offset,
        apple: AppleMmio::default(),
    }
}

/// A device tree that is taken to be usable lies in memory.
pub proof fn law_plausible_tree_is_in_memory(ba: AppleBootArgs)
    requires
        is_plausible(ba),
    ensures
        ba.phys_base <= adt_paddr(ba),
        adt_paddr(ba) + ba.devtree_size <= ba.phys_base + ba.mem_size,
{
}

/// The kernel always has an interrupt controller on an Apple machine that was
/// booted with Apple boot arguments: the address that it falls back to is not
/// zero.
pub proof fn law_apple_has_interrupt_controller(ba: AppleBootArgs, data: Seq<u8>)
    ensures
        ({
            let apple = with_video(discovered(ba, data), ba.video);
            (if apple.aic_base != 0 {
                apple.aic_base
            } else {
                AIC_PHYS_BASE
            }) != 0
        }),
{
}

/// The device tree is as far into physical memory as it is into the firmware's map of it.
pub proof fn law_tree_keeps_its_place(ba: AppleBootArgs)
    requires
        is_plausible(ba),
    ensures
        adt_paddr(ba) - ba.phys_base == ba.devtree - ba.virt_base,
{
}

/// Boot arguments are laid out field by field: two half words, a gap that aligns what
/// follows, ten double words, a word, another gap, a double word, a word, and the command
/// line.
pub proof fn law_fields_follow_one_another(
    ba: AppleBootArgs,
    head: (Seq<u8>, Seq<u8>, Seq<u8>),
    doubles: Seq<Seq<u8>>,
    tail: (Seq<u8>, Seq<u8>, Seq<u8>, Seq<u8>, Seq<u8>),
)
    requires
        head.0.len() == 2,
        head.1.len() == 2,
        head.2.len() == 4,
        doubles.len() == 10,
        forall|i: int| 0 <= i < 10 ==> (#[trigger] doubles[i]).len() == 8,
        tail.0.len() == 4,
        tail.1.len() == 4,
        tail.2.len() == 8,
        tail.3.len() == 4,
        tail.4.len() == 256,
        is_laid_out(
            ba,
            head.0 + head.1 + head.2 + flat(doubles) + tail.0 + tail.1 + tail.2 + tail.3 + tail.4,
        ),
    ensures
        ba.revision == le_value(head.0),
        ba.version == le_value(head.1),
        ba.virt_base == le_value(doubles[0]),
        ba.phys_base == le_value(doubles[1]),
        ba.mem_size == le_value(doubles[2]),
        ba.top_of_kernel_data == le_value(doubles[3]),
        ba.video.base == le_value(doubles[4]),
        ba.video.display == le_value(doubles[5]),
        ba.video.stride == le_value(doubles[6]),
        ba.video.width == le_value(doubles[7]),
        ba.video.height == le_value(doubles[8]),
        ba.video.depth == le_value(doubles[9]),
        ba.machine_type == le_value(tail.0),
        ba.devtree == le_value(tail.2),
        ba.devtree_size == le_value(tail.3),
        ba.cmdline@ == tail.4,
{
    let all = head.0 + head.1 + head.2 + flat(doubles) + tail.0 + tail.1 + tail.2 + tail.3
        + tail.4;
    lemma_flat(doubles);
    let middle = flat(doubles);
    assert(middle.len() == 80);
    assert(all.subrange(0, 2) =~= head.0);
    assert(all.subrange(2, 4) =~= head.1);
    assert forall|i: int| 0 <= i < 10 implies #[trigger] eight_at(all, 8, i) == doubles[i] by {
        assert(eight_at(middle, 0, i) == doubles[i]);
        assert(eight_at(all, 8, i) =~= eight_at(middle, 0, i));
    }
    assert(eight_at(all, 8, 0) == doubles[0] && eight_at(all, 8, 1) == doubles[1]);
    assert(eight_at(all, 8, 2) == doubles[2] && eight_at(all, 8, 3) == doubles[3]);
    assert(eight_at(all, 8, 4) == doubles[4] && eight_at(all, 8, 5) == doubles[5]);
    assert(eight_at(all, 8, 6) == doubles[6] && eight_at(all, 8, 7) == doubles[7]);
    assert(eight_at(all, 8, 8) == doubles[8] && eight_at(all, 8, 9) == doubles[9]);
    assert(all.subrange(88, 92) =~= tail.0);
    assert(all.subrange(96, 104) =~= tail.2);
    assert(all.subrange(104, 108) =~= tail.3);
    assert(all.subrange(108, 364) =~= tail.4);
}

/// Byte strings one after the other.
pub open spec fn flat(parts: Seq<Seq<u8>>) -> Seq<u8>
    decreases parts.len(),
{
    if parts.len() == 0 {
        Seq::empty()
    } else {
        flat(parts.drop_last()) + parts.last()
    }
}

proof fn lemma_flat(parts: Seq<Seq<u8>>)
    requires
        forall|i: int| 0 <= i < parts.len() ==> (#[trigger] parts[i]).len() == 8,
    ensures
        flat(parts).len() == 8 * parts.len(),
        forall|i: int|
            0 <= i < parts.len() ==> #[trigger] eight_at(flat(parts), 0, i) == parts[i],
    decreases parts.len(),
{
    if parts.len() > 0 {
        let before = parts.drop_last();
        assert forall|i: int| 0 <= i < before.len() implies (#[trigger] before[i]).len() == 8 by {
            assert(parts[i].len() == 8);
        }
        lemma_flat(before);
        assert(parts[parts.len() - 1].len() == 8);
        assert forall|i: int| 0 <= i < parts.len() implies #[trigger] eight_at(flat(parts), 0, i)
            == parts[i] by {
            if i < before.len() {
                assert(eight_at(flat(before), 0, i) == before[i]);
                assert(eight_at(flat(parts), 0, i) =~= eight_at(flat(before), 0, i));
            } else {
                assert(eight_at(flat(parts), 0, i) =~= parts.last());
            }
        }
    }
}

/// Double word `i` of those from `base` on.
pub open spec fn eight_at(bytes: Seq<u8>, base: int, i: int) -> Seq<u8> {
    bytes.subrange(base + 8 * i, base + 8 * i + 8)
}

/// What the device tree has a node for is known afterwards as the node has it: the windows of
/// the interrupt controller, the power manager, the storage controller with its coprocessor,
/// and the DMA filter, each under its own name. What it has no node for stays absent, and a
/// tree that cannot be one leaves everything absent.
pub proof fn law_windows_are_discovered(ba: AppleBootArgs, data: Seq<u8>)
    ensures
        ({
            let out = discovered(ba, data);
            let usable = is_plausible(ba) && is_adt(adt_paddr(ba), data);
            &&& (out.aic_base, out.aic_size) == window_at(usable, data, "/arm-io/aic", 0)
            &&& (out.pmgr_base, out.pmgr_size) == window_at(usable, data, "/arm-io/pmgr", 0)
            &&& (out.ans_base, out.ans_size) == window_at(usable, data, "/arm-io/ans", 0)
            &&& (out.nvme_base, out.nvme_size) == window_at(usable, data, "/arm-io/ans", 3)
            &&& (out.sart_base, out.sart_size) == window_at(usable, data, "/arm-io/sart-ans", 0)
            &&& !usable ==> out == AppleMmio::absent()
        }),
{
    reveal(path_reg_of);
}

/// Register window `index` of the node at `path`, or zeroes.
pub open spec fn window_at(usable: bool, data: Seq<u8>, path: &str, index: int) -> (u64, u64) {
    match path_reg_of(data, name_bytes(path), index) {
        Some(window) => if usable {
            window
        } else {
            (0, 0)
        },
        None => (0, 0),
    }
}

/// The layout of the interrupt controller is what its node says, property by property, and
/// its generation is the highest one that it claims to be compatible with.
pub proof fn law_layout_is_discovered(ba: AppleBootArgs, data: Seq<u8>, nodes: Seq<usize>)
    requires
        is_plausible(ba),
        is_adt(adt_paddr(ba), data),
        nodes_on(data, name_bytes("/arm-io/aic")) == Some(nodes),
    ensures
        ({
            let out = discovered(ba, data);
            let node = nodes.last() as int;
            &&& says(data, node, "aic-iack-offset", out.aic_event_offset)
            &&& says(data, node, "cap0-offset", out.aic_cap0_offset)
            &&& says(data, node, "maxnumirq-offset", out.aic_maxnumirq_offset)
            &&& says(data, node, "extint-baseaddress", out.aic_irq_cfg)
            &&& says(data, node, "extintrcfg-stride", out.aic_cfg_stride)
            &&& says(data, node, "intmaskset-stride", out.aic_mask_set_stride)
            &&& says(data, node, "intmaskclear-stride", out.aic_mask_clr_stride)
            &&& out.aic_version <= 3
            &&& compatible(data, node, name_bytes("aic,3")) ==> out.aic_version == 3
            &&& compatible(data, node, name_bytes("aic,2")) ==> out.aic_version >= 2
            &&& compatible(data, node, name_bytes("aic,1")) ==> out.aic_version >= 1
            &&& out.aic_version == 3 ==> compatible(data, node, name_bytes("aic,3"))
            &&& out.aic_version == 2 ==> compatible(data, node, name_bytes("aic,2"))
            &&& out.aic_version == 1 ==> compatible(data, node, name_bytes("aic,1"))
        }),
{
}

/// The property `name` of a node is the number `value`; zero stands for none.
pub open spec fn says(data: Seq<u8>, node: int, name: &str, value: u64) -> bool {
    match prop_word_of(data, node, name_bytes(name)) {
        Some(v) => v == value,
        None => value == 0,
    }
}

/// A display that is on is taken over with its framebuffer, as the firmware left it; one
/// that is off is not.
pub proof fn law_framebuffer_is_taken_over(ba: AppleBootArgs, data: Seq<u8>)
    ensures
        ({
            let out = with_video(discovered(ba, data), ba.video);
            let on = ba.video.base > 0 && ba.video.display > 0 && ba.video.width > 0
                && ba.video.height > 0;
            &&& on ==> out.fb_base == ba.video.base && out.fb_stride == ba.video.stride
                && out.fb_width == ba.video.width && out.fb_height == ba.video.height
                && out.fb_depth == ba.video.depth
            &&& !on ==> out.fb_base == 0 && out.fb_width == 0 && out.fb_height == 0
        }),
{
}

/// The event register of an interrupt controller that a flattened tree describes is where
/// the tree says: its distance from the controller's window is known.
pub proof fn law_event_register_is_found(parsed: crate::boot::fdt::ParsedView, base: u64, event: u64)
    requires
        parsed.aic_base == Some(base),
        parsed.aic_event_base == Some(event),
        0 < base <= event,
    ensures
        fdt_is_apple(parsed),
        fdt_apple(parsed, true).aic_base == base,
        fdt_apple(parsed, true).aic_base + fdt_apple(parsed, true).aic_event_offset == event,
{
}

/// What a boot loader leaves is told by what it is: a flattened device tree by the magic
/// number that it starts with, and Apple's boot arguments by a revision from one to three
/// and memory that starts no lower than on an Apple machine.
pub proof fn law_kinds_are_told_apart(head: BootHead)
    ensures
        boot_kind(head) is Fdt <==> head.first_word == 0xd00d_feed && head.arg0 > 0xfff,
        boot_kind(head) is AppleBootArgs ==> 1 <= head.revision <= 3 && head.phys_base
            >= 0x1000_0000,
        boot_kind(head) is Rboot ==> !(1 <= head.revision <= 3) || head.phys_base < 0x1000_0000,
{
}

} // verus!
