//! Flattened device tree (FDT) parsing.
//!
//! The blob is walked by the `dtb-walker` crate. It takes well-formed blobs only,
//! so a blob is examined first; and what it finds is handed over as a list of
//! events, from which the configuration is read.

use dtb_walker::DtbObj::{Property, SubNode};
use dtb_walker::HeaderError::{LastCompVersion, Misaligned};
use dtb_walker::Property::{Compatible, General};
use dtb_walker::{Dtb, WalkOperation};
use vstd::prelude::*;
use vstd::slice::{slice_subrange, slice_to_vec};

use crate::boot::adt::name_bytes;
use crate::bytes::{be32, be64, be_value, law_big_endian};
use crate::hw::at;
use crate::text::{
    cut_at_nul, ends_with, has_infix, has_prefix, has_suffix, occurs_in, same_bytes, starts_with,
    until_nul, utf8,
};

verus! {

pub const FDT_MAGIC: u32 = 0xd00d_feed;
pub const HEADER_SIZE: u64 = 40;
pub const OLDEST_VERSION: u32 = 17;

pub const NODE_BEGIN: u32 = 1;
pub const NODE_END: u32 = 2;
pub const PROP: u32 = 3;
pub const NOP: u32 = 4;
pub const END: u32 = 9;

/// The big-endian 32-bit number at `off`.
pub open spec fn word(blob: Seq<u8>, off: int) -> u32 {
    be_value(blob.subrange(off, off + 4)) as u32
}

/// Where the blocks of a blob are. The structure block is counted in words, and
/// without the root's name and the end mark.
#[derive(Clone, Copy)]
pub struct Layout {
    pub structure: u64,
    pub words: u64,
    pub strings: u64,
    pub strings_len: u64,
}

/// The layout that the header of a blob describes.
pub open spec fn layout_of(blob: Seq<u8>) -> Layout {
    Layout {
        structure: (word(blob, 8) + 8) as u64,
        words: (word(blob, 36) / 4 - 3) as u64,
        strings: word(blob, 12) as u64,
        strings_len: word(blob, 32) as u64,
    }
}

/// Whether the header of a blob is consistent: the right magic number and version,
/// and the blocks one behind the other within the blob. The structure block opens
/// the nameless root and closes with the end mark.
pub open spec fn header_ok(blob: Seq<u8>) -> bool {
    let total = word(blob, 4);
    let structure = word(blob, 8);
    let strings = word(blob, 12);
    let reserved = word(blob, 16);
    let strings_len = word(blob, 32);
    let structure_len = word(blob, 36);
    &&& blob.len() >= HEADER_SIZE
    &&& word(blob, 0) == FDT_MAGIC
    &&& word(blob, 20) >= OLDEST_VERSION
    &&& HEADER_SIZE <= total <= blob.len()
    &&& reserved % 4 == 0
    &&& HEADER_SIZE <= reserved < total
    &&& structure % 4 == 0
    &&& reserved <= structure
    &&& structure_len % 4 == 0
    &&& structure_len >= 12
    &&& structure + structure_len <= strings < total
    &&& strings + strings_len <= total
    &&& word(blob, structure as int) == NODE_BEGIN
    &&& word(blob, structure + 4) == 0
    &&& word(blob, structure + structure_len - 4) == END
}

/// Word `i` of the structure block.
pub open spec fn token(blob: Seq<u8>, lay: Layout, i: int) -> u32 {
    word(blob, lay.structure + 4 * i)
}

/// Where the node name that starts at word `i` ends: behind the first word whose
/// last byte is zero.
pub open spec fn name_end(blob: Seq<u8>, lay: Layout, i: int) -> Option<int>
    decreases lay.words - i,
{
    if i >= lay.words {
        None
    } else if blob[lay.structure + 4 * i + 3] == 0 {
        Some(i + 1)
    } else {
        name_end(blob, lay, i + 1)
    }
}

/// The strings block from `off` on.
pub open spec fn strings_from(blob: Seq<u8>, lay: Layout, off: int) -> Seq<u8> {
    blob.subrange(lay.strings + off, lay.strings + lay.strings_len)
}

/// Whether a property name starts at `off` in the strings block, and the name.
pub open spec fn prop_name(blob: Seq<u8>, lay: Layout, off: int) -> Option<Seq<u8>> {
    if off > lay.strings_len {
        None
    } else {
        let rest = strings_from(blob, lay, off);
        if until_nul(rest).len() < rest.len() {
            Some(until_nul(rest))
        } else {
            None
        }
    }
}

/// Numbers of address and size cells: those that hold for a node's own `reg`, and
/// those that it sets for its children.
#[derive(Clone, Copy)]
pub struct Frame {
    pub outer_address: u32,
    pub outer_size: u32,
    pub address: u32,
    pub size: u32,
}

/// The frame of the root.
pub open spec fn root_frame() -> Frame {
    Frame { outer_address: 2, outer_size: 1, address: 2, size: 1 }
}

/// The frame of a node after the property `name`, which has `words` words of which
/// `first` is the first. A `reg` cannot be counted in entries without cells.
pub open spec fn frame_after(frame: Frame, name: Seq<u8>, words: int, first: u32) -> Option<Frame> {
    if name == name_bytes("#address-cells") && words == 1 {
        Some(Frame { address: first, ..frame })
    } else if name == name_bytes("#size-cells") && words == 1 {
        Some(Frame { size: first, ..frame })
    } else if name == name_bytes("reg") && !(1 <= frame.outer_address + frame.outer_size
        <= u32::MAX) {
        None
    } else {
        Some(frame)
    }
}

/// What follows the token at word `i` when the nodes in `open` are open, innermost
/// last. Nothing follows a token that is out of place.
pub open spec fn next(blob: Seq<u8>, lay: Layout, i: int, open: Seq<Frame>) -> Option<
    (int, Seq<Frame>),
> {
    if i >= lay.words || open.len() == 0 {
        None
    } else if token(blob, lay, i) == NODE_BEGIN {
        match name_end(blob, lay, i + 1) {
            Some(e) => Some(
                (
                    e,
                    open.push(
                        Frame {
                            outer_address: open.last().address,
                            outer_size: open.last().size,
                            address: 2,
                            size: 1,
                        },
                    ),
                ),
            ),
            None => None,
        }
    } else if token(blob, lay, i) == NODE_END {
        Some((i + 1, open.drop_last()))
    } else if token(blob, lay, i) == PROP {
        let words = (token(blob, lay, i + 1) + 3) / 4;
        if i + 3 > lay.words || i + 3 + words > lay.words {
            None
        } else {
            match prop_name(blob, lay, token(blob, lay, i + 2) as int) {
                Some(name) => match frame_after(
                    open.last(),
                    name,
                    words,
                    token(blob, lay, i + 3),
                ) {
                    Some(frame) => Some((i + 3 + words, open.drop_last().push(frame))),
                    None => None,
                },
                None => None,
            }
        }
    } else if token(blob, lay, i) == NOP {
        Some((i + 1, open))
    } else {
        None
    }
}

/// Whether the tokens from word `i` on close every open node.
pub open spec fn closes(blob: Seq<u8>, lay: Layout, i: int, open: Seq<Frame>) -> bool
    decreases lay.words - i,
{
    if open.len() == 0 {
        true
    } else {
        match next(blob, lay, i, open) {
            Some((j, then)) => i < j <= lay.words && closes(blob, lay, j, then),
            None => false,
        }
    }
}

/// Whether a blob can be walked.
pub open spec fn walkable(blob: Seq<u8>) -> bool {
    header_ok(blob) && closes(blob, layout_of(blob), 0, seq![root_frame()])
}

/// What a walk comes across.
pub enum FdtItem {
    /// A node with the given name.
    SubNode(Vec<u8>),
    /// A `compatible` property.
    Compatible(Vec<Vec<u8>>),
    /// A property without a meaning of its own, by name and value.
    General(Vec<u8>, Vec<u8>),
    /// Any other property.
    Other,
}

/// Something that a walk came across, and the node in which it did: its depth and
/// its name. The root has depth zero and no name.
pub struct FdtEvent {
    pub level: usize,
    pub node: Vec<u8>,
    pub item: FdtItem,
}

/// [`FdtItem`], in the mathematical world.
pub enum ItemView {
    SubNode(Seq<u8>),
    Compatible(Seq<Seq<u8>>),
    General(Seq<u8>, Seq<u8>),
    Other,
}

/// [`FdtEvent`], in the mathematical world.
pub struct EventView {
    pub level: nat,
    pub node: Seq<u8>,
    pub item: ItemView,
}

pub open spec fn strings_view(list: Seq<Vec<u8>>) -> Seq<Seq<u8>> {
    Seq::new(list.len(), |i: int| list[i]@)
}

impl View for FdtItem {
    type V = ItemView;

    open spec fn view(&self) -> ItemView {
        match *self {
            FdtItem::SubNode(name) => ItemView::SubNode(name@),
            FdtItem::Compatible(list) => ItemView::Compatible(strings_view(list@)),
            FdtItem::General(name, value) => ItemView::General(name@, value@),
            FdtItem::Other => ItemView::Other,
        }
    }
}

impl View for FdtEvent {
    type V = EventView;

    open spec fn view(&self) -> EventView {
        EventView { level: self.level as nat, node: self.node@, item: self.item@ }
    }
}

pub open spec fn events_view(events: Seq<FdtEvent>) -> Seq<EventView> {
    Seq::new(events.len(), |i: int| events[i]@)
}

/// What a walk over `blob` comes across, in order.
pub uninterp spec fn dtb_events(blob: Seq<u8>) -> Seq<EventView>;

/// A copy of a blob that is to start at an address which is a multiple of eight.
struct AlignedBlob {
    room: Vec<u8>,
    skip: usize,
}

impl View for AlignedBlob {
    type V = Seq<u8>;

    closed spec fn view(&self) -> Seq<u8> {
        self.room@.skip(self.skip as int)
    }
}

impl AlignedBlob {
    spec fn wf(self) -> bool {
        self.skip <= self.room@.len()
    }

    fn new(blob: &[u8]) -> (aligned: Self)
        ensures
            aligned.wf(),
            aligned@ == blob@,
    {
        let mut room: Vec<u8> = Vec::new();
        room.reserve(blob.len().saturating_add(8));
        let skip: usize = (8 - address_of(&room) % 8) % 8;
        let mut i: usize = 0;
        while i < skip
            invariant
                i <= skip < 8,
                room@.len() == i,
            decreases skip - i,
        {
            room.push(0);
            i += 1;
        }
        room.extend_from_slice(blob);
        assert(room@.skip(skip as int) =~= blob@);
        AlignedBlob { room, skip }
    }

    fn bytes(&self) -> (bytes: &[u8])
        requires
            self.wf(),
        ensures
            bytes@ == self@,
    {
        assert(self.room@.skip(self.skip as int) =~= self.room@.subrange(
            self.skip as int,
            self.room@.len() as int,
        ));
        slice_subrange(self.room.as_slice(), self.skip, self.room.len())
    }
}

/// Calls `Vec::as_ptr` of the standard library, for the address at which the
/// contents of a vector start. Nothing is claimed of it.
#[verifier::external_body]
fn address_of(room: &Vec<u8>) -> (address: usize) {
    room.as_ptr() as usize
}

/// Calls `Dtb::from_slice_filtered` and `Dtb::walk` of the `dtb-walker` crate. The
/// claim: a blob that passes [`walkable`] is taken, and what the walk calls back with,
/// when it steps into every node, depends on nothing but the bytes of the blob.
///
/// The crate looks at where the blob starts, too, but what it says about that is passed
/// over: [`AlignedBlob::new`] has seen to it. The walk takes a stack frame for each
/// level of the tree.
#[verifier::external_body]
fn walk_dtb(blob: &AlignedBlob) -> (events: Option<Vec<FdtEvent>>)
    requires
        blob.wf(),
        walkable(blob@),
    ensures
        events is Some,
        events matches Some(list) ==> events_view(list@) == dtb_events(blob@),
{
    let mut events = Vec::new();
    Dtb::from_slice_filtered(blob.bytes(), |e| matches!(e, Misaligned(_) | LastCompVersion(_))).ok()?.walk(|ctx, obj| {
        let item = match obj {
            SubNode { name } => FdtItem::SubNode(name.as_bytes().into()),
            Property(Compatible(list)) => FdtItem::Compatible(list.map(|s| s.as_bytes().into()).collect()),
            Property(General { name, value }) => FdtItem::General(name.as_bytes().into(), value.into()),
            Property(_) => FdtItem::Other,
        };
        events.push(FdtEvent { level: ctx.level(), node: ctx.name().as_bytes().into(), item });
        WalkOperation::StepInto
    });
    Some(events)
}

proof fn lemma_name_end(blob: Seq<u8>, lay: Layout, i: int)
    ensures
        name_end(blob, lay, i) matches Some(e) ==> i < e <= lay.words,
    decreases lay.words - i,
{
    if i < lay.words && blob[lay.structure + 4 * i + 3] != 0 {
        lemma_name_end(blob, lay, i + 1);
    }
}

/// The blocks lie within the blob.
pub open spec fn fits(blob: Seq<u8>, lay: Layout) -> bool {
    &&& lay.structure + 4 * lay.words <= blob.len()
    &&& lay.strings + lay.strings_len <= blob.len()
    &&& lay.words <= 0x4000_0000
    &&& lay.structure <= 0x1_0000_0008
    &&& lay.strings <= u32::MAX
    &&& lay.strings_len <= u32::MAX
}

/// Examines the header of a blob.
pub fn check_header(blob: &[u8]) -> (layout: Option<Layout>)
    ensures
        layout == (if header_ok(blob@) {
            Some(layout_of(blob@))
        } else {
            None
        }),
        layout matches Some(lay) ==> fits(blob@, lay),
{
    if blob.len() < 40 {
        return None;
    }
    let len: u64 = blob.len() as u64;
    let total: u64 = be32(blob, 4) as u64;
    let structure: u64 = be32(blob, 8) as u64;
    let strings: u64 = be32(blob, 12) as u64;
    let reserved: u64 = be32(blob, 16) as u64;
    let strings_len: u64 = be32(blob, 32) as u64;
    let structure_len: u64 = be32(blob, 36) as u64;
    if be32(blob, 0) != FDT_MAGIC || be32(blob, 20) < OLDEST_VERSION {
        return None;
    }
    if total < HEADER_SIZE || total > len {
        return None;
    }
    if reserved % 4 != 0 || reserved < HEADER_SIZE || reserved >= total {
        return None;
    }
    if structure % 4 != 0 || reserved > structure || structure_len % 4 != 0 || structure_len < 12 {
        return None;
    }
    if structure + structure_len > strings || strings >= total || strings + strings_len > total {
        return None;
    }
    let start: usize = structure as usize;
    let end: usize = (structure + structure_len) as usize;
    if be32(blob, start) != NODE_BEGIN || be32(blob, start + 4) != 0 || be32(blob, end - 4)
        != END {
        return None;
    }
    Some(
        Layout {
            structure: structure + 8,
            words: structure_len / 4 - 3,
            strings,
            strings_len,
        },
    )
}

fn token_at(blob: &[u8], lay: Layout, i: u64) -> (value: u32)
    requires
        fits(blob@, lay),
        i < lay.words,
    ensures
        value == token(blob@, lay, i as int),
{
    assert(blob@.len() == blob.len());
    be32(blob, (lay.structure + 4 * i) as usize)
}

fn find_name_end(blob: &[u8], lay: Layout, i: u64) -> (end: Option<u64>)
    requires
        fits(blob@, lay),
        i <= lay.words,
    ensures
        match end {
            Some(e) => name_end(blob@, lay, i as int) == Some(e as int),
            None => name_end(blob@, lay, i as int) is None,
        },
{
    assert(blob@.len() == blob.len());
    let mut k: u64 = i;
    while k < lay.words
        invariant
            fits(blob@, lay),
            blob@.len() == blob.len(),
            i <= k <= lay.words,
            name_end(blob@, lay, k as int) == name_end(blob@, lay, i as int),
        decreases lay.words - k,
    {
        if blob[(lay.structure + 4 * k + 3) as usize] == 0 {
            return Some(k + 1);
        }
        k += 1;
    }
    None
}

fn find_prop_name<'a>(blob: &'a [u8], lay: Layout, off: u32) -> (name: Option<&'a [u8]>)
    requires
        fits(blob@, lay),
    ensures
        match name {
            Some(n) => prop_name(blob@, lay, off as int) == Some(n@),
            None => prop_name(blob@, lay, off as int) is None,
        },
{
    if off as u64 > lay.strings_len {
        return None;
    }
    assert(blob@.len() == blob.len());
    let rest: &'a [u8] = slice_subrange(
        blob,
        (lay.strings + off as u64) as usize,
        (lay.strings + lay.strings_len) as usize,
    );
    let name: &'a [u8] = cut_at_nul(rest);
    if name.len() < rest.len() {
        Some(name)
    } else {
        None
    }
}

/// Examines the structure block of a blob.
fn check_structure(blob: &[u8], lay: Layout) -> (ok: bool)
    requires
        fits(blob@, lay),
    ensures
        ok == closes(blob@, lay, 0, seq![root_frame()]),
{
    let mut open: Vec<Frame> = Vec::new();
    open.push(Frame { outer_address: 2, outer_size: 1, address: 2, size: 1 });
    let mut i: u64 = 0;
    assert(open@ =~= seq![root_frame()]);
    while open.len() > 0
        invariant
            fits(blob@, lay),
            i <= lay.words,
            closes(blob@, lay, i as int, open@) == closes(blob@, lay, 0, seq![root_frame()]),
        decreases lay.words - i,
    {
        if i >= lay.words {
            return false;
        }
        let top: Frame = open[open.len() - 1];
        let kind: u32 = token_at(blob, lay, i);
        if kind == NODE_BEGIN {
            proof {
                lemma_name_end(blob@, lay, i + 1);
            }
            match find_name_end(blob, lay, i + 1) {
                None => {
                    return false;
                },
                Some(e) => {
                    open.push(
                        Frame {
                            outer_address: top.address,
                            outer_size: top.size,
                            address: 2,
                            size: 1,
                        },
                    );
                    i = e;
                },
            }
        } else if kind == NODE_END {
            let ghost before = open@;
            let _closed: Option<Frame> = open.pop();
            assert(open@ =~= before.drop_last());
            i += 1;
        } else if kind == PROP {
            if i + 3 > lay.words {
                return false;
            }
            let words: u64 = (token_at(blob, lay, i + 1) as u64 + 3) / 4;
            if i + 3 + words > lay.words {
                return false;
            }
            let nameoff: u32 = token_at(blob, lay, i + 2);
            let name: &[u8] = match find_prop_name(blob, lay, nameoff) {
                None => {
                    return false;
                },
                Some(name) => name,
            };
            let mut frame: Frame = top;
            if same_bytes(name, "#address-cells".as_bytes()) && words == 1 {
                frame.address = token_at(blob, lay, i + 3);
            } else if same_bytes(name, "#size-cells".as_bytes()) && words == 1 {
                frame.size = token_at(blob, lay, i + 3);
            } else if same_bytes(name, "reg".as_bytes()) {
                let cells: u64 = frame.outer_address as u64 + frame.outer_size as u64;
                if cells < 1 || cells > u32::MAX as u64 {
                    return false;
                }
            }
            let ghost before = open@;
            let _old: Option<Frame> = open.pop();
            open.push(frame);
            assert(open@ =~= before.drop_last().push(frame));
            i = i + 3 + words;
        } else if kind == NOP {
            i += 1;
        } else {
            return false;
        }
    }
    true
}

/// Whether a blob can be walked.
pub fn is_walkable(blob: &[u8]) -> (ok: bool)
    ensures
        ok == walkable(blob@),
{
    match check_header(blob) {
        None => false,
        Some(lay) => check_structure(blob, lay),
    }
}

/// A range of physical addresses.
#[derive(Clone, Copy, Debug, PartialEq, Eq, Structural)]
pub struct Region {
    pub start: u64,
    pub end: u64,
}

/// What the kernel takes from a device tree.
pub struct ParsedFdt {
    pub cmdline: Option<String>,
    pub memory_regions: Vec<Region>,
    pub uart_base: Option<u64>,
    pub gic_base: Option<u64>,
    pub aic_base: Option<u64>,
    pub aic_event_base: Option<u64>,
    /// AIC generation from `compatible`.
    pub aic_version: Option<u32>,
    pub fb_base: Option<u64>,
    pub fb_size: Option<u64>,
    pub fb_width: Option<u32>,
    pub fb_height: Option<u32>,
    pub fb_stride: Option<u32>,
    pub fb_format: Option<String>,
}

/// [`ParsedFdt`], in the mathematical world.
#[verifier::ext_equal]
pub struct ParsedView {
    pub cmdline: Option<Seq<char>>,
    pub memory_regions: Seq<Region>,
    pub uart_base: Option<u64>,
    pub gic_base: Option<u64>,
    pub aic_base: Option<u64>,
    pub aic_event_base: Option<u64>,
    pub aic_version: Option<u32>,
    pub fb_base: Option<u64>,
    pub fb_size: Option<u64>,
    pub fb_width: Option<u32>,
    pub fb_height: Option<u32>,
    pub fb_stride: Option<u32>,
    pub fb_format: Option<Seq<char>>,
}

pub open spec fn text_view(text: Option<String>) -> Option<Seq<char>> {
    match text {
        Some(s) => Some(s@),
        None => None,
    }
}

impl View for ParsedFdt {
    type V = ParsedView;

    open spec fn view(&self) -> ParsedView {
        ParsedView {
            cmdline: text_view(self.cmdline),
            memory_regions: self.memory_regions@,
            uart_base: self.uart_base,
            gic_base: self.gic_base,
            aic_base: self.aic_base,
            aic_event_base: self.aic_event_base,
            aic_version: self.aic_version,
            fb_base: self.fb_base,
            fb_size: self.fb_size,
            fb_width: self.fb_width,
            fb_height: self.fb_height,
            fb_stride: self.fb_stride,
            fb_format: text_view(self.fb_format),
        }
    }
}

/// Nothing was found.
pub open spec fn nothing() -> ParsedView {
    ParsedView {
        cmdline: None,
        memory_regions: Seq::empty(),
        uart_base: None,
        gic_base: None,
        aic_base: None,
        aic_event_base: None,
        aic_version: None,
        fb_base: None,
        fb_size: None,
        fb_width: None,
        fb_height: None,
        fb_stride: None,
        fb_format: None,
    }
}

impl Default for ParsedFdt {
    fn default() -> (parsed: Self)
        ensures
            parsed@ == nothing(),
    {
        ParsedFdt {
            cmdline: None,
            memory_regions: Vec::new(),
            uart_base: None,
            gic_base: None,
            aic_base: None,
            aic_event_base: None,
            aic_version: None,
            fb_base: None,
            fb_size: None,
            fb_width: None,
            fb_height: None,
            fb_stride: None,
            fb_format: None,
        }
    }
}

/// `bytes` if they are text, else the empty text.
pub open spec fn text_or_empty(bytes: Seq<u8>) -> Seq<u8> {
    if vstd::utf8::valid_utf8(bytes) {
        bytes
    } else {
        Seq::empty()
    }
}

/// `text` without the NUL characters at its end.
pub open spec fn trim_nuls(text: Seq<char>) -> Seq<char>
    decreases text.len(),
{
    if text.len() > 0 && text.last() == '\0' {
        trim_nuls(text.drop_last())
    } else {
        text
    }
}

/// The text that a property value holds.
pub open spec fn value_text(value: Seq<u8>) -> Seq<char> {
    trim_nuls(vstd::utf8::decode_utf8(text_or_empty(value)))
}

/// The big-endian 64-bit number at `off`.
pub open spec fn double(value: Seq<u8>, off: int) -> u64 {
    be_value(value.subrange(off, off + 8)) as u64
}

/// The names of the nodes that are open after the first `n` events, outermost
/// first.
pub open spec fn open_names(events: Seq<EventView>, n: nat) -> Seq<Seq<u8>>
    decreases n,
{
    if n == 0 {
        seq![Seq::empty()]
    } else {
        let before = open_names(events, (n - 1) as nat);
        let event = events[n - 1];
        match event.item {
            ItemView::SubNode(name) => if event.level + 1 < before.len() {
                before.take(event.level as int + 1).push(name)
            } else {
                before.push(name)
            },
            _ => before,
        }
    }
}

/// Whether every node above the one of event `i` is called `target`. A search for
/// `target` steps into such nodes only.
pub open spec fn reached(events: Seq<EventView>, i: nat, target: Seq<u8>) -> bool {
    forall|k: int|
        0 <= k < events[i as int].level && k < open_names(events, i).len() ==> #[trigger] open_names(
            events,
            i,
        )[k] == target
}

/// The value of the last plain `reg` property among the first `n` events in a node
/// called `target` that the search reaches.
pub open spec fn find_reg(events: Seq<EventView>, n: nat, target: Seq<u8>) -> Option<Seq<u8>>
    decreases n,
{
    if n == 0 {
        None
    } else {
        let event = events[n - 1];
        match event.item {
            ItemView::General(name, value) => if name == name_bytes("reg") && event.node == target
                && reached(events, (n - 1) as nat, target) {
                Some(value)
            } else {
                find_reg(events, (n - 1) as nat, target)
            },
            _ => find_reg(events, (n - 1) as nat, target),
        }
    }
}

/// The base address that a `reg` property holds.
pub open spec fn base_in(reg: Option<Seq<u8>>, before: Option<u64>) -> Option<u64> {
    match reg {
        Some(v) => if v.len() >= 16 {
            Some(double(v, 0))
        } else {
            before
        },
        None => before,
    }
}

/// The second window's address that a `reg` property holds.
pub open spec fn event_base_in(reg: Option<Seq<u8>>, before: Option<u64>) -> Option<u64> {
    match reg {
        Some(v) => if v.len() >= 32 {
            Some(double(v, 16))
        } else {
            before
        },
        None => before,
    }
}

/// What a node's compatibility with `comp` adds; `reg` is the node's `reg`.
pub open spec fn with_compatible(
    parsed: ParsedView,
    comp: Seq<u8>,
    reg: Option<Seq<u8>>,
) -> ParsedView {
    if occurs_in(name_bytes("aic"), comp) {
        ParsedView {
            aic_version: Some(
                if ends_with(comp, name_bytes("aic3")) {
                    3
                } else if ends_with(comp, name_bytes("aic2")) {
                    2
                } else {
                    1
                },
            ),
            aic_base: base_in(reg, parsed.aic_base),
            aic_event_base: event_base_in(reg, parsed.aic_event_base),
            ..parsed
        }
    } else if comp == name_bytes("apple,s5l-uart") || (comp == name_bytes("arm,pl011")
        && parsed.uart_base is None) {
        ParsedView { uart_base: base_in(reg, parsed.uart_base), ..parsed }
    } else if comp == name_bytes("arm,cortex-a15-gic") || comp == name_bytes("arm,gic-400") {
        ParsedView { gic_base: base_in(reg, parsed.gic_base), ..parsed }
    } else {
        parsed
    }
}

/// What the first `n` entries of a `compatible` list add.
pub open spec fn with_compatibles(
    parsed: ParsedView,
    list: Seq<Seq<u8>>,
    n: nat,
    reg: Option<Seq<u8>>,
) -> ParsedView
    decreases n,
{
    if n == 0 {
        parsed
    } else {
        with_compatible(
            with_compatibles(parsed, list, (n - 1) as nat, reg),
            text_or_empty(list[n - 1]),
            reg,
        )
    }
}

/// The memory regions in the first `n` entries of a `reg` value. Empty ones are
/// left out.
pub open spec fn regions_in(value: Seq<u8>, n: nat) -> Seq<Region>
    decreases n,
{
    if n == 0 {
        Seq::empty()
    } else {
        let before = regions_in(value, (n - 1) as nat);
        let start = double(value, (n - 1) * 16);
        let size = double(value, (n - 1) * 16 + 8);
        if size > 0 {
            before.push(Region { start, end: at(start, size) })
        } else {
            before
        }
    }
}

/// What a plain property of the node called `node` adds.
pub open spec fn with_general(
    parsed: ParsedView,
    node: Seq<u8>,
    name: Seq<u8>,
    value: Seq<u8>,
) -> ParsedView {
    if name == name_bytes("bootargs") && (node == name_bytes("chosen") || ends_with(
        node,
        name_bytes("/chosen"),
    )) {
        ParsedView { cmdline: Some(value_text(value)), ..parsed }
    } else if starts_with(node, name_bytes("memory")) {
        if name == name_bytes("reg") && value.len() >= 16 {
            ParsedView {
                memory_regions: parsed.memory_regions + regions_in(value, value.len() / 16),
                ..parsed
            }
        } else {
            parsed
        }
    } else if occurs_in(name_bytes("framebuffer"), node) {
        if name == name_bytes("reg") && value.len() >= 16 {
            ParsedView {
                fb_base: Some(double(value, 0)),
                fb_size: Some(double(value, 8)),
                ..parsed
            }
        } else if name == name_bytes("width") && value.len() >= 4 {
            ParsedView { fb_width: Some(word(value, 0)), ..parsed }
        } else if name == name_bytes("height") && value.len() >= 4 {
            ParsedView { fb_height: Some(word(value, 0)), ..parsed }
        } else if name == name_bytes("stride") && value.len() >= 4 {
            ParsedView { fb_stride: Some(word(value, 0)), ..parsed }
        } else if name == name_bytes("format") {
            ParsedView { fb_format: Some(value_text(value)), ..parsed }
        } else {
            parsed
        }
    } else {
        parsed
    }
}

/// What the first `n` events of a walk amount to.
pub open spec fn interpretation(events: Seq<EventView>, n: nat) -> ParsedView
    decreases n,
{
    if n == 0 {
        nothing()
    } else {
        let before = interpretation(events, (n - 1) as nat);
        let event = events[n - 1];
        match event.item {
            ItemView::Compatible(list) => with_compatibles(
                before,
                list,
                list.len(),
                find_reg(events, events.len(), event.node),
            ),
            ItemView::General(name, value) => with_general(
                before,
                text_or_empty(event.node),
                text_or_empty(name),
                value,
            ),
            _ => before,
        }
    }
}

/// `bytes` if they are text, else nothing.
fn as_text<'a>(bytes: &'a [u8]) -> (text: &'a [u8])
    ensures
        text@ == text_or_empty(bytes@),
{
    if utf8(bytes).is_some() {
        bytes
    } else {
        assert(bytes@.subrange(0, 0) =~= Seq::<u8>::empty());
        slice_subrange(bytes, 0, 0)
    }
}

/// The text that a property value holds.
fn text_of(value: &[u8]) -> (text: String)
    ensures
        text@ == value_text(value@),
{
    match utf8(value) {
        None => {
            let text: String = String::new();
            proof {
                assert(vstd::utf8::decode_utf8(Seq::<u8>::empty()) =~= Seq::<char>::empty());
                assert(text@ =~= value_text(value@));
            }
            text
        },
        Some(s) => {
            proof {
                vstd::utf8::encode_utf8_decode_utf8(s@);
            }
            let all: usize = s.unicode_len();
            let mut n: usize = all;
            assert(s@.take(n as int) =~= s@);
            while n > 0 && s.get_char(n - 1) == '\0'
                invariant
                    n <= s@.len(),
                    trim_nuls(s@.take(n as int)) == trim_nuls(s@),
                decreases n,
            {
                assert(s@.take(n as int).drop_last() =~= s@.take(n - 1));
                n -= 1;
            }
            assert(s@.subrange(0, n as int) =~= s@.take(n as int));
            String::from_str(s.substring_char(0, n))
        },
    }
}

/// Whether every name in `open` above depth `level` is `target`.
fn all_are(open: &Vec<Vec<u8>>, level: usize, target: &[u8]) -> (yes: bool)
    ensures
        yes == (forall|k: int|
            0 <= k < level && k < open@.len() ==> #[trigger] strings_view(open@)[k] == target@),
{
    let mut k: usize = 0;
    while k < level && k < open.len()
        invariant
            k <= open@.len(),
            k <= level,
            forall|j: int| 0 <= j < k ==> #[trigger] strings_view(open@)[j] == target@,
        decreases level - k,
    {
        if !same_bytes(open[k].as_slice(), target) {
            assert(strings_view(open@)[k as int] != target@);
            return false;
        }
        k += 1;
    }
    true
}

/// Finds the `reg` property of the node called `target`. The search starts at the
/// root, and steps into a node's children only where the node itself is called
/// `target`.
pub fn find_reg_property(events: &Vec<FdtEvent>, target: &[u8]) -> (reg: Option<Vec<u8>>)
    ensures
        match reg {
            Some(v) => find_reg(events_view(events@), events@.len(), target@) == Some(v@),
            None => find_reg(events_view(events@), events@.len(), target@) is None,
        },
{
    let ghost all = events_view(events@);
    let mut reg: Option<Vec<u8>> = None;
    let mut open: Vec<Vec<u8>> = Vec::new();
    open.push(Vec::new());
    let mut i: usize = 0;
    proof {
        assert(strings_view(open@) =~= open_names(all, 0)) by {
            assert(open@[0]@ =~= Seq::<u8>::empty());
        }
    }
    while i < events.len()
        invariant
            all == events_view(events@),
            i <= events@.len(),
            strings_view(open@) == open_names(all, i as nat),
            match reg {
                Some(v) => find_reg(all, i as nat, target@) == Some(v@),
                None => find_reg(all, i as nat, target@) is None,
            },
        decreases events.len() - i,
    {
        let event: &FdtEvent = &events[i];
        let ghost before = open@;
        assert(all[i as int] == event@);
        match &event.item {
            FdtItem::SubNode(name) => {
                if open.len() > 0 && event.level < open.len() - 1 {
                    open.truncate(event.level + 1);
                    assert(strings_view(open@) =~= strings_view(before).take(
                        event.level as int + 1,
                    ));
                }
                let ghost cut = open@;
                open.push(slice_to_vec(name.as_slice()));
                assert(strings_view(open@) =~= strings_view(cut).push(name@));
            },
            FdtItem::General(name, value) => {
                let hit: bool = same_bytes(name.as_slice(), "reg".as_bytes()) && same_bytes(
                    event.node.as_slice(),
                    target,
                ) && all_are(&open, event.level, target);
                if hit {
                    reg = Some(slice_to_vec(value.as_slice()));
                }
            },
            _ => {},
        }
        i += 1;
    }
    reg
}

/// Takes a node's compatibility with `comp` over.
fn apply_compatible(parsed: &mut ParsedFdt, comp: &[u8], reg: &Option<Vec<u8>>)
    ensures
        final(parsed)@ == with_compatible(
            old(parsed)@,
            comp@,
            match *reg {
                Some(v) => Some(v@),
                None => None,
            },
        ),
{
    if has_infix(comp, "aic".as_bytes()) {
        parsed.aic_version = Some(
            if has_suffix(comp, "aic3".as_bytes()) {
                3
            } else if has_suffix(comp, "aic2".as_bytes()) {
                2
            } else {
                1
            },
        );
        if let Some(v) = reg {
            if v.len() >= 16 {
                parsed.aic_base = Some(be64(v.as_slice(), 0));
            }
            if v.len() >= 32 {
                parsed.aic_event_base = Some(be64(v.as_slice(), 16));
            }
        }
    } else if same_bytes(comp, "apple,s5l-uart".as_bytes()) || (same_bytes(
        comp,
        "arm,pl011".as_bytes(),
    ) && parsed.uart_base.is_none()) {
        if let Some(v) = reg {
            if v.len() >= 16 {
                parsed.uart_base = Some(be64(v.as_slice(), 0));
            }
        }
    } else if same_bytes(comp, "arm,cortex-a15-gic".as_bytes()) || same_bytes(
        comp,
        "arm,gic-400".as_bytes(),
    ) {
        if let Some(v) = reg {
            if v.len() >= 16 {
                parsed.gic_base = Some(be64(v.as_slice(), 0));
            }
        }
    }
}

/// Takes the memory regions in a `reg` value over.
fn apply_memory(parsed: &mut ParsedFdt, value: &[u8])
    ensures
        final(parsed)@ == (ParsedView {
            memory_regions: old(parsed)@.memory_regions + regions_in(
                value@,
                value@.len() / 16,
            ),
            ..old(parsed)@
        }),
{
    let ghost first = parsed@;
    let n: usize = value.len() / 16;
    let mut i: usize = 0;
    assert(first.memory_regions + regions_in(value@, 0) =~= first.memory_regions);
    while i < n
        invariant
            i <= n,
            n == value@.len() / 16,
            value@.len() == value.len(),
            parsed@ == (ParsedView {
                memory_regions: first.memory_regions + regions_in(value@, i as nat),
                ..first
            }),
        decreases n - i,
    {
        let start: u64 = be64(value, i * 16);
        let size: u64 = be64(value, i * 16 + 8);
        if size > 0 {
            parsed.memory_regions.push(Region { start, end: start.wrapping_add(size) });
        }
        assert(parsed@.memory_regions =~= first.memory_regions + regions_in(
            value@,
            (i + 1) as nat,
        ));
        i += 1;
    }
}

/// Takes a plain property over.
fn apply_general(parsed: &mut ParsedFdt, node: &[u8], name: &[u8], value: &[u8])
    ensures
        final(parsed)@ == with_general(old(parsed)@, node@, name@, value@),
{
    assert(value@.len() == value.len());
    if same_bytes(name, "bootargs".as_bytes()) && (same_bytes(node, "chosen".as_bytes())
        || has_suffix(node, "/chosen".as_bytes())) {
        parsed.cmdline = Some(text_of(value));
    } else if has_prefix(node, "memory".as_bytes()) {
        if same_bytes(name, "reg".as_bytes()) && value.len() >= 16 {
            apply_memory(parsed, value);
        }
    } else if has_infix(node, "framebuffer".as_bytes()) {
        if same_bytes(name, "reg".as_bytes()) && value.len() >= 16 {
            parsed.fb_base = Some(be64(value, 0));
            parsed.fb_size = Some(be64(value, 8));
        } else if same_bytes(name, "width".as_bytes()) && value.len() >= 4 {
            parsed.fb_width = Some(be32(value, 0));
        } else if same_bytes(name, "height".as_bytes()) && value.len() >= 4 {
            parsed.fb_height = Some(be32(value, 0));
        } else if same_bytes(name, "stride".as_bytes()) && value.len() >= 4 {
            parsed.fb_stride = Some(be32(value, 0));
        } else if same_bytes(name, "format".as_bytes()) {
            parsed.fb_format = Some(text_of(value));
        }
    }
}

/// Reads the configuration out of what a walk came across.
pub fn interpret(events: &Vec<FdtEvent>) -> (parsed: ParsedFdt)
    ensures
        parsed@ == interpretation(events_view(events@), events@.len()),
{
    let ghost all = events_view(events@);
    let mut parsed: ParsedFdt = ParsedFdt::default();
    let mut i: usize = 0;
    while i < events.len()
        invariant
            all == events_view(events@),
            i <= events@.len(),
            parsed@ == interpretation(all, i as nat),
        decreases events.len() - i,
    {
        let event: &FdtEvent = &events[i];
        assert(all[i as int] == event@);
        match &event.item {
            FdtItem::Compatible(list) => {
                let reg: Option<Vec<u8>> = find_reg_property(events, event.node.as_slice());
                let ghost before = parsed@;
                let ghost reg_view = find_reg(all, all.len(), event.node@);
                let mut k: usize = 0;
                while k < list.len()
                    invariant
                        k <= list@.len(),
                        match reg {
                            Some(v) => reg_view == Some(v@),
                            None => reg_view is None,
                        },
                        parsed@ == with_compatibles(
                            before,
                            strings_view(list@),
                            k as nat,
                            reg_view,
                        ),
                    decreases list.len() - k,
                {
                    let comp: &[u8] = as_text(list[k].as_slice());
                    assert(strings_view(list@)[k as int] == list@[k as int]@);
                    apply_compatible(&mut parsed, comp, &reg);
                    k += 1;
                }
            },
            FdtItem::General(name, value) => {
                apply_general(
                    &mut parsed,
                    as_text(event.node.as_slice()),
                    as_text(name.as_slice()),
                    value.as_slice(),
                );
            },
            _ => {},
        }
        i += 1;
    }
    parsed
}

/// Parses the blob that starts at address `vaddr` and is made up of `blob`.
///
/// A blob whose address is not a multiple of four is refused, and so is one that
/// cannot be walked. Any other blob is parsed.
pub fn parse_fdt(vaddr: u64, blob: &[u8]) -> (parsed: Option<ParsedFdt>)
    ensures
        parsed is Some <==> vaddr % 4 == 0 && walkable(blob@),
        parsed matches Some(p) ==> p@ == interpretation(
            dtb_events(blob@),
            dtb_events(blob@).len(),
        ),
{
    if vaddr % 4 != 0 || !is_walkable(blob) {
        return None;
    }
    match walk_dtb(&AlignedBlob::new(blob)) {
        None => None,
        Some(events) => Some(interpret(&events)),
    }
}

/// The search for a `reg` property of a node other than the root is in vain: it
/// never gets past the root, because the root is not called like that.
pub proof fn law_only_the_root_has_a_reg(events: Seq<EventView>, n: nat, target: Seq<u8>)
    requires
        n <= events.len(),
        target.len() > 0,
        forall|i: int|
            0 <= i < events.len() ==> (#[trigger] events[i]).level == 0 ==> events[i].node.len()
                == 0,
    ensures
        find_reg(events, n, target) is None,
    decreases n,
{
    if n > 0 {
        law_only_the_root_has_a_reg(events, (n - 1) as nat, target);
        lemma_root_stays_open(events, (n - 1) as nat);
        let i = (n - 1) as nat;
        if events[n - 1].level > 0 && reached(events, i, target) {
            assert(open_names(events, i)[0] == target);
        }
    }
}

proof fn lemma_root_stays_open(events: Seq<EventView>, n: nat)
    ensures
        open_names(events, n).len() > 0,
        open_names(events, n)[0] == Seq::<u8>::empty(),
    decreases n,
{
    if n > 0 {
        lemma_root_stays_open(events, (n - 1) as nat);
    }
}

/// Different names have different bytes, and the bytes of a name are text.
proof fn lemma_names(a: Seq<char>, b: Seq<char>)
    ensures
        vstd::utf8::encode_utf8(a) == vstd::utf8::encode_utf8(b) <==> a == b,
        text_or_empty(vstd::utf8::encode_utf8(a)) == vstd::utf8::encode_utf8(a),
{
    vstd::utf8::encode_utf8_valid_utf8(a);
    vstd::utf8::encode_utf8_decode_utf8(a);
    vstd::utf8::encode_utf8_decode_utf8(b);
}

/// A name that is not text is no name that means anything.
proof fn lemma_named(name: Seq<u8>, wanted: Seq<char>)
    requires
        text_or_empty(name) == vstd::utf8::encode_utf8(wanted),
        wanted.len() > 0,
    ensures
        name == vstd::utf8::encode_utf8(wanted),
{
    vstd::utf8::encode_utf8_decode_utf8(wanted);
    if !vstd::utf8::valid_utf8(name) {
        assert(vstd::utf8::decode_utf8(Seq::<u8>::empty()) =~= Seq::<char>::empty());
    }
}

/// Event `i` is the plain property `name` of a node.
pub open spec fn is_prop(events: Seq<EventView>, i: int, name: Seq<char>) -> bool {
    events[i].item matches ItemView::General(n, _) && n == vstd::utf8::encode_utf8(name)
}

proof fn lemma_trimmed(text: Seq<char>, nuls: nat)
    requires
        text.len() == 0 || text.last() != '\0',
    ensures
        trim_nuls(text + Seq::new(nuls, |k: int| '\0')) == text,
    decreases nuls,
{
    let all = text + Seq::new(nuls, |k: int| '\0');
    if nuls > 0 {
        lemma_trimmed(text, (nuls - 1) as nat);
        assert(all.drop_last() =~= text + Seq::new((nuls - 1) as nat, |k: int| '\0'));
    } else {
        assert(all =~= text);
    }
}

proof fn lemma_compatibles_keep(parsed: ParsedView, list: Seq<Seq<u8>>, n: nat, reg: Option<Seq<u8>>)
    ensures
        ({
            let after = with_compatibles(parsed, list, n, reg);
            after == (ParsedView {
                aic_version: after.aic_version,
                aic_base: after.aic_base,
                aic_event_base: after.aic_event_base,
                uart_base: after.uart_base,
                gic_base: after.gic_base,
                ..parsed
            })
        }),
    decreases n,
{
    if n > 0 {
        lemma_compatibles_keep(parsed, list, (n - 1) as nat, reg);
    }
}

proof fn lemma_command_line_stays(events: Seq<EventView>, i: int, n: nat)
    requires
        0 <= i < n <= events.len(),
        forall|j: int| i < j < n ==> !#[trigger] is_prop(events, j, "bootargs"@),
    ensures
        interpretation(events, n).cmdline == interpretation(events, (i + 1) as nat).cmdline,
    decreases n,
{
    if n > i + 1 {
        let before = (n - 1) as nat;
        lemma_command_line_stays(events, i, before);
        assert(!is_prop(events, n - 1, "bootargs"@));
        reveal_strlit("bootargs");
        match events[n - 1].item {
            ItemView::General(name, value) => {
                if text_or_empty(name) == name_bytes("bootargs") {
                    lemma_named(name, "bootargs"@);
                }
            },
            ItemView::Compatible(list) => {
                lemma_compatibles_keep(
                    interpretation(events, before),
                    list,
                    list.len(),
                    find_reg(events, events.len(), events[n - 1].node),
                );
            },
            _ => {},
        }
    }
}

/// The command line is the text that the boot loader left for it, without the NULs behind
/// it. If there are several, the last one counts.
pub proof fn law_command_line_is_taken(
    events: Seq<EventView>,
    i: int,
    text: Seq<char>,
    nuls: nat,
    value: Seq<u8>,
)
    requires
        0 <= i < events.len(),
        events[i].node == name_bytes("chosen"),
        events[i].item == ItemView::General(name_bytes("bootargs"), value),
        value == vstd::utf8::encode_utf8(text + Seq::new(nuls, |k: int| '\0')),
        text.len() == 0 || text.last() != '\0',
        forall|j: int| i < j < events.len() ==> !#[trigger] is_prop(events, j, "bootargs"@),
    ensures
        interpretation(events, events.len()).cmdline == Some(text),
{
    let whole = text + Seq::new(nuls, |k: int| '\0');
    lemma_command_line_stays(events, i, events.len());
    lemma_names("bootargs"@, "bootargs"@);
    lemma_names("chosen"@, "chosen"@);
    vstd::utf8::encode_utf8_valid_utf8(whole);
    vstd::utf8::encode_utf8_decode_utf8(whole);
    lemma_trimmed(text, nuls);
}

/// A tree without boot arguments gives no command line.
pub proof fn law_no_command_line_without_arguments(events: Seq<EventView>, n: nat)
    requires
        n <= events.len(),
        forall|j: int| 0 <= j < n ==> !#[trigger] is_prop(events, j, "bootargs"@),
    ensures
        interpretation(events, n).cmdline is None,
    decreases n,
{
    if n > 0 {
        let before = (n - 1) as nat;
        law_no_command_line_without_arguments(events, before);
        assert(!is_prop(events, n - 1, "bootargs"@));
        reveal_strlit("bootargs");
        match events[n - 1].item {
            ItemView::General(name, value) => {
                if text_or_empty(name) == name_bytes("bootargs") {
                    lemma_named(name, "bootargs"@);
                }
            },
            ItemView::Compatible(list) => {
                lemma_compatibles_keep(
                    interpretation(events, before),
                    list,
                    list.len(),
                    find_reg(events, events.len(), events[n - 1].node),
                );
            },
            _ => {},
        }
    }
}

proof fn lemma_region_is_listed(value: Seq<u8>, n: nat, k: int, region: Region)
    requires
        0 <= k < n,
        region.start == double(value, k * 16),
        double(value, k * 16 + 8) > 0,
        region.end == at(region.start, double(value, k * 16 + 8)),
    ensures
        regions_in(value, n).contains(region),
    decreases n,
{
    let before = regions_in(value, (n - 1) as nat);
    let all = regions_in(value, n);
    if k == n - 1 {
        assert(all[before.len() as int] == region);
    } else {
        lemma_region_is_listed(value, (n - 1) as nat, k, region);
        let j = choose|j: int| 0 <= j < before.len() && before[j] == region;
        assert(all[j] == region);
    }
}

proof fn lemma_regions_stay(events: Seq<EventView>, m: nat, n: nat, region: Region)
    requires
        m <= n <= events.len(),
        interpretation(events, m).memory_regions.contains(region),
    ensures
        interpretation(events, n).memory_regions.contains(region),
    decreases n,
{
    if m < n {
        let before = (n - 1) as nat;
        lemma_regions_stay(events, m, before, region);
        let had = interpretation(events, before).memory_regions;
        let has = interpretation(events, n).memory_regions;
        let j = choose|j: int| 0 <= j < had.len() && had[j] == region;
        if let ItemView::Compatible(list) = events[n - 1].item {
            lemma_compatibles_keep(
                interpretation(events, before),
                list,
                list.len(),
                find_reg(events, events.len(), events[n - 1].node),
            );
        }
        assert(has[j] == region);
    }
}

/// Memory that the tree describes is known to the kernel: every entry of the `reg` property
/// of a memory node is a start and a size, and both are taken as they stand.
pub proof fn law_memory_is_taken(
    events: Seq<EventView>,
    i: int,
    value: Seq<u8>,
    k: int,
    start: Seq<u8>,
    size: Seq<u8>,
)
    requires
        0 <= i < events.len(),
        vstd::utf8::valid_utf8(events[i].node),
        starts_with(events[i].node, name_bytes("memory")),
        events[i].item == ItemView::General(name_bytes("reg"), value),
        start.len() == 8,
        size.len() == 8,
        0 <= k,
        (k + 1) * 16 <= value.len(),
        value.subrange(16 * k, 16 * k + 16) == start + size,
        be_value(size) > 0,
        be_value(start) + be_value(size) <= u64::MAX,
    ensures
        interpretation(events, events.len()).memory_regions.contains(
            Region {
                start: be_value(start) as u64,
                end: (be_value(start) + be_value(size)) as u64,
            },
        ),
{
    let region = Region {
        start: be_value(start) as u64,
        end: (be_value(start) + be_value(size)) as u64,
    };
    reveal_strlit("reg");
    reveal_strlit("bootargs");
    lemma_names("reg"@, "bootargs"@);
    let chunk = value.subrange(16 * k, 16 * k + 16);
    assert(value.subrange(k * 16, k * 16 + 8) =~= start) by {
        assert forall|j: int| 0 <= j < 8 implies value[16 * k + j] == start[j] by {
            assert(chunk[j] == (start + size)[j]);
        }
    }
    assert(value.subrange(k * 16 + 8, k * 16 + 16) =~= size) by {
        assert forall|j: int| 0 <= j < 8 implies value[16 * k + 8 + j] == size[j] by {
            assert(chunk[8 + j] == (start + size)[8 + j]);
        }
    }
    law_big_endian(start);
    law_big_endian(size);
    lemma_region_is_listed(value, value.len() / 16, k, region);
    let before = interpretation(events, i as nat).memory_regions;
    let more = regions_in(value, value.len() / 16);
    let j = choose|j: int| 0 <= j < more.len() && more[j] == region;
    assert((before + more)[before.len() + j] == region);
    assert(interpretation(events, (i + 1) as nat).memory_regions == before + more);
    lemma_regions_stay(events, (i + 1) as nat, events.len(), region);
}

/// A framebuffer is where its node says, and looks as its node says: each of these
/// properties is taken over as the number that it holds.
pub proof fn law_framebuffer_is_taken(parsed: ParsedView, node: Seq<u8>, value: Seq<u8>)
    requires
        occurs_in(name_bytes("framebuffer"), node),
        !starts_with(node, name_bytes("memory")),
        value.len() >= 16,
    ensures
        with_general(parsed, node, name_bytes("reg"), value) == (ParsedView {
            fb_base: Some(be_value(value.subrange(0, 8)) as u64),
            fb_size: Some(be_value(value.subrange(8, 16)) as u64),
            ..parsed
        }),
        with_general(parsed, node, name_bytes("width"), value) == (ParsedView {
            fb_width: Some(be_value(value.subrange(0, 4)) as u32),
            ..parsed
        }),
        with_general(parsed, node, name_bytes("height"), value) == (ParsedView {
            fb_height: Some(be_value(value.subrange(0, 4)) as u32),
            ..parsed
        }),
        with_general(parsed, node, name_bytes("stride"), value) == (ParsedView {
            fb_stride: Some(be_value(value.subrange(0, 4)) as u32),
            ..parsed
        }),
{
    reveal_strlit("bootargs");
    reveal_strlit("reg");
    reveal_strlit("width");
    reveal_strlit("height");
    reveal_strlit("stride");
    lemma_names("reg"@, "bootargs"@);
    lemma_names("width"@, "bootargs"@);
    lemma_names("width"@, "reg"@);
    lemma_names("height"@, "bootargs"@);
    lemma_names("height"@, "reg"@);
    lemma_names("height"@, "width"@);
    lemma_names("stride"@, "bootargs"@);
    lemma_names("stride"@, "reg"@);
    lemma_names("stride"@, "width"@);
    assert("height"@[0] == 'h' && "stride"@[0] == 's');
    lemma_names("stride"@, "height"@);
}

/// The windows of a device are where its `reg` says: the first window of an interrupt
/// controller, of a serial port or of a GIC, and the second window of an interrupt
/// controller, which has its event register. Each entry takes sixteen bytes.
pub proof fn law_windows_are_taken(parsed: ParsedView, comp: Seq<u8>, reg: Seq<u8>)
    requires
        reg.len() >= 32,
    ensures
        ({
            let after = with_compatible(parsed, comp, Some(reg));
            let first = Some(be_value(reg.subrange(0, 8)) as u64);
            let second = Some(be_value(reg.subrange(16, 24)) as u64);
            let aic = occurs_in(name_bytes("aic"), comp);
            &&& aic ==> after.aic_base == first && after.aic_event_base == second
                && after.aic_version is Some
            &&& !aic ==> after.aic_base == parsed.aic_base && after.aic_version
                == parsed.aic_version
            &&& !aic && comp == name_bytes("apple,s5l-uart") ==> after.uart_base == first
            &&& !aic && comp == name_bytes("arm,pl011") ==> after.uart_base == (
            if parsed.uart_base is None {
                first
            } else {
                parsed.uart_base
            })
            &&& !aic && comp == name_bytes("arm,gic-400") ==> after.gic_base == first
            &&& !aic && comp == name_bytes("arm,cortex-a15-gic") ==> after.gic_base == first
        }),
{
    reveal_strlit("apple,s5l-uart");
    reveal_strlit("arm,pl011");
    reveal_strlit("arm,gic-400");
    reveal_strlit("arm,cortex-a15-gic");
    lemma_names("apple,s5l-uart"@, "arm,pl011"@);
    lemma_names("arm,gic-400"@, "arm,pl011"@);
    lemma_names("arm,gic-400"@, "apple,s5l-uart"@);
    lemma_names("arm,cortex-a15-gic"@, "arm,pl011"@);
    lemma_names("arm,cortex-a15-gic"@, "apple,s5l-uart"@);
}

/// The generation of an interrupt controller is the digit at the end of its name, and the
/// first one has none.
pub proof fn law_generation_is_taken(
    parsed: ParsedView,
    vendor: Seq<u8>,
    reg: Option<Seq<u8>>,
)
    ensures
        with_compatible(parsed, vendor + name_bytes("aic3"), reg).aic_version == Some(3u32),
        with_compatible(parsed, vendor + name_bytes("aic2"), reg).aic_version == Some(2u32),
        with_compatible(parsed, vendor + name_bytes("aic"), reg).aic_version == Some(1u32),
{
    lemma_generation(parsed, vendor, vendor + name_bytes("aic3"), reg, true, false);
    lemma_generation(parsed, vendor, vendor + name_bytes("aic2"), reg, false, true);
    lemma_generation(parsed, vendor, vendor + name_bytes("aic"), reg, false, false);
}

proof fn lemma_generation(
    parsed: ParsedView,
    vendor: Seq<u8>,
    comp: Seq<u8>,
    reg: Option<Seq<u8>>,
    third: bool,
    second: bool,
)
    requires
        comp == vendor + (if third {
            name_bytes("aic3")
        } else if second {
            name_bytes("aic2")
        } else {
            name_bytes("aic")
        }),
    ensures
        with_compatible(parsed, comp, reg).aic_version == Some(
            if third {
                3u32
            } else if second {
                2
            } else {
                1
            },
        ),
{
    lemma_aic_bytes();
    let a = seq![97u8, 105, 99];
    assert(a.push(50) =~= seq![97u8, 105, 99, 50]);
    assert(a.push(51) =~= seq![97u8, 105, 99, 51]);
    if third {
        lemma_suffix(vendor, a, 51, 51);
    } else if second {
        lemma_suffix(vendor, a, 50, 51);
        lemma_suffix(vendor, a, 50, 50);
    } else {
        lemma_suffix(vendor, a, 50, 51);
        lemma_suffix(vendor, a, 50, 50);
    }
}

proof fn lemma_suffix(v: Seq<u8>, a: Seq<u8>, d: u8, e: u8)
    requires
        a.len() == 3,
        a[2] == 99,
        e != 99,
    ensures
        occurs_in(a, v + a),
        occurs_in(a, v + a.push(d)),
        ends_with(v + a.push(d), a.push(e)) == (d == e),
        !ends_with(v + a, a.push(e)),
{
    let n = v.len() as int;
    let short = v + a;
    let long = v + a.push(d);
    assert(short.subrange(n, n + a.len()) =~= a);
    assert(long.subrange(n, n + a.len()) =~= a);
    let tail = long.skip(long.len() - 4);
    assert(tail =~= a.push(d));
    assert(tail[3] == d && a.push(e)[3] == e);
    if d == e {
        assert(tail =~= a.push(e));
    }
    if ends_with(short, a.push(e)) {
        assert(short.skip(short.len() - 4)[3] == short[short.len() - 1]);
        assert(a.push(e)[3] == e);
    }
}

proof fn lemma_aic_bytes()
    ensures
        name_bytes("aic") == seq![97u8, 105, 99],
        name_bytes("aic2") == seq![97u8, 105, 99, 50],
        name_bytes("aic3") == seq![97u8, 105, 99, 51],
{
    reveal_strlit("aic");
    reveal_strlit("aic2");
    reveal_strlit("aic3");
    vstd::utf8::is_ascii_chars_encode_utf8("aic"@);
    vstd::utf8::is_ascii_chars_encode_utf8("aic2"@);
    vstd::utf8::is_ascii_chars_encode_utf8("aic3"@);
    assert(name_bytes("aic") =~= seq![97u8, 105, 99]);
    assert(name_bytes("aic2") =~= seq![97u8, 105, 99, 50]);
    assert(name_bytes("aic3") =~= seq![97u8, 105, 99, 51]);
}

/// What the blob holds as word `i` of the structure block, in the byte order of the tree.
pub open spec fn number_at(blob: Seq<u8>, lay: Layout, i: int) -> nat {
    be_value(blob.subrange(lay.structure + 4 * i, lay.structure + 4 * i + 4))
}

/// The last byte of word `i` of the structure block.
pub open spec fn last_byte(blob: Seq<u8>, lay: Layout, i: int) -> u8 {
    blob[lay.structure + 4 * i + 3]
}

/// A word that stands for nothing is passed, and the end of a node closes the innermost
/// one.
pub proof fn law_short_tokens_are_passed(blob: Seq<u8>, lay: Layout, i: int, open: Seq<Frame>)
    requires
        0 <= i < lay.words,
        open.len() > 0,
    ensures
        number_at(blob, lay, i) == 4 ==> next(blob, lay, i, open) == Some((i + 1, open)),
        number_at(blob, lay, i) == 2 ==> next(blob, lay, i, open) == Some((i + 1, open.drop_last())),
{
}

/// A property is passed with its whole value, which takes as many words as it needs, if
/// it is all there and its name ends. It leaves as many nodes open as there were.
pub proof fn law_property_is_passed(
    blob: Seq<u8>,
    lay: Layout,
    i: int,
    open: Seq<Frame>,
    len: nat,
    words: int,
    off: nat,
    name: Seq<u8>,
)
    requires
        0 <= i,
        open.len() > 0,
        number_at(blob, lay, i) == 3,
        number_at(blob, lay, i + 1) == len <= u32::MAX,
        number_at(blob, lay, i + 2) == off <= u32::MAX,
        4 * words - 4 < len <= 4 * words,
        i + 3 + words <= lay.words,
        off + name.len() < lay.strings_len,
        lay.strings + lay.strings_len <= blob.len(),
        blob.subrange(lay.strings + off, lay.strings + off + name.len()) == name,
        blob[lay.strings + off + name.len()] == 0,
        !name.contains(0),
        name != name_bytes("reg") || 1 <= open.last().outer_address + open.last().outer_size
            <= u32::MAX,
    ensures
        next(blob, lay, i, open) matches Some((j, then)) && j == i + 3 + words && then.len()
            == open.len() && then.drop_last() == open.drop_last(),
{
    let rest = strings_from(blob, lay, off as int);
    let n = name.len() as int;
    assert(rest.take(n) =~= name);
    assert(rest[n] == 0);
    lemma_terminated(rest, name);
    assert(prop_name(blob, lay, off as int) == Some(name));
    assert((len + 3) / 4 == words);
    let open_after = next(blob, lay, i, open);
    assert(open_after matches Some((j, then)) && then.drop_last() =~= open.drop_last());
}

proof fn lemma_terminated(rest: Seq<u8>, name: Seq<u8>)
    requires
        name.len() < rest.len(),
        rest.take(name.len() as int) == name,
        rest[name.len() as int] == 0,
        !name.contains(0),
    ensures
        until_nul(rest) == name,
{
    let n = name.len() as int;
    assert forall|k: int| 0 <= k < n implies rest[k] != 0 by {
        assert(rest[k] == name[k]);
        assert(name.contains(name[k]));
    }
    crate::text::lemma_until_nul(rest, n);
}

/// A node is entered behind its name, which is filled up to a whole word and ends with a
/// zero. One more node is open then; its children count cells as the tree says by
/// default.
pub proof fn law_node_is_entered(
    blob: Seq<u8>,
    lay: Layout,
    i: int,
    open: Seq<Frame>,
    words: int,
)
    requires
        0 <= i,
        open.len() > 0,
        number_at(blob, lay, i) == 1,
        1 <= words,
        i + 1 + words <= lay.words,
        last_byte(blob, lay, i + words) == 0,
        forall|k: int| i + 1 <= k < i + words ==> #[trigger] last_byte(blob, lay, k) != 0,
    ensures
        next(blob, lay, i, open) matches Some((j, then)) && {
            &&& j == i + 1 + words
            &&& then.len() == open.len() + 1
            &&& then.drop_last() == open
            &&& then.last().outer_address == open.last().address
            &&& then.last().outer_size == open.last().size
            &&& then.last().address == 2
            &&& then.last().size == 1
        },
{
    lemma_name_runs_to(blob, lay, i + 1, i + words);
    assert(next(blob, lay, i, open) matches Some((j, then)) && then.drop_last() =~= open);
}

proof fn lemma_name_runs_to(blob: Seq<u8>, lay: Layout, i: int, last: int)
    requires
        i <= last < lay.words,
        last_byte(blob, lay, last) == 0,
        forall|k: int| i <= k < last ==> #[trigger] last_byte(blob, lay, k) != 0,
    ensures
        name_end(blob, lay, i) == Some(last + 1),
    decreases last - i,
{
    if i < last {
        assert(last_byte(blob, lay, i) != 0);
        lemma_name_runs_to(blob, lay, i + 1, last);
    }
}

/// A tree all of whose nodes are closed can be walked, however many tokens it is made of.
/// `places` are the words at which they start, and `opens` the nodes that are open there.
pub proof fn law_closed_tree_can_be_walked(
    blob: Seq<u8>,
    places: Seq<int>,
    opens: Seq<Seq<Frame>>,
)
    requires
        header_ok(blob),
        places.len() == opens.len(),
        places.len() > 0,
        places[0] == 0,
        opens[0] == seq![root_frame()],
        opens.last().len() == 0,
        forall|k: int|
            0 <= k < places.len() - 1 ==> places[k] < #[trigger] places[k + 1]
                <= layout_of(blob).words && next(blob, layout_of(blob), places[k], opens[k])
                == Some((places[k + 1], opens[k + 1])),
    ensures
        walkable(blob),
{
    lemma_closes(blob, layout_of(blob), places, opens, 0);
}

proof fn lemma_closes(
    blob: Seq<u8>,
    lay: Layout,
    places: Seq<int>,
    opens: Seq<Seq<Frame>>,
    k: int,
)
    requires
        places.len() == opens.len(),
        0 <= k < places.len(),
        opens.last().len() == 0,
        forall|k: int|
            0 <= k < places.len() - 1 ==> places[k] < #[trigger] places[k + 1] <= lay.words && next(
                blob,
                lay,
                places[k],
                opens[k],
            ) == Some((places[k + 1], opens[k + 1])),
    ensures
        closes(blob, lay, places[k], opens[k]),
    decreases places.len() - k,
{
    if k < places.len() - 1 {
        lemma_closes(blob, lay, places, opens, k + 1);
        assert(places[k] < places[k + 1]);
    }
}

/// A header is accepted only if the blob starts as a tree does, is there to its end, and
/// holds both of its blocks, one behind the other.
pub proof fn law_header_is_proper(blob: Seq<u8>)
    requires
        header_ok(blob),
    ensures
        blob.len() >= 40,
        word(blob, 0) == 0xd00d_feed,
        word(blob, 4) <= blob.len(),
        word(blob, 8) + word(blob, 36) <= word(blob, 12),
        word(blob, 12) + word(blob, 32) <= word(blob, 4),
        word(blob, word(blob, 8) as int) == 1,
        word(blob, word(blob, 8) + word(blob, 36) - 4) == 9,
        layout_of(blob).structure == word(blob, 8) + 8,
        layout_of(blob).structure + 4 * layout_of(blob).words + 4 == word(blob, 8) + word(blob, 36),
        layout_of(blob).strings == word(blob, 12),
        layout_of(blob).strings_len == word(blob, 32),
{
}

} // verus!
