//! Apple Device Tree (ADT) reader.
//!
//! The ADT is a little-endian format without offsets. A node is
//!
//! ```text
//! u32 property_count; u32 child_count;
//! property_count * { char name[32]; u32 size; u8 value[align4(size)]; }
//! child_count * <node>
//! ```
//!
//! Nothing here allocates: the tree is read before there is a heap.

use vstd::prelude::*;
use vstd::slice::slice_subrange;

use crate::bytes::{le32, le64, le_value};
use crate::hw::at;
use crate::text::{cut_at_nul, has_prefix, same_bytes, starts_with, until_nul, utf8};

verus! {

/// The depth up to which a path is tracked.
pub const MAX_DEPTH: usize = 8;

/// A device tree.
pub struct Adt<'a> {
    data: &'a [u8],
}

/// A node and its ancestors below the root, outermost first.
#[derive(Clone, Copy)]
pub struct NodePath {
    trace: [usize; 8],
    depth: usize,
}

/// The bytes of a name.
pub open spec fn name_bytes(name: &str) -> Seq<u8> {
    vstd::utf8::encode_utf8(name@)
}

/// The 32-bit number at `off`.
pub open spec fn word_at(data: Seq<u8>, off: int) -> Option<u32> {
    if 0 <= off && off + 4 <= data.len() {
        Some(le_value(data.subrange(off, off + 4)) as u32)
    } else {
        None
    }
}

/// The numbers of properties and children of the node at `node`.
pub open spec fn counts_at(data: Seq<u8>, node: int) -> Option<(u32, u32)> {
    match (word_at(data, node), word_at(data, node + 4)) {
        (Some(props), Some(children)) => Some((props, children)),
        _ => None,
    }
}

/// The size of the value of the property at `prop`. The top bit is a flag.
pub open spec fn value_size(data: Seq<u8>, prop: int) -> Option<int> {
    match word_at(data, prop + 32) {
        Some(word) => Some(word as int % 0x8000_0000),
        None => None,
    }
}

/// Where the property after the one at `prop` starts: values are padded to a
/// multiple of four bytes.
pub open spec fn after_prop(data: Seq<u8>, prop: int) -> Option<int> {
    match value_size(data, prop) {
        Some(size) => {
            let end = prop + 36 + (size + 3) / 4 * 4;
            if end > data.len() {
                None
            } else {
                Some(end)
            }
        },
        None => None,
    }
}

/// Where `n` properties from `off` on end.
pub open spec fn after_props(data: Seq<u8>, off: int, n: nat) -> Option<int>
    decreases n,
{
    if n == 0 {
        Some(off)
    } else {
        match after_props(data, off, (n - 1) as nat) {
            Some(o) => after_prop(data, o),
            None => None,
        }
    }
}

/// Where the properties of the node at `node` end, and its first child starts.
pub open spec fn props_end_of(data: Seq<u8>, node: int) -> Option<int> {
    match counts_at(data, node) {
        Some((props, _)) => after_props(data, node + 8, props as nat),
        None => None,
    }
}

/// Where the node at `node` ends, with all its descendants.
pub open spec fn node_end_of(data: Seq<u8>, node: int) -> Option<int>
    decreases data.len() - node, 0nat,
{
    match (counts_at(data, node), props_end_of(data, node)) {
        (Some((_, children)), Some(off)) => if off >= node + 8 && node >= 0 {
            nodes_end_of(data, off, children as nat)
        } else {
            None
        },
        _ => None,
    }
}

/// Where `n` nodes from `off` on end.
pub open spec fn nodes_end_of(data: Seq<u8>, off: int, n: nat) -> Option<int>
    decreases data.len() - off, n + 1,
{
    if n == 0 {
        Some(off)
    } else {
        match nodes_end_of(data, off, (n - 1) as nat) {
            Some(o) => if off <= o <= data.len() {
                node_end_of(data, o)
            } else {
                None
            },
            None => None,
        }
    }
}

/// The value of the first property called `name` among the `n` properties from
/// `off` on. A property with a name that is not text ends the search.
pub open spec fn find_prop(data: Seq<u8>, off: int, n: nat, name: Seq<u8>) -> Option<Seq<u8>>
    decreases n,
{
    if n == 0 || off < 0 || off + 32 > data.len() {
        None
    } else {
        let found = until_nul(data.subrange(off, off + 32));
        if !vstd::utf8::valid_utf8(found) {
            None
        } else if found == name {
            match value_size(data, off) {
                Some(size) => if off + 36 + size <= data.len() {
                    Some(data.subrange(off + 36, off + 36 + size))
                } else {
                    None
                },
                None => None,
            }
        } else {
            match after_prop(data, off) {
                Some(o) => find_prop(data, o, (n - 1) as nat, name),
                None => None,
            }
        }
    }
}

/// The value of the property `name` of the node at `node`.
#[verifier::opaque]
pub open spec fn prop_of(data: Seq<u8>, node: int, name: Seq<u8>) -> Option<Seq<u8>> {
    match counts_at(data, node) {
        Some((props, _)) => find_prop(data, node + 8, props as nat, name),
        None => None,
    }
}

/// The number in the first four bytes of a property.
#[verifier::opaque]
pub open spec fn prop_word_of(data: Seq<u8>, node: int, name: Seq<u8>) -> Option<u32> {
    match prop_of(data, node, name) {
        Some(v) => word_at(v, 0),
        None => None,
    }
}

/// `item` is one of the NUL-separated strings in `list`.
pub open spec fn lists(list: Seq<u8>, item: Seq<u8>) -> bool {
    exists|i: int, j: int|
        {
            &&& 0 <= i <= j <= list.len()
            &&& i == 0 || list[i - 1] == 0
            &&& j == list.len() || list[j] == 0
            &&& forall|k: int| i <= k < j ==> list[k] != 0
            &&& #[trigger] list.subrange(i, j) == item
        }
}

/// Whether the node at `node` is compatible with `compat`.
#[verifier::opaque]
pub open spec fn compatible(data: Seq<u8>, node: int, compat: Seq<u8>) -> bool {
    match prop_of(data, node, name_bytes("compatible")) {
        Some(v) => lists(v, compat),
        None => false,
    }
}

/// The name of the node at `node`.
pub open spec fn node_name_of(data: Seq<u8>, node: int) -> Option<Seq<u8>> {
    match prop_of(data, node, name_bytes("name")) {
        Some(v) => if vstd::utf8::valid_utf8(until_nul(v)) {
            Some(until_nul(v))
        } else {
            None
        },
        None => None,
    }
}

/// Whether a node called `actual` is meant by `wanted`, which may leave a unit
/// address out.
pub open spec fn is_called(actual: Seq<u8>, wanted: Seq<u8>) -> bool {
    actual == wanted || starts_with(actual, wanted.push(64))
}

/// The first of the `n` nodes from `off` on that is called `name`. A node without a
/// name ends the search.
pub open spec fn find_child(data: Seq<u8>, off: int, n: nat, name: Seq<u8>) -> Option<int>
    decreases n,
{
    if n == 0 {
        None
    } else {
        match node_name_of(data, off) {
            Some(actual) => if is_called(actual, name) {
                Some(off)
            } else {
                match node_end_of(data, off) {
                    Some(o) => find_child(data, o, (n - 1) as nat, name),
                    None => None,
                }
            },
            None => None,
        }
    }
}

/// The child called `name` of the node at `node`.
pub open spec fn child_of(data: Seq<u8>, node: int, name: Seq<u8>) -> Option<int> {
    match (counts_at(data, node), props_end_of(data, node)) {
        (Some((_, children)), Some(off)) => find_child(data, off, children as nat, name),
        _ => None,
    }
}

/// The non-empty parts of a path, and the part that is still open at its end.
pub open spec fn split_path(path: Seq<u8>) -> (Seq<Seq<u8>>, Seq<u8>)
    decreases path.len(),
{
    if path.len() == 0 {
        (Seq::empty(), Seq::empty())
    } else {
        let (parts, open) = split_path(path.drop_last());
        if path.last() != 47 {
            (parts, open.push(path.last()))
        } else if open.len() > 0 {
            (parts.push(open), Seq::empty())
        } else {
            (parts, open)
        }
    }
}

/// The non-empty parts of a path between slashes.
pub open spec fn components(path: Seq<u8>) -> Seq<Seq<u8>> {
    let (parts, open) = split_path(path);
    if open.len() > 0 {
        parts.push(open)
    } else {
        parts
    }
}

/// The nodes that `parts` leads through, from the root's child on.
pub open spec fn resolve(data: Seq<u8>, parts: Seq<Seq<u8>>) -> Option<Seq<usize>>
    decreases parts.len(),
{
    if parts.len() == 0 {
        Some(Seq::empty())
    } else {
        match resolve(data, parts.drop_last()) {
            Some(trace) => {
                let parent = if trace.len() == 0 {
                    0
                } else {
                    trace.last() as int
                };
                match child_of(data, parent, parts.last()) {
                    Some(node) => if trace.len() < MAX_DEPTH {
                        Some(trace.push(node as usize))
                    } else {
                        None
                    },
                    None => None,
                }
            },
            None => None,
        }
    }
}

/// The number in the first one or two words of `v`.
pub open spec fn cells_of(v: Seq<u8>) -> u64 {
    if v.len() >= 8 {
        le_value(v.take(8)) as u64
    } else if v.len() >= 4 {
        le_value(v.take(4)) as u64
    } else {
        0
    }
}

/// A range of addresses on a child bus and where the parent bus has it.
pub struct BusRange {
    pub child: u64,
    pub parent: u64,
    pub size: u64,
}

/// Entry `i` of a `ranges` property whose entries have the given numbers of cells.
pub open spec fn range_at(
    ranges: Seq<u8>,
    i: int,
    child_cells: int,
    parent_cells: int,
    size_cells: int,
) -> BusRange {
    let entry_size = (child_cells + parent_cells + size_cells) * 4;
    let entry = ranges.subrange(i * entry_size, i * entry_size + entry_size);
    BusRange {
        child: cells_of(entry.take(child_cells * 4)),
        parent: cells_of(entry.subrange(child_cells * 4, (child_cells + parent_cells) * 4)),
        size: cells_of(entry.skip((child_cells + parent_cells) * 4)),
    }
}

/// Whether a range holds all of `[addr, addr + size)`; sums are modulo the width of
/// an address.
pub open spec fn holds(range: BusRange, addr: u64, size: u64) -> bool {
    addr >= range.child && at(addr, size) <= at(range.child, range.size)
}

/// `addr` as the parent bus has it: the first of the entries from `i` on that holds
/// the region decides, and without one the address stays.
pub open spec fn remap(
    ranges: Seq<u8>,
    i: nat,
    cells: (int, int, int),
    addr: u64,
    size: u64,
) -> u64
    decreases ranges.len() / ((cells.0 + cells.1 + cells.2) * 4) as nat - i,
{
    let n = ranges.len() / ((cells.0 + cells.1 + cells.2) * 4) as nat;
    if i >= n {
        addr
    } else {
        let range = range_at(ranges, i as int, cells.0, cells.1, cells.2);
        if holds(range, addr, size) {
            at((addr - range.child) as u64, range.parent)
        } else {
            remap(ranges, i + 1, cells, addr, size)
        }
    }
}

/// The parent of `trace[cursor]`.
pub open spec fn parent_at(trace: Seq<usize>, cursor: int) -> int {
    if cursor > 0 {
        trace[cursor - 1] as int
    } else {
        0
    }
}

/// The address that `addr` on the bus of `trace[cursor]` has on the outermost bus.
/// A bus without `ranges` ends the translation.
pub open spec fn translate(
    data: Seq<u8>,
    trace: Seq<usize>,
    cursor: nat,
    addr: u64,
    size: u64,
    addr_cells: int,
    size_cells: int,
) -> Option<u64>
    decreases cursor,
{
    if cursor == 0 {
        Some(addr)
    } else {
        let up = (cursor - 1) as nat;
        match prop_of(data, trace[up as int] as int, name_bytes("ranges")) {
            None => Some(addr),
            Some(ranges) => {
                let parent = parent_at(trace, up as int);
                match (
                    prop_word_of(data, parent, name_bytes("#address-cells")),
                    prop_word_of(data, parent, name_bytes("#size-cells")),
                ) {
                    (Some(parent_cells), Some(parent_size_cells)) => if 1 <= parent_cells <= 2 {
                        translate(
                            data,
                            trace,
                            up,
                            remap(
                                ranges,
                                0,
                                (addr_cells, parent_cells as int, size_cells),
                                addr,
                                size,
                            ),
                            size,
                            parent_cells as int,
                            parent_size_cells as int,
                        )
                    } else {
                        None
                    },
                    _ => None,
                }
            },
        }
    }
}

/// The `reg` entry `index` of the last node in `trace`, as the outermost bus has
/// it.
#[verifier::opaque]
pub open spec fn reg_of(data: Seq<u8>, trace: Seq<usize>, index: int) -> Option<(u64, u64)> {
    let cursor = (trace.len() - 1) as nat;
    let parent = parent_at(trace, cursor as int);
    match (
        prop_word_of(data, parent, name_bytes("#address-cells")),
        prop_word_of(data, parent, name_bytes("#size-cells")),
        prop_of(data, trace[cursor as int] as int, name_bytes("reg")),
    ) {
        (Some(addr_cells), Some(size_cells), Some(reg)) => {
            let stride = (addr_cells + size_cells) * 4;
            if !(1 <= addr_cells <= 2) || size_cells > 2 || (index + 1) * stride > reg.len() {
                None
            } else {
                let entry = reg.subrange(index * stride, index * stride + stride);
                let addr = cells_of(entry.take(addr_cells * 4));
                let size = cells_of(entry.skip(addr_cells * 4));
                match translate(
                    data,
                    trace,
                    cursor,
                    addr,
                    size,
                    addr_cells as int,
                    size_cells as int,
                ) {
                    Some(translated) => Some((translated, size)),
                    None => None,
                }
            }
        },
        _ => None,
    }
}

proof fn lemma_after_props(data: Seq<u8>, off: int, n: nat)
    ensures
        after_props(data, off, n) matches Some(e) ==> off <= e && (n > 0 ==> e <= data.len()),
    decreases n,
{
    if n > 0 {
        lemma_after_props(data, off, (n - 1) as nat);
    }
}

/// If the first `n` properties cannot be passed, no more can.
proof fn lemma_after_props_stuck(data: Seq<u8>, off: int, n: nat, m: nat)
    requires
        n <= m,
        after_props(data, off, n) is None,
    ensures
        after_props(data, off, m) is None,
    decreases m,
{
    if n < m {
        lemma_after_props_stuck(data, off, n, (m - 1) as nat);
    }
}

proof fn lemma_nodes_end_stuck(data: Seq<u8>, off: int, n: nat, m: nat)
    requires
        n <= m,
        nodes_end_of(data, off, n) is None,
    ensures
        nodes_end_of(data, off, m) is None,
    decreases m,
{
    if n < m {
        lemma_nodes_end_stuck(data, off, n, (m - 1) as nat);
    }
}

/// A node that has an end lies within the tree, and its end is behind its header.
pub proof fn law_node_is_inside(data: Seq<u8>, node: int)
    ensures
        node_end_of(data, node) matches Some(e) ==> node + 8 <= e <= data.len(),
    decreases data.len() - node, 0nat,
{
    match (counts_at(data, node), props_end_of(data, node)) {
        (Some((props, children)), Some(off)) => {
            lemma_after_props(data, node + 8, props as nat);
            if off >= node + 8 && node >= 0 {
                lemma_nodes_end(data, off, children as nat);
            }
        },
        _ => {},
    }
}

proof fn lemma_nodes_end(data: Seq<u8>, off: int, n: nat)
    ensures
        nodes_end_of(data, off, n) matches Some(e) ==> off <= e && (off <= data.len() ==> e
            <= data.len()),
    decreases data.len() - off, n + 1,
{
    if n > 0 {
        lemma_nodes_end(data, off, (n - 1) as nat);
        match nodes_end_of(data, off, (n - 1) as nat) {
            Some(o) => if off <= o <= data.len() {
                law_node_is_inside(data, o);
            },
            None => {},
        }
    }
}

impl NodePath {
    pub closed spec fn wf(&self) -> bool {
        1 <= self.depth <= MAX_DEPTH
    }

    /// The nodes on the path, outermost first.
    pub closed spec fn nodes(&self) -> Seq<usize> {
        self.trace@.take(self.depth as int)
    }

    /// The node that the path leads to.
    pub fn offset(&self) -> (node: usize)
        requires
            self.wf(),
        ensures
            node == self.nodes().last(),
    {
        self.trace[self.depth - 1]
    }
}

impl<'a> Adt<'a> {
    pub closed spec fn data(&self) -> Seq<u8> {
        self.data@
    }

    /// Takes the tree that starts at address `base` and is made up of `data`, if it
    /// can be one: its address is a multiple of four, and the root has a plausible
    /// number of properties and children.
    pub fn new(base: u64, data: &'a [u8]) -> (adt: Option<Self>)
        ensures
            adt is Some <==> (base != 0 && base % 4 == 0 && data@.len() >= 8 && (counts_at(
                data@,
                0,
            ) matches Some((props, children)) && 1 <= props <= 2048 && 1 <= children <= 2048)),
            adt matches Some(tree) ==> tree.data() == data@,
    {
        if base == 0 || base % 4 != 0 || data.len() < 8 {
            return None;
        }
        let adt: Adt<'a> = Adt { data };
        match adt.counts(0) {
            None => None,
            Some((props, children)) => if props == 0 || props > 2048 || children == 0 || children
                > 2048 {
                None
            } else {
                Some(adt)
            },
        }
    }

    /// The `n` bytes at `off`.
    fn window(&self, off: usize, n: usize) -> (bytes: Option<&'a [u8]>)
        ensures
            match bytes {
                Some(b) => off + n <= self.data().len() && b@ == self.data().subrange(
                    off as int,
                    off + n,
                ),
                None => off + n > self.data().len(),
            },
    {
        if off > self.data.len() || n > self.data.len() - off {
            return None;
        }
        Some(slice_subrange(self.data, off, off + n))
    }

    fn u32_at(&self, off: usize) -> (word: Option<u32>)
        ensures
            word == word_at(self.data(), off as int),
    {
        match self.window(off, 4) {
            Some(bytes) => {
                assert(bytes@.subrange(0, 4) =~= bytes@);
                Some(le32(bytes, 0))
            },
            None => None,
        }
    }

    fn counts(&self, node: usize) -> (counts: Option<(u32, u32)>)
        ensures
            counts == counts_at(self.data(), node as int),
    {
        match self.u32_at(node) {
            None => None,
            Some(props) => {
                if node > self.data.len() {
                    return None;
                }
                match self.u32_at(node + 4) {
                    None => None,
                    Some(children) => Some((props, children)),
                }
            },
        }
    }

    /// Where the properties of a node end, and its first child starts.
    fn props_end(&self, node: usize) -> (end: Option<usize>)
        ensures
            match end {
                Some(e) => props_end_of(self.data(), node as int) == Some(e as int),
                None => props_end_of(self.data(), node as int) is None,
            },
    {
        let props: u32 = match self.counts(node) {
            None => {
                return None;
            },
            Some((props, _)) => props,
        };
        assert(self.data@.len() == self.data.len());
        let mut off: usize = node + 8;
        let mut i: u32 = 0;
        while i < props
            invariant
                i <= props,
                counts_at(self.data(), node as int) matches Some((p, _)) && p == props,
                after_props(self.data(), node + 8, i as nat) == Some(off as int),
            decreases props - i,
        {
            match self.next_prop(off) {
                None => {
                    proof {
                        lemma_after_props_stuck(
                            self.data(),
                            node + 8,
                            (i + 1) as nat,
                            props as nat,
                        );
                    }
                    return None;
                },
                Some(next) => {
                    off = next;
                },
            }
            i += 1;
        }
        Some(off)
    }

    fn next_prop(&self, prop: usize) -> (end: Option<usize>)
        ensures
            match end {
                Some(e) => after_prop(self.data(), prop as int) == Some(e as int),
                None => after_prop(self.data(), prop as int) is None,
            },
    {
        let len: usize = self.data.len();
        if prop > len || len - prop < 36 {
            return None;
        }
        let word: u32 = match self.u32_at(prop + 32) {
            None => {
                return None;
            },
            Some(word) => word,
        };
        let size: u32 = word % 0x8000_0000;
        let padded: u64 = (size as u64 + 3) / 4 * 4;
        let room: u64 = (len - prop - 36) as u64;
        if padded > room {
            return None;
        }
        Some(prop + 36 + padded as usize)
    }

    /// Where a node ends, with all its descendants.
    fn node_end(&self, node: usize) -> (end: Option<usize>)
        ensures
            match end {
                Some(e) => node_end_of(self.data(), node as int) == Some(e as int),
                None => node_end_of(self.data(), node as int) is None,
            },
        decreases self.data().len() - node,
    {
        let children: u32 = match self.counts(node) {
            None => {
                return None;
            },
            Some((props, children)) => {
                proof {
                    lemma_after_props(self.data(), node + 8, props as nat);
                }
                children
            },
        };
        let first: usize = match self.props_end(node) {
            None => {
                return None;
            },
            Some(first) => first,
        };
        let mut off: usize = first;
        let mut i: u32 = 0;
        while i < children
            invariant
                i <= children,
                first >= node + 8,
                off >= first,
                nodes_end_of(self.data(), first as int, i as nat) == Some(off as int),
                node_end_of(self.data(), node as int) == nodes_end_of(
                    self.data(),
                    first as int,
                    children as nat,
                ),
            decreases children - i,
        {
            proof {
                law_node_is_inside(self.data(), off as int);
            }
            if off > self.data.len() {
                proof {
                    lemma_nodes_end_stuck(
                        self.data(),
                        first as int,
                        (i + 1) as nat,
                        children as nat,
                    );
                }
                return None;
            }
            match self.node_end(off) {
                None => {
                    proof {
                        lemma_nodes_end_stuck(
                            self.data(),
                            first as int,
                            (i + 1) as nat,
                            children as nat,
                        );
                    }
                    return None;
                },
                Some(next) => {
                    off = next;
                },
            }
            i += 1;
        }
        Some(off)
    }

    /// The bytes of a property.
    pub fn prop(&self, node: usize, name: &str) -> (value: Option<&'a [u8]>)
        ensures
            match value {
                Some(v) => prop_of(self.data(), node as int, name_bytes(name)) == Some(v@),
                None => prop_of(self.data(), node as int, name_bytes(name)) is None,
            },
    {
        proof {
            reveal(prop_of);
        }
        let props: u32 = match self.counts(node) {
            None => {
                return None;
            },
            Some((props, _)) => props,
        };
        assert(self.data@.len() == self.data.len());
        let mut off: usize = node + 8;
        let mut left: u32 = props;
        while left > 0
            invariant
                find_prop(self.data(), off as int, left as nat, name_bytes(name)) == prop_of(
                    self.data(),
                    node as int,
                    name_bytes(name),
                ),
            decreases left,
        {
            proof {
                reveal(prop_of);
            }
            let raw: &'a [u8] = match self.window(off, 32) {
                None => {
                    return None;
                },
                Some(raw) => raw,
            };
            let found: &'a [u8] = cut_at_nul(raw);
            if utf8(found).is_none() {
                return None;
            }
            if same_bytes(found, name.as_bytes()) {
                assert(self.data@.len() == self.data.len());
                return match self.u32_at(off + 32) {
                    None => None,
                    Some(word) => {
                        let size: u32 = word % 0x8000_0000;
                        let room: u64 = (self.data.len() - off - 36) as u64;
                        if size as u64 > room {
                            None
                        } else {
                            self.window(off + 36, size as usize)
                        }
                    },
                };
            }
            match self.next_prop(off) {
                None => {
                    return None;
                },
                Some(next) => {
                    off = next;
                },
            }
            left -= 1;
        }
        None
    }

    /// The number in the first four bytes of a property.
    pub fn prop_u32(&self, node: usize, name: &str) -> (word: Option<u32>)
        ensures
            word == prop_word_of(self.data(), node as int, name_bytes(name)),
    {
        proof {
            reveal(prop_word_of);
        }
        match self.prop(node, name) {
            None => None,
            Some(v) => if v.len() < 4 {
                None
            } else {
                Some(le32(v, 0))
            },
        }
    }

    /// Whether the node's `compatible` list contains `compat`.
    pub fn is_compatible(&self, node: usize, compat: &str) -> (yes: bool)
        ensures
            yes == compatible(self.data(), node as int, name_bytes(compat)),
    {
        proof {
            reveal(compatible);
        }
        match self.prop(node, "compatible") {
            None => false,
            Some(v) => has_item(v, compat.as_bytes()),
        }
    }

    /// The name of a node.
    fn node_name(&self, node: usize) -> (name: Option<&'a [u8]>)
        ensures
            match name {
                Some(v) => node_name_of(self.data(), node as int) == Some(v@),
                None => node_name_of(self.data(), node as int) is None,
            },
    {
        match self.prop(node, "name") {
            None => None,
            Some(v) => {
                let name: &'a [u8] = cut_at_nul(v);
                if utf8(name).is_some() {
                    Some(name)
                } else {
                    None
                }
            },
        }
    }

    /// Whether a node called `actual` is meant by `wanted`.
    fn name_matches(actual: &[u8], wanted: &[u8]) -> (yes: bool)
        ensures
            yes == is_called(actual@, wanted@),
    {
        if same_bytes(actual, wanted) {
            return true;
        }
        let yes: bool = actual.len() > wanted.len() && actual[wanted.len()] == 64 && has_prefix(
            actual,
            wanted,
        );
        proof {
            let long = wanted@.push(64);
            if yes {
                assert(actual@.take(long.len() as int) =~= long) by {
                    assert forall|k: int| 0 <= k < wanted@.len() implies actual@[k] == wanted@[k]
                        by {
                        assert(actual@.take(wanted@.len() as int)[k] == actual@[k]);
                    }
                }
            } else if starts_with(actual@, long) {
                assert(actual@.take(long.len() as int)[wanted@.len() as int] == 64);
                assert(actual@.take(wanted@.len() as int) =~= wanted@) by {
                    assert forall|k: int| 0 <= k < wanted@.len() implies actual@[k] == wanted@[k]
                        by {
                        assert(actual@.take(long.len() as int)[k] == long[k]);
                    }
                }
            }
        }
        yes
    }

    /// The child of a node by its name.
    fn child_by_name(&self, node: usize, name: &[u8]) -> (child: Option<usize>)
        ensures
            match child {
                Some(c) => child_of(self.data(), node as int, name@) == Some(c as int),
                None => child_of(self.data(), node as int, name@) is None,
            },
    {
        let children: u32 = match self.counts(node) {
            None => {
                return None;
            },
            Some((_, children)) => children,
        };
        let mut off: usize = match self.props_end(node) {
            None => {
                return None;
            },
            Some(off) => off,
        };
        let mut left: u32 = children;
        while left > 0
            invariant
                find_child(self.data(), off as int, left as nat, name@) == child_of(
                    self.data(),
                    node as int,
                    name@,
                ),
            decreases left,
        {
            match self.node_name(off) {
                None => {
                    return None;
                },
                Some(actual) => {
                    if Self::name_matches(actual, name) {
                        return Some(off);
                    }
                },
            }
            match self.node_end(off) {
                None => {
                    return None;
                },
                Some(next) => {
                    off = next;
                },
            }
            left -= 1;
        }
        None
    }
}

/// Whether `item` is one of the NUL-separated strings in `list`.
fn has_item(list: &[u8], item: &[u8]) -> (yes: bool)
    ensures
        yes == lists(list@, item@),
{
    let mut i: usize = 0;
    loop
        invariant
            i <= list.len(),
            list@.len() == list.len(),
            i == 0 || list@[i - 1] == 0,
            forall|p: int, q: int|
                0 <= p < i && p <= q <= list@.len() && (p == 0 || list@[p - 1] == 0) && (q
                    == list@.len() || list@[q] == 0) && (forall|k: int| p <= k < q ==> list@[k] != 0)
                    ==> #[trigger] list@.subrange(p, q) != item@,
        decreases list.len() - i,
    {
        let mut j: usize = i;
        while j < list.len() && list[j] != 0
            invariant
                i <= j <= list.len(),
                list@.len() == list.len(),
                forall|k: int| i <= k < j ==> list@[k] != 0,
            decreases list.len() - j,
        {
            j += 1;
        }
        if same_bytes(slice_subrange(list, i, j), item) {
            return true;
        }
        proof {
            assert forall|p: int, q: int|
                i <= p <= j && p <= q <= list@.len() && (p == 0 || list@[p - 1] == 0) && (q
                    == list@.len() || list@[q] == 0) && (forall|k: int| p <= k < q ==> list@[k]
                    != 0) implies #[trigger] list@.subrange(p, q) != item@ by {
                if p > i {
                    assert(list@[p - 1] != 0);
                }
                if q < j {
                    assert(list@[q] != 0);
                }
                if q > j {
                    assert(list@[j as int] != 0);
                }
            }
        }
        if j == list.len() {
            return false;
        }
        i = j + 1;
    }
}

pub proof fn lemma_split_run(path: Seq<u8>, i: int, j: int)
    requires
        0 <= i <= j <= path.len(),
        forall|k: int| i <= k < j ==> path[k] != 47,
    ensures
        split_path(path.take(j)).0 == split_path(path.take(i)).0,
        split_path(path.take(j)).1 == split_path(path.take(i)).1 + path.subrange(i, j),
    decreases j - i,
{
    if i < j {
        lemma_split_run(path, i, j - 1);
        assert(path.take(j).drop_last() =~= path.take(j - 1));
        assert(path.take(j).last() == path[j - 1]);
        assert(split_path(path.take(j)).1 =~= split_path(path.take(i)).1 + path.subrange(i, j));
    } else {
        assert(path.subrange(i, j) =~= Seq::<u8>::empty());
        assert(split_path(path.take(i)).1 + Seq::<u8>::empty() =~= split_path(path.take(i)).1);
    }
}

/// Once a part of a path leads nowhere, so does the path.
proof fn lemma_resolve_stuck(data: Seq<u8>, parts: Seq<Seq<u8>>, n: int)
    requires
        0 <= n <= parts.len(),
        resolve(data, parts.take(n)) is None,
    ensures
        resolve(data, parts) is None,
    decreases parts.len() - n,
{
    if n == parts.len() {
        assert(parts.take(n) =~= parts);
    } else {
        assert(parts.take(n + 1).drop_last() =~= parts.take(n));
        lemma_resolve_stuck(data, parts, n + 1);
    }
}

/// The parts of a longer path start with the finished parts of a shorter one.
proof fn lemma_components_grow(path: Seq<u8>, i: int)
    requires
        0 <= i <= path.len(),
        i == path.len() || path[i] == 47,
    ensures
        components(path.take(i)).len() <= components(path).len(),
        components(path).take(components(path.take(i)).len() as int) == components(path.take(i)),
    decreases path.len() - i,
{
    if i == path.len() {
        assert(path.take(i) =~= path);
        assert(components(path).take(components(path).len() as int) =~= components(path));
    } else {
        lemma_parts_grow(path, i + 1, path.len() as int);
        assert(path.take(path.len() as int) =~= path);
        assert(path.take(i + 1).drop_last() =~= path.take(i));
        assert(path.take(i + 1).last() == 47);
        let done = components(path.take(i));
        assert(split_path(path.take(i + 1)).0 == done);
        let all = split_path(path).0;
        assert(components(path).take(done.len() as int) =~= all.take(done.len() as int));
    }
}

/// Finished parts stay as more of a path is read.
proof fn lemma_parts_grow(path: Seq<u8>, i: int, j: int)
    requires
        0 <= i <= j <= path.len(),
    ensures
        split_path(path.take(i)).0.len() <= split_path(path.take(j)).0.len(),
        split_path(path.take(j)).0.take(split_path(path.take(i)).0.len() as int) == split_path(
            path.take(i),
        ).0,
    decreases j - i,
{
    let done = split_path(path.take(i)).0;
    if i < j {
        lemma_parts_grow(path, i, j - 1);
        assert(path.take(j).drop_last() =~= path.take(j - 1));
        assert(split_path(path.take(j)).0.take(done.len() as int) =~= split_path(
            path.take(j - 1),
        ).0.take(done.len() as int));
    } else {
        assert(done.take(done.len() as int) =~= done);
    }
}

impl<'a> Adt<'a> {
    /// Follows an absolute path such as `/arm-io/aic`. An empty path leads nowhere,
    /// and neither does one that is too deep.
    pub fn path(&self, path: &str) -> (found: Option<NodePath>)
        ensures
            match found {
                Some(p) => p.wf() && nodes_on(self.data(), name_bytes(path)) == Some(p.nodes()),
                None => nodes_on(self.data(), name_bytes(path)) is None,
            },
    {
        proof {
            reveal(nodes_on);
        }
        let bytes: &[u8] = path.as_bytes();
        let mut trace: [usize; 8] = [0; 8];
        let mut depth: usize = 0;
        let mut node: usize = 0;
        let mut i: usize = 0;
        proof {
            assert(bytes@.take(0) =~= Seq::<u8>::empty());
            assert(trace@.take(0) =~= Seq::<usize>::empty());
        }
        while i < bytes.len()
            invariant
                bytes@ == name_bytes(path),
                bytes@.len() == bytes.len(),
                i <= bytes.len(),
                i == 0 || i == bytes@.len() || bytes@[i as int] == 47 || bytes@[i - 1] == 47,
                split_path(bytes@.take(i as int)).1.len() > 0 ==> i == bytes@.len() || bytes@[i as int]
                    == 47,
                depth <= MAX_DEPTH,
                components(bytes@.take(i as int)).len() == depth,
                resolve(self.data(), components(bytes@.take(i as int))) == Some(
                    trace@.take(depth as int),
                ),
                node == (if depth == 0 {
                    0
                } else {
                    trace@[depth - 1]
                }),
            decreases bytes.len() - i,
        {
            if bytes[i] == 47 {
                proof {
                    assert(bytes@.take(i + 1).drop_last() =~= bytes@.take(i as int));
                    assert(bytes@.take(i + 1).last() == 47);
                    assert(components(bytes@.take(i + 1)) =~= components(bytes@.take(i as int)));
                }
                i += 1;
                continue ;
            }
            let mut j: usize = i;
            while j < bytes.len() && bytes[j] != 47
                invariant
                    i <= j <= bytes.len(),
                    bytes@.len() == bytes.len(),
                    forall|k: int| i <= k < j ==> bytes@[k] != 47,
                decreases bytes.len() - j,
            {
                j += 1;
            }
            let part: &[u8] = slice_subrange(bytes, i, j);
            let ghost before = components(bytes@.take(i as int));
            let ghost now = components(bytes@.take(j as int));
            proof {
                lemma_split_run(bytes@, i as int, j as int);
                assert(split_path(bytes@.take(i as int)).1.len() == 0);
                assert(split_path(bytes@.take(j as int)).1 =~= part@);
                assert(now.drop_last() =~= before);
                assert(now.last() == part@);
                lemma_components_grow(bytes@, j as int);
            }
            let child: Option<usize> = self.child_by_name(node, part);
            let next: usize = match child {
                None => {
                    proof {
                        reveal(nodes_on);
                        assert(resolve(self.data(), now) is None);
                        lemma_resolve_stuck(
                            self.data(),
                            components(bytes@),
                            now.len() as int,
                        );
                    }
                    return None;
                },
                Some(next) => next,
            };
            if depth == MAX_DEPTH {
                proof {
                    reveal(nodes_on);
                    assert(resolve(self.data(), now) is None);
                    lemma_resolve_stuck(self.data(), components(bytes@), now.len() as int);
                }
                return None;
            }
            let ghost trace0 = trace@;
            node = next;
            trace[depth] = node;
            depth += 1;
            proof {
                assert(trace@.take(depth as int) =~= trace0.take(depth - 1).push(node));
                assert(trace0.take(depth - 1).len() == depth - 1);
                if depth > 1 {
                    assert(trace0.take(depth - 1).last() == trace0[depth - 2]);
                }
            }
            i = j;
        }
        assert(bytes@.take(i as int) =~= bytes@);
        if depth == 0 {
            return None;
        }
        Some(NodePath { trace, depth })
    }

    /// The number in the first one or two words of `v`.
    fn cells(v: &[u8]) -> (value: u64)
        ensures
            value == cells_of(v@),
    {
        proof {
            if v@.len() >= 8 {
                assert(v@.subrange(0, 8) =~= v@.take(8));
            } else if v@.len() >= 4 {
                assert(v@.subrange(0, 4) =~= v@.take(4));
            }
        }
        if v.len() >= 8 {
            le64(v, 0)
        } else if v.len() >= 4 {
            le32(v, 0) as u64
        } else {
            0
        }
    }

    /// Takes an address through a `ranges` property.
    fn through(
        ranges: &[u8],
        child_cells: u32,
        parent_cells: u32,
        size_cells: u32,
        addr: u64,
        size: u64,
    ) -> (translated: u64)
        requires
            1 <= child_cells <= 2,
            1 <= parent_cells <= 2,
        ensures
            translated == remap(
                ranges@,
                0,
                (child_cells as int, parent_cells as int, size_cells as int),
                addr,
                size,
            ),
    {
        let ghost cells = (child_cells as int, parent_cells as int, size_cells as int);
        let entry_size: u64 = (child_cells as u64 + parent_cells as u64 + size_cells as u64) * 4;
        let len: u64 = ranges.len() as u64;
        let n: u64 = len / entry_size;
        let mut i: u64 = 0;
        while i < n
            invariant
                i <= n,
                1 <= child_cells <= 2,
                1 <= parent_cells <= 2,
                cells == (child_cells as int, parent_cells as int, size_cells as int),
                entry_size == (child_cells + parent_cells + size_cells) * 4,
                ranges@.len() == ranges.len(),
                len == ranges@.len(),
                n == len / entry_size,
                remap(ranges@, i as nat, cells, addr, size) == remap(ranges@, 0, cells, addr, size),
            decreases n - i,
        {
            proof {
                assert(i * entry_size + entry_size <= len && i * entry_size >= 0)
                    by (nonlinear_arith)
                    requires
                        i + 1 <= n,
                        n == len as int / entry_size as int,
                        entry_size > 0,
                ;
            }
            let start: usize = (i * entry_size) as usize;
            let entry: &[u8] = slice_subrange(ranges, start, start + entry_size as usize);
            let c: usize = child_cells as usize * 4;
            let p: usize = c + parent_cells as usize * 4;
            let child: u64 = Self::cells(slice_subrange(entry, 0, c));
            let parent_base: u64 = Self::cells(slice_subrange(entry, c, p));
            let child_size: u64 = Self::cells(slice_subrange(entry, p, entry.len()));
            proof {
                assert(entry@.subrange(0, c as int) =~= entry@.take(c as int));
                assert(entry@.subrange(p as int, entry@.len() as int) =~= entry@.skip(p as int));
                assert(range_at(ranges@, i as int, cells.0, cells.1, cells.2) == BusRange {
                    child,
                    parent: parent_base,
                    size: child_size,
                });
            }
            if addr >= child && addr.wrapping_add(size) <= child.wrapping_add(child_size) {
                return (addr - child).wrapping_add(parent_base);
            }
            i += 1;
        }
        addr
    }

    /// The `reg` entry `index` of the node that `path` leads to: an address, taken
    /// through the `ranges` of every ancestor, and a size.
    pub fn reg(&self, path: &NodePath, index: usize) -> (reg: Option<(u64, u64)>)
        requires
            path.wf(),
        ensures
            reg == reg_of(self.data(), path.nodes(), index as int),
    {
        proof {
            reveal(reg_of);
        }
        let ghost nodes = path.nodes();
        let mut cursor: usize = path.depth - 1;
        let node: usize = path.trace[cursor];
        let parent: usize = if cursor > 0 {
            path.trace[cursor - 1]
        } else {
            0
        };
        let mut addr_cells: u32 = match self.prop_u32(parent, "#address-cells") {
            None => {
                return None;
            },
            Some(n) => n,
        };
        let mut size_cells: u32 = match self.prop_u32(parent, "#size-cells") {
            None => {
                return None;
            },
            Some(n) => n,
        };
        if addr_cells < 1 || addr_cells > 2 || size_cells > 2 {
            return None;
        }
        let reg: &[u8] = match self.prop(node, "reg") {
            None => {
                return None;
            },
            Some(reg) => reg,
        };
        let stride: usize = (addr_cells as usize + size_cells as usize) * 4;
        let count: usize = reg.len() / stride;
        proof {
            assert((index as int + 1) * stride as int > reg@.len() <==> index >= count)
                by (nonlinear_arith)
                requires
                    count == reg@.len() as int / stride as int,
                    stride > 0,
            ;
        }
        if index >= count {
            return None;
        }
        proof {
            assert(index * stride + stride <= reg@.len() && index * stride >= 0)
                by (nonlinear_arith)
                requires
                    (index as int + 1) * stride as int <= reg@.len(),
            ;
        }
        let start: usize = index * stride;
        let entry: &[u8] = slice_subrange(reg, start, start + stride);
        let split: usize = addr_cells as usize * 4;
        let mut addr: u64 = Self::cells(slice_subrange(entry, 0, split));
        let size: u64 = Self::cells(slice_subrange(entry, split, entry.len()));
        proof {
            assert(entry@.subrange(0, split as int) =~= entry@.take(split as int));
            assert(entry@.subrange(split as int, entry@.len() as int) =~= entry@.skip(
                split as int,
            ));
        }
        let ghost wanted = translate(
            self.data(),
            nodes,
            cursor as nat,
            addr,
            size,
            addr_cells as int,
            size_cells as int,
        );
        while cursor > 0
            invariant
                path.wf(),
                nodes == path.nodes(),
                cursor < path.depth,
                1 <= addr_cells <= 2,
                wanted == translate(
                    self.data(),
                    nodes,
                    cursor as nat,
                    addr,
                    size,
                    addr_cells as int,
                    size_cells as int,
                ),
                reg_of(self.data(), nodes, index as int) == match wanted {
                    Some(translated) => Some((translated, size)),
                    None => None,
                },
            decreases cursor,
        {
            cursor -= 1;
            let bus: usize = path.trace[cursor];
            let up: usize = if cursor > 0 {
                path.trace[cursor - 1]
            } else {
                0
            };
            let ranges: &[u8] = match self.prop(bus, "ranges") {
                None => {
                    return Some((addr, size));
                },
                Some(ranges) => ranges,
            };
            let parent_cells: u32 = match self.prop_u32(up, "#address-cells") {
                None => {
                    return None;
                },
                Some(n) => n,
            };
            if parent_cells < 1 || parent_cells > 2 {
                return None;
            }
            addr = Self::through(ranges, addr_cells, parent_cells, size_cells, addr, size);
            size_cells = match self.prop_u32(up, "#size-cells") {
                None => {
                    return None;
                },
                Some(n) => n,
            };
            addr_cells = parent_cells;
        }
        Some((addr, size))
    }

    /// The `reg` entry `index` of the node at `path`, if both are there.
    pub fn path_reg(&self, path: &str, index: usize) -> (reg: Option<(u64, u64)>)
        ensures
            reg == path_reg_of(self.data(), name_bytes(path), index as int),
    {
        proof {
            reveal(path_reg_of);
        }
        match self.path(path) {
            None => None,
            Some(node) => self.reg(&node, index),
        }
    }
}

/// The nodes on a path; an empty path leads nowhere.
#[verifier::opaque]
pub open spec fn nodes_on(data: Seq<u8>, path: Seq<u8>) -> Option<Seq<usize>> {
    if components(path).len() == 0 {
        None
    } else {
        resolve(data, components(path))
    }
}

/// The `reg` entry `index` of the node at `path`.
#[verifier::opaque]
pub open spec fn path_reg_of(data: Seq<u8>, path: Seq<u8>, index: int) -> Option<(u64, u64)> {
    match nodes_on(data, path) {
        Some(nodes) => reg_of(data, nodes, index),
        None => None,
    }
}

} // verus!
