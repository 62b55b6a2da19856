//! What an Apple device tree says, as opposed to how it is read.
//!
//! A tree is described here as its author would write it down: nodes with properties and
//! children, laid out one after the other. The laws say that reading it gives back what was
//! written.

use vstd::prelude::*;

use crate::boot::adt::{
    after_prop, after_props, cells_of, child_of, components, counts_at, find_child, find_prop,
    is_called, lemma_split_run, lists, name_bytes, node_end_of, node_name_of, nodes_end_of, nodes_on,
    path_reg_of, prop_of, prop_word_of, range_at, reg_of, remap, split_path, translate, value_size,
    BusRange,
};
use crate::bytes::{law_little_endian, le_value};
use crate::text::{lemma_until_nul, until_nul};

verus! {

/// A property.
pub struct Prop {
    pub name: Seq<u8>,
    pub value: Seq<u8>,
}

/// A node.
pub struct Node {
    pub props: Seq<Prop>,
    pub children: Seq<Node>,
}

/// A name that fits the field for it.
pub open spec fn is_name(name: Seq<u8>) -> bool {
    &&& name.len() <= 32
    &&& forall|i: int| 0 <= i < name.len() ==> name[i] != 0
    &&& vstd::utf8::valid_utf8(name)
}

impl Prop {
    /// The bytes that the property takes up: its name, its size, and its value, which is
    /// padded to whole words.
    pub open spec fn size(self) -> nat {
        36 + (self.value.len() + 3) / 4 * 4
    }

    /// The property is written at `off`.
    pub open spec fn is_at(self, data: Seq<u8>, off: int) -> bool {
        &&& is_name(self.name)
        &&& self.value.len() < 0x8000_0000
        &&& 0 <= off
        &&& off + self.size() <= data.len()
        &&& data.subrange(off, off + self.name.len()) == self.name
        &&& self.name.len() < 32 ==> data[off + self.name.len()] == 0
        &&& le_value(data.subrange(off + 32, off + 36)) as int % 0x8000_0000 == self.value.len()
        &&& data.subrange(off + 36, off + 36 + self.value.len()) == self.value
    }
}

/// The bytes that properties take up.
pub open spec fn props_size(props: Seq<Prop>) -> nat
    decreases props.len(),
{
    if props.len() == 0 {
        0
    } else {
        props_size(props.drop_last()) + props.last().size()
    }
}

/// Properties are written one after the other, from `off` on.
pub open spec fn props_are_at(data: Seq<u8>, off: int, props: Seq<Prop>) -> bool {
    forall|i: int| 0 <= i < props.len() ==> props[i].is_at(data, #[trigger] prop_at(off, props, i))
}

/// Where property `i` of those from `off` on is.
pub open spec fn prop_at(off: int, props: Seq<Prop>, i: int) -> int {
    off + props_size(props.take(i))
}

impl Node {
    /// The bytes that the node takes up, with all its descendants.
    pub open spec fn size(self) -> nat
        decreases self,
    {
        8 + props_size(self.props) + nodes_size(self.children)
    }

    /// Where child `i` of the node is, if the node is at `off`.
    pub open spec fn child_at(self, off: int, i: int) -> int {
        off + 8 + props_size(self.props) + nodes_size(self.children.take(i))
    }

    /// The node is written at `off`: the numbers of its properties and of its children, its
    /// properties, and then its children.
    pub open spec fn is_at(self, data: Seq<u8>, off: int) -> bool
        decreases self,
    {
        &&& 0 <= off
        &&& off + 8 <= data.len()
        &&& le_value(data.subrange(off, off + 4)) == self.props.len()
        &&& le_value(data.subrange(off + 4, off + 8)) == self.children.len()
        &&& props_are_at(data, off + 8, self.props)
        &&& forall|i: int|
            0 <= i < self.children.len() ==> self.children[i].is_at(
                data,
                #[trigger] self.child_at(off, i),
            )
    }

    /// Property `i` of the node is the first one called `name`.
    pub open spec fn has_first(self, name: Seq<u8>, i: int) -> bool {
        &&& 0 <= i < self.props.len()
        &&& self.props[i].name == name
        &&& forall|j: int| 0 <= j < i ==> (#[trigger] self.props[j]).name != name
    }

    /// The node is called `name`: it has a property that says so, which ends with a NUL.
    pub open spec fn is_named(self, name: Seq<u8>) -> bool {
        &&& is_name(name)
        &&& exists|i: int|
            #[trigger] self.has_first(name_bytes("name"), i) && self.props[i].value == name.push(0)
    }
}

/// The bytes that nodes take up.
pub open spec fn nodes_size(nodes: Seq<Node>) -> nat
    decreases nodes,
{
    if nodes.len() == 0 {
        0
    } else {
        nodes_size(nodes.drop_last()) + nodes.last().size()
    }
}

/// Where node `i` of those from `off` on is.
pub open spec fn node_at(off: int, nodes: Seq<Node>, i: int) -> int {
    off + nodes_size(nodes.take(i))
}

proof fn lemma_prop_is_read(data: Seq<u8>, off: int, prop: Prop)
    requires
        prop.is_at(data, off),
    ensures
        until_nul(data.subrange(off, off + 32)) == prop.name,
        value_size(data, off) == Some(prop.value.len() as int),
        after_prop(data, off) == Some(off + prop.size()),
{
    let field = data.subrange(off, off + 32);
    let n = prop.name.len() as int;
    assert forall|k: int| 0 <= k < n implies field[k] == prop.name[k] by {
        assert(data.subrange(off, off + n)[k] == prop.name[k]);
    }
    if n < 32 {
        assert(field[n] == 0);
    }
    lemma_until_nul(field, n);
    assert(field.take(n) =~= prop.name);
    law_little_endian(data.subrange(off + 32, off + 36));
}

proof fn lemma_props_are_passed(data: Seq<u8>, off: int, props: Seq<Prop>, n: nat)
    requires
        props_are_at(data, off, props),
        n <= props.len(),
    ensures
        after_props(data, off, n) == Some(off + props_size(props.take(n as int))),
    decreases n,
{
    if n == 0 {
        assert(props.take(0) =~= Seq::<Prop>::empty());
    } else {
        let before = (n - 1) as nat;
        lemma_props_are_passed(data, off, props, before);
        assert(props.take(n as int).drop_last() =~= props.take(before as int));
        assert(props.take(n as int).last() == props[n - 1]);
        lemma_prop_is_read(data, prop_at(off, props, n - 1), props[n - 1]);
    }
}

proof fn lemma_first_is_found(
    data: Seq<u8>,
    off: int,
    props: Seq<Prop>,
    k: int,
    name: Seq<u8>,
    found: Option<int>,
)
    requires
        props_are_at(data, off, props),
        0 <= k <= props.len(),
        match found {
            Some(i) => k <= i < props.len() && props[i].name == name && forall|j: int|
                k <= j < i ==> (#[trigger] props[j]).name != name,
            None => forall|j: int| k <= j < props.len() ==> (#[trigger] props[j]).name != name,
        },
    ensures
        find_prop(data, off + props_size(props.take(k)), (props.len() - k) as nat, name)
            == match found {
            Some(i) => Some(props[i].value),
            None => None,
        },
    decreases props.len() - k,
{
    if k < props.len() {
        lemma_prop_is_read(data, prop_at(off, props, k), props[k]);
        assert(props.take(k + 1).drop_last() =~= props.take(k));
        assert(props.take(k + 1).last() == props[k]);
        if props[k].name != name {
            lemma_first_is_found(data, off, props, k + 1, name, found);
        }
    }
}

proof fn lemma_counts_are_read(data: Seq<u8>, off: int, node: Node)
    requires
        node.is_at(data, off),
    ensures
        counts_at(data, off) == Some((node.props.len() as u32, node.children.len() as u32)),
        node.props.len() <= u32::MAX,
        node.children.len() <= u32::MAX,
{
    law_little_endian(data.subrange(off, off + 4));
    law_little_endian(data.subrange(off + 4, off + 8));
}

/// A property reads as it was written. If there are several of a name, the first one
/// counts, whatever stands around it.
pub proof fn law_property_is_read_back(data: Seq<u8>, off: int, node: Node, name: Seq<u8>, i: int)
    requires
        node.is_at(data, off),
        node.has_first(name, i),
    ensures
        prop_of(data, off, name) == Some(node.props[i].value),
{
    reveal(prop_of);
    lemma_counts_are_read(data, off, node);
    assert(node.props.take(0) =~= Seq::<Prop>::empty());
    lemma_first_is_found(data, off + 8, node.props, 0, name, Some(i));
}

/// A property that was not written is not there.
pub proof fn law_missing_property_is_missed(data: Seq<u8>, off: int, node: Node, name: Seq<u8>)
    requires
        node.is_at(data, off),
        forall|j: int| 0 <= j < node.props.len() ==> (#[trigger] node.props[j]).name != name,
    ensures
        prop_of(data, off, name) is None,
{
    reveal(prop_of);
    lemma_counts_are_read(data, off, node);
    assert(node.props.take(0) =~= Seq::<Prop>::empty());
    lemma_first_is_found(data, off + 8, node.props, 0, name, None);
}

/// A number that was written into a property is read back.
pub proof fn law_number_is_read_back(data: Seq<u8>, off: int, node: Node, name: Seq<u8>, i: int)
    requires
        node.is_at(data, off),
        node.has_first(name, i),
        node.props[i].value.len() >= 4,
    ensures
        prop_word_of(data, off, name) is Some,
        prop_word_of(data, off, name)->0 == le_value(node.props[i].value.take(4)),
{
    reveal(prop_word_of);
    law_property_is_read_back(data, off, node, name, i);
    let v = node.props[i].value;
    assert(v.subrange(0, 4) =~= v.take(4));
    law_little_endian(v.take(4));
}

/// A node ends where the last of its descendants ends.
pub proof fn law_node_is_passed(data: Seq<u8>, off: int, node: Node)
    requires
        node.is_at(data, off),
    ensures
        node_end_of(data, off) == Some(off + node.size()),
    decreases node, 0nat,
{
    lemma_counts_are_read(data, off, node);
    lemma_props_are_passed(data, off + 8, node.props, node.props.len());
    assert(node.props.take(node.props.len() as int) =~= node.props);
    let first = off + 8 + props_size(node.props);
    assert forall|i: int| 0 <= i < node.children.len() implies node.children[i].is_at(
        data,
        #[trigger] node_at(first, node.children, i),
    ) by {
        assert(node.child_at(off, i) == node_at(first, node.children, i));
    }
    lemma_nodes_are_passed(data, first, node.children);
}

proof fn lemma_nodes_are_passed(data: Seq<u8>, off: int, nodes: Seq<Node>)
    requires
        forall|i: int|
            0 <= i < nodes.len() ==> nodes[i].is_at(data, #[trigger] node_at(off, nodes, i)),
    ensures
        nodes_end_of(data, off, nodes.len()) == Some(off + nodes_size(nodes)),
    decreases nodes, 1nat,
{
    if nodes.len() > 0 {
        let before = nodes.drop_last();
        assert forall|i: int| 0 <= i < before.len() implies before[i].is_at(
            data,
            #[trigger] node_at(off, before, i),
        ) by {
            assert(before.take(i) =~= nodes.take(i));
            assert(node_at(off, nodes, i) == node_at(off, before, i));
        }
        lemma_nodes_are_passed(data, off, before);
        assert(nodes.take(nodes.len() - 1) =~= before);
        assert(node_at(off, nodes, nodes.len() - 1) == off + nodes_size(before));
        law_node_is_passed(data, off + nodes_size(before), nodes.last());
    }
}

/// The name of a node is read back.
pub proof fn law_name_is_read_back(data: Seq<u8>, off: int, node: Node, name: Seq<u8>)
    requires
        node.is_at(data, off),
        node.is_named(name),
    ensures
        node_name_of(data, off) == Some(name),
{
    let i = choose|i: int|
        #[trigger] node.has_first(name_bytes("name"), i) && node.props[i].value == name.push(0);
    law_property_is_read_back(data, off, node, name_bytes("name"), i);
    let v = name.push(0);
    lemma_until_nul(v, name.len() as int);
    assert(v.take(name.len() as int) =~= name);
}

/// `wanted` means a node called `actual`: they are the same, or `actual` goes on with an
/// at sign and a unit address.
pub open spec fn means(wanted: Seq<u8>, actual: Seq<u8>) -> bool {
    actual == wanted || exists|unit: Seq<u8>|
        actual == #[trigger] (wanted + seq!['@' as u8] + unit)
}

proof fn lemma_means(wanted: Seq<u8>, actual: Seq<u8>)
    ensures
        is_called(actual, wanted) == means(wanted, actual),
{
    let long = wanted.push(64);
    assert(wanted + seq!['@' as u8] =~= long);
    if is_called(actual, wanted) && actual != wanted {
        let unit = actual.skip(long.len() as int);
        assert(actual =~= wanted + seq!['@' as u8] + unit);
    }
    if means(wanted, actual) && actual != wanted {
        let unit = choose|unit: Seq<u8>| actual == #[trigger] (wanted + seq!['@' as u8] + unit);
        assert(actual.take(long.len() as int) =~= long);
    }
}

proof fn lemma_child_is_found(
    data: Seq<u8>,
    off: int,
    node: Node,
    names: Seq<Seq<u8>>,
    wanted: Seq<u8>,
    k: int,
    i: int,
)
    requires
        node.is_at(data, off),
        0 <= k <= i < node.children.len(),
        names.len() == node.children.len(),
        forall|j: int|
            0 <= j < node.children.len() ==> (#[trigger] node.children[j]).is_named(names[j]),
        means(wanted, names[i]),
        forall|j: int| 0 <= j < i ==> !means(wanted, #[trigger] names[j]),
    ensures
        find_child(data, node.child_at(off, k), (node.children.len() - k) as nat, wanted) == Some(
            node.child_at(off, i),
        ),
    decreases i - k,
{
    let child = node.children[k];
    let here = node.child_at(off, k);
    assert(child.is_at(data, here));
    assert(child.is_named(names[k]));
    law_name_is_read_back(data, here, child, names[k]);
    lemma_means(wanted, names[k]);
    law_node_is_passed(data, here, child);
    assert(node.children.take(k + 1).drop_last() =~= node.children.take(k));
    assert(node.children.take(k + 1).last() == child);
    if k < i {
        lemma_child_is_found(data, off, node, names, wanted, k + 1, i);
    }
}

/// The child that is asked for is found where it was written: the first one that is meant.
pub proof fn law_child_is_found(
    data: Seq<u8>,
    off: int,
    node: Node,
    names: Seq<Seq<u8>>,
    wanted: Seq<u8>,
    i: int,
)
    requires
        node.is_at(data, off),
        0 <= i < node.children.len(),
        names.len() == node.children.len(),
        forall|j: int|
            0 <= j < node.children.len() ==> (#[trigger] node.children[j]).is_named(names[j]),
        means(wanted, names[i]),
        forall|j: int| 0 <= j < i ==> !means(wanted, #[trigger] names[j]),
    ensures
        child_of(data, off, wanted) == Some(node.child_at(off, i)),
{
    lemma_counts_are_read(data, off, node);
    lemma_props_are_passed(data, off + 8, node.props, node.props.len());
    assert(node.props.take(node.props.len() as int) =~= node.props);
    assert(node.children.take(0) =~= Seq::<Node>::empty());
    lemma_child_is_found(data, off, node, names, wanted, 0, i);
}

/// A path: a slash before each of its parts.
pub open spec fn path_text(parts: Seq<Seq<u8>>) -> Seq<u8>
    decreases parts.len(),
{
    if parts.len() == 0 {
        Seq::empty()
    } else {
        path_text(parts.drop_last()) + seq!['/' as u8] + parts.last()
    }
}

/// A path is taken apart into the parts that it was put together from.
pub proof fn law_path_is_taken_apart(parts: Seq<Seq<u8>>)
    requires
        forall|i: int| 0 <= i < parts.len() ==> is_part(#[trigger] parts[i]),
    ensures
        components(path_text(parts)) == parts,
{
    if parts.len() > 0 {
        lemma_path_is_split(parts);
        assert(is_part(parts[parts.len() - 1]));
        assert(parts.drop_last().push(parts.last()) =~= parts);
    } else {
        assert(components(path_text(parts)) =~= parts);
    }
}

/// A part of a path is not empty and has no slash in it.
pub open spec fn is_part(part: Seq<u8>) -> bool {
    part.len() > 0 && forall|i: int| 0 <= i < part.len() ==> part[i] != '/' as u8
}

proof fn lemma_path_is_split(parts: Seq<Seq<u8>>)
    requires
        parts.len() > 0,
        forall|i: int| 0 <= i < parts.len() ==> is_part(#[trigger] parts[i]),
    ensures
        split_path(path_text(parts)) == (parts.drop_last(), parts.last()),
    decreases parts.len(),
{
    let before = parts.drop_last();
    let head = path_text(before);
    let all = path_text(parts);
    let n = (head.len() + 1) as int;
    assert(is_part(parts[parts.len() - 1]));
    if before.len() > 0 {
        assert forall|i: int| 0 <= i < before.len() implies is_part(#[trigger] before[i]) by {
            assert(is_part(parts[i]));
        }
        lemma_path_is_split(before);
        assert(before[before.len() - 1] == parts[before.len() - 1]);
        assert(is_part(parts[before.len() - 1]));
        assert(before.drop_last().push(before.last()) =~= before);
        assert(split_path(head).1.len() > 0);
    } else {
        assert(before =~= Seq::<Seq<u8>>::empty());
        assert(head =~= Seq::<u8>::empty());
        assert(split_path(head) == (Seq::<Seq<u8>>::empty(), Seq::<u8>::empty()));
    }
    assert(all.take(n).drop_last() =~= head);
    assert(all.take(n).last() == 47);
    assert(split_path(all.take(n)).0 =~= before);
    assert(split_path(all.take(n)).1 =~= Seq::<u8>::empty());
    assert forall|k: int| n <= k < all.len() implies all[k] != 47 by {
        assert(all[k] == parts.last()[k - n]);
    }
    lemma_split_run(all, n, all.len() as int);
    assert(all.take(all.len() as int) =~= all);
    assert(all.subrange(n, all.len() as int) =~= parts.last());
    assert(Seq::<u8>::empty() + parts.last() =~= parts.last());
}

/// A path leads one node further down with each of its parts: from the node that the parts
/// before lead to, or from the root, to the child that is meant.
pub proof fn law_path_goes_down(
    data: Seq<u8>,
    parts: Seq<Seq<u8>>,
    part: Seq<u8>,
    above: Seq<usize>,
    node: Node,
    names: Seq<Seq<u8>>,
    i: int,
)
    requires
        forall|k: int| 0 <= k < parts.len() ==> is_part(#[trigger] parts[k]),
        is_part(part),
        parts.len() == 0 ==> above.len() == 0,
        parts.len() > 0 ==> nodes_on(data, path_text(parts)) == Some(above) && above.len() > 0,
        above.len() < 8,
        ({
            let off = if above.len() == 0 {
                0
            } else {
                above.last() as int
            };
            &&& node.is_at(data, off)
            &&& node.child_at(off, i) <= usize::MAX
        }),
        0 <= i < node.children.len(),
        names.len() == node.children.len(),
        forall|j: int|
            0 <= j < node.children.len() ==> (#[trigger] node.children[j]).is_named(names[j]),
        means(part, names[i]),
        forall|j: int| 0 <= j < i ==> !means(part, #[trigger] names[j]),
    ensures
        ({
            let off = if above.len() == 0 {
                0
            } else {
                above.last() as int
            };
            nodes_on(data, path_text(parts.push(part))) == Some(
                above.push(node.child_at(off, i) as usize),
            )
        }),
{
    reveal(nodes_on);
    let longer = parts.push(part);
    assert forall|k: int| 0 <= k < longer.len() implies is_part(#[trigger] longer[k]) by {
        if k < parts.len() {
            assert(is_part(parts[k]));
        }
    }
    law_path_is_taken_apart(parts);
    law_path_is_taken_apart(longer);
    assert(longer.drop_last() =~= parts);
    let off = if above.len() == 0 {
        0
    } else {
        above.last() as int
    };
    if parts.len() == 0 {
        assert(above =~= Seq::<usize>::empty());
    }
    law_child_is_found(data, off, node, names, part, i);
}

proof fn lemma_cells_are_read(v: Seq<u8>)
    requires
        v.len() == 0 || v.len() == 4 || v.len() == 8,
    ensures
        cells_of(v) == le_value(v),
{
    law_little_endian(v);
    if v.len() == 8 {
        assert(v.take(8) =~= v);
    } else if v.len() == 4 {
        assert(v.take(4) =~= v);
    }
}

/// An entry of a `ranges` property gives the start on the child bus, the start on the parent
/// bus and the size, in this order, each in as many words as its bus has it.
pub proof fn law_range_is_read_back(
    ranges: Seq<u8>,
    i: int,
    child: Seq<u8>,
    parent: Seq<u8>,
    size: Seq<u8>,
)
    requires
        child.len() == 4 || child.len() == 8,
        parent.len() == 4 || parent.len() == 8,
        size.len() == 0 || size.len() == 4 || size.len() == 8,
        ({
            let n = (child.len() + parent.len() + size.len()) as int;
            &&& 0 <= i * n
            &&& i * n + n <= ranges.len()
            &&& ranges.subrange(i * n, i * n + n) == child + parent + size
        }),
    ensures
        ({
            let range = range_at(
                ranges,
                i,
                child.len() as int / 4,
                parent.len() as int / 4,
                size.len() as int / 4,
            );
            &&& range.child == le_value(child)
            &&& range.parent == le_value(parent)
            &&& range.size == le_value(size)
        }),
{
    let c = child.len() as int;
    let p = parent.len() as int;
    let z = size.len() as int;
    let entry = child + parent + size;
    assert((c / 4 + p / 4 + z / 4) * 4 == c + p + z);
    assert(entry.take(c) =~= child);
    assert(entry.subrange(c, c + p) =~= parent);
    assert(entry.skip(c + p) =~= size);
    lemma_cells_are_read(child);
    lemma_cells_are_read(parent);
    lemma_cells_are_read(size);
}

/// All of `[addr, addr + size)` is within a range on the child bus.
pub open spec fn lies_in(range: BusRange, addr: u64, size: u64) -> bool {
    range.child <= addr && addr + size <= range.child + range.size
}

/// A range whose addresses exist, on both buses.
pub open spec fn is_proper(range: BusRange) -> bool {
    range.child + range.size <= u64::MAX && range.parent + range.size <= u64::MAX
}

/// The number of entries of a `ranges` property.
pub open spec fn range_count(ranges: Seq<u8>, cells: (int, int, int)) -> nat {
    ranges.len() / ((cells.0 + cells.1 + cells.2) * 4) as nat
}

proof fn lemma_first_range_decides(
    ranges: Seq<u8>,
    cells: (int, int, int),
    k: nat,
    i: nat,
    addr: u64,
    size: u64,
)
    requires
        k <= i < range_count(ranges, cells),
        addr + size <= u64::MAX,
        forall|j: int|
            0 <= j <= i ==> is_proper(#[trigger] range_at(ranges, j, cells.0, cells.1, cells.2)),
        forall|j: int|
            0 <= j < i ==> !lies_in(
                #[trigger] range_at(ranges, j, cells.0, cells.1, cells.2),
                addr,
                size,
            ),
        lies_in(range_at(ranges, i as int, cells.0, cells.1, cells.2), addr, size),
    ensures
        ({
            let range = range_at(ranges, i as int, cells.0, cells.1, cells.2);
            remap(ranges, k, cells, addr, size) == range.parent + (addr - range.child)
        }),
    decreases i - k,
{
    let here = range_at(ranges, k as int, cells.0, cells.1, cells.2);
    assert(is_proper(here));
    if k < i {
        assert(!lies_in(here, addr, size));
        lemma_first_range_decides(ranges, cells, (k + 1) as nat, i, addr, size);
    }
}

proof fn lemma_no_range_decides(
    ranges: Seq<u8>,
    cells: (int, int, int),
    k: nat,
    addr: u64,
    size: u64,
)
    requires
        k <= range_count(ranges, cells),
        addr + size <= u64::MAX,
        forall|j: int|
            0 <= j < range_count(ranges, cells) ==> is_proper(
                #[trigger] range_at(ranges, j, cells.0, cells.1, cells.2),
            ) && !lies_in(range_at(ranges, j, cells.0, cells.1, cells.2), addr, size),
    ensures
        remap(ranges, k, cells, addr, size) == addr,
    decreases range_count(ranges, cells) - k,
{
    if k < range_count(ranges, cells) {
        let here = range_at(ranges, k as int, cells.0, cells.1, cells.2);
        assert(is_proper(here));
        lemma_no_range_decides(ranges, cells, (k + 1) as nat, addr, size);
    }
}

/// A region that lies in a range moves with it: on the parent bus it lies in the range's
/// window, as far from the start of the window as it was from the start of the range.
pub proof fn law_region_moves_with_its_range(
    ranges: Seq<u8>,
    cells: (int, int, int),
    i: nat,
    addr: u64,
    size: u64,
)
    requires
        i < range_count(ranges, cells),
        addr + size <= u64::MAX,
        forall|j: int|
            0 <= j <= i ==> is_proper(#[trigger] range_at(ranges, j, cells.0, cells.1, cells.2)),
        forall|j: int|
            0 <= j < i ==> !lies_in(
                #[trigger] range_at(ranges, j, cells.0, cells.1, cells.2),
                addr,
                size,
            ),
        lies_in(range_at(ranges, i as int, cells.0, cells.1, cells.2), addr, size),
    ensures
        ({
            let range = range_at(ranges, i as int, cells.0, cells.1, cells.2);
            let moved = remap(ranges, 0, cells, addr, size);
            &&& moved - range.parent == addr - range.child
            &&& range.parent <= moved
            &&& moved + size <= range.parent + range.size
            &&& addr == range.child ==> moved == range.parent
        }),
{
    lemma_first_range_decides(ranges, cells, 0, i, addr, size);
}

/// A region that lies in no range stays where it is.
pub proof fn law_region_outside_stays(
    ranges: Seq<u8>,
    cells: (int, int, int),
    addr: u64,
    size: u64,
)
    requires
        addr + size <= u64::MAX,
        forall|j: int|
            0 <= j < range_count(ranges, cells) ==> is_proper(
                #[trigger] range_at(ranges, j, cells.0, cells.1, cells.2),
            ) && !lies_in(range_at(ranges, j, cells.0, cells.1, cells.2), addr, size),
    ensures
        remap(ranges, 0, cells, addr, size) == addr,
{
    lemma_no_range_decides(ranges, cells, 0, addr, size);
}

/// The node at `node` gives addresses in as many words as `addr`, and sizes in as many as
/// `size`.
pub open spec fn counts_cells(data: Seq<u8>, node: int, addr: nat, size: nat) -> bool {
    &&& prop_word_of(data, node, name_bytes("#address-cells")) is Some
    &&& prop_word_of(data, node, name_bytes("#address-cells"))->0 == addr
    &&& prop_word_of(data, node, name_bytes("#size-cells")) is Some
    &&& prop_word_of(data, node, name_bytes("#size-cells"))->0 == size
    &&& 1 <= addr <= 2
    &&& size <= 2
}

/// Entry `index` of the `reg` property of the node at `node` is `addr` and then `size`.
pub open spec fn has_region(
    data: Seq<u8>,
    node: int,
    index: int,
    addr: Seq<u8>,
    size: Seq<u8>,
) -> bool {
    let n = (addr.len() + size.len()) as int;
    &&& prop_of(data, node, name_bytes("reg")) matches Some(reg)
    &&& 0 <= index * n
    &&& index * n + n <= reg.len()
    &&& reg.subrange(index * n, index * n + n) == addr + size
}

/// The registers of a device below the root are where its node says. The cells are those
/// that the root counts in.
pub proof fn law_region_of_a_device(
    data: Seq<u8>,
    dev: usize,
    index: int,
    addr: Seq<u8>,
    size: Seq<u8>,
)
    requires
        index >= 0,
        addr.len() % 4 == 0,
        size.len() % 4 == 0,
        counts_cells(data, 0, addr.len() / 4, size.len() / 4),
        has_region(data, dev as int, index, addr, size),
    ensures
        reg_of(data, seq![dev], index) == Some((le_value(addr) as u64, le_value(size) as u64)),
        le_value(addr) <= u64::MAX,
        le_value(size) <= u64::MAX,
{
    reveal(reg_of);
    let trace = seq![dev];
    let reg = prop_of(data, dev as int, name_bytes("reg"))->0;
    let n = (addr.len() + size.len()) as int;
    let entry = reg.subrange(index * n, index * n + n);
    lemma_region_is_read(reg, index, addr, size);
}

proof fn lemma_region_is_read(reg: Seq<u8>, index: int, addr: Seq<u8>, size: Seq<u8>)
    requires
        index >= 0,
        addr.len() == 4 || addr.len() == 8,
        size.len() == 0 || size.len() == 4 || size.len() == 8,
        ({
            let n = (addr.len() + size.len()) as int;
            &&& 0 <= index * n
            &&& index * n + n <= reg.len()
            &&& reg.subrange(index * n, index * n + n) == addr + size
        }),
    ensures
        ({
            let n = (addr.len() + size.len()) as int;
            let entry = reg.subrange(index * n, index * n + n);
            &&& (addr.len() / 4 + size.len() / 4) * 4 == n
            &&& (index + 1) * n <= reg.len()
            &&& cells_of(entry.take((addr.len() / 4) * 4 as int)) == le_value(addr)
            &&& cells_of(entry.skip((addr.len() / 4) * 4 as int)) == le_value(size)
            &&& le_value(addr) <= u64::MAX
            &&& le_value(size) <= u64::MAX
        }),
{
    let n = (addr.len() + size.len()) as int;
    let entry = reg.subrange(index * n, index * n + n);
    let c = addr.len() as int;
    assert(entry.take(c) =~= addr);
    assert(entry.skip(c) =~= size);
    lemma_cells_are_read(addr);
    lemma_cells_are_read(size);
    assert((index + 1) * n == index * n + n) by (nonlinear_arith);
}

/// The registers of a device behind a bus below the root are in the window of the range
/// that holds them: at the same distance from its start on the root's bus as from its start
/// on the device's bus.
pub proof fn law_region_behind_a_bus(
    data: Seq<u8>,
    bus: usize,
    dev: usize,
    index: int,
    addr: Seq<u8>,
    size: Seq<u8>,
    root_cells: (nat, nat),
    i: nat,
)
    requires
        index >= 0,
        addr.len() % 4 == 0,
        size.len() % 4 == 0,
        counts_cells(data, bus as int, addr.len() / 4, size.len() / 4),
        counts_cells(data, 0, root_cells.0, root_cells.1),
        has_region(data, dev as int, index, addr, size),
        le_value(addr) + le_value(size) <= u64::MAX,
        prop_of(data, bus as int, name_bytes("ranges")) matches Some(ranges) && {
            let cells = (addr.len() as int / 4, root_cells.0 as int, size.len() as int / 4);
            &&& i < range_count(ranges, cells)
            &&& forall|j: int|
                0 <= j <= i ==> is_proper(
                    #[trigger] range_at(ranges, j, cells.0, cells.1, cells.2),
                )
            &&& forall|j: int|
                0 <= j < i ==> !lies_in(
                    #[trigger] range_at(ranges, j, cells.0, cells.1, cells.2),
                    le_value(addr) as u64,
                    le_value(size) as u64,
                )
            &&& lies_in(
                range_at(ranges, i as int, cells.0, cells.1, cells.2),
                le_value(addr) as u64,
                le_value(size) as u64,
            )
        },
    ensures
        ({
            let ranges = prop_of(data, bus as int, name_bytes("ranges"))->0;
            let range = range_at(
                ranges,
                i as int,
                addr.len() as int / 4,
                root_cells.0 as int,
                size.len() as int / 4,
            );
            &&& reg_of(data, seq![bus, dev], index) matches Some((moved, length)) && {
                &&& moved - range.parent == le_value(addr) - range.child
                &&& length == le_value(size)
            }
        }),
{
    reveal(reg_of);
    let trace = seq![bus, dev];
    let reg = prop_of(data, dev as int, name_bytes("reg"))->0;
    let ranges = prop_of(data, bus as int, name_bytes("ranges"))->0;
    let a = le_value(addr) as u64;
    let z = le_value(size) as u64;
    let cells = (addr.len() as int / 4, root_cells.0 as int, size.len() as int / 4);
    lemma_region_is_read(reg, index, addr, size);
    law_region_moves_with_its_range(ranges, cells, i, a, z);
    reveal_with_fuel(translate, 2);
    assert(translate(data, trace, 1, a, z, cells.0, cells.2) == Some(
        remap(ranges, 0, cells, a, z),
    ));
}

/// A bus without `ranges` leaves the addresses behind it alone.
pub proof fn law_region_behind_a_plain_bus(
    data: Seq<u8>,
    bus: usize,
    dev: usize,
    index: int,
    addr: Seq<u8>,
    size: Seq<u8>,
)
    requires
        index >= 0,
        addr.len() % 4 == 0,
        size.len() % 4 == 0,
        counts_cells(data, bus as int, addr.len() / 4, size.len() / 4),
        has_region(data, dev as int, index, addr, size),
        prop_of(data, bus as int, name_bytes("ranges")) is None,
    ensures
        reg_of(data, seq![bus, dev], index) == Some((le_value(addr) as u64, le_value(size) as u64)),
        le_value(addr) <= u64::MAX,
        le_value(size) <= u64::MAX,
{
    reveal(reg_of);
    let reg = prop_of(data, dev as int, name_bytes("reg"))->0;
    lemma_region_is_read(reg, index, addr, size);
}

/// A list of texts, each of which but the last ends with a NUL, has those texts in it and no
/// others.
pub proof fn law_list_has_its_items(first: Seq<u8>, rest: Seq<u8>, item: Seq<u8>)
    requires
        forall|k: int| 0 <= k < first.len() ==> first[k] != 0,
    ensures
        lists(first, item) <==> item == first,
        lists(first.push(0) + rest, item) <==> item == first || lists(rest, item),
{
    let n = first.len() as int;
    let all = first.push(0) + rest;
    assert(first.subrange(0, n) =~= first);
    if lists(first, item) {
        let (i, j) = choose|i: int, j: int|
            {
                &&& 0 <= i <= j <= first.len()
                &&& i == 0 || first[i - 1] == 0
                &&& j == first.len() || first[j] == 0
                &&& forall|k: int| i <= k < j ==> first[k] != 0
                &&& #[trigger] first.subrange(i, j) == item
            };
        assert(i == 0 && j == n);
    }
    if item == first {
        assert(all.subrange(0, n) =~= first);
        assert(lists(all, item));
        assert(lists(first, item));
    }
    if lists(rest, item) {
        let (i, j) = choose|i: int, j: int|
            {
                &&& 0 <= i <= j <= rest.len()
                &&& i == 0 || rest[i - 1] == 0
                &&& j == rest.len() || rest[j] == 0
                &&& forall|k: int| i <= k < j ==> rest[k] != 0
                &&& #[trigger] rest.subrange(i, j) == item
            };
        let a = n + 1 + i;
        let b = n + 1 + j;
        assert(all.subrange(a, b) =~= item);
        assert(all[a - 1] == 0);
        assert forall|k: int| a <= k < b implies all[k] != 0 by {
            assert(all[k] == rest[k - n - 1]);
        }
        assert(lists(all, item));
    }
    if lists(all, item) && item != first {
        let (i, j) = choose|i: int, j: int|
            {
                &&& 0 <= i <= j <= all.len()
                &&& i == 0 || all[i - 1] == 0
                &&& j == all.len() || all[j] == 0
                &&& forall|k: int| i <= k < j ==> all[k] != 0
                &&& #[trigger] all.subrange(i, j) == item
            };
        if i <= n {
            assert(i == 0 || first[i - 1] == 0);
            assert(i == 0);
            if j < n {
                assert(all[j] == first[j]);
            }
            if j > n {
                assert(all[n] == 0);
            }
            assert(all.subrange(0, n) =~= first);
            assert(false);
        }
        let a = i - n - 1;
        let b = j - n - 1;
        assert(rest.subrange(a, b) =~= item);
        assert(a == 0 || rest[a - 1] == 0) by {
            if a > 0 {
                assert(all[i - 1] == rest[a - 1]);
            }
        }
        assert(b == rest.len() || rest[b] == 0) by {
            if b < rest.len() {
                assert(all[j] == rest[b]);
            }
        }
        assert forall|k: int| a <= k < b implies rest[k] != 0 by {
            assert(all[k + n + 1] == rest[k]);
        }
        assert(lists(rest, item));
    }
}

/// The region of a node that is named by its path is that of the node to which the path
/// leads; a path that leads nowhere has none.
pub proof fn law_path_has_the_region_of_its_node(data: Seq<u8>, path: Seq<u8>, index: int)
    ensures
        nodes_on(data, path) is None ==> path_reg_of(data, path, index) is None,
        nodes_on(data, path) matches Some(nodes) ==> path_reg_of(data, path, index) == reg_of(
            data,
            nodes,
            index,
        ),
{
    reveal(path_reg_of);
}

} // verus!
