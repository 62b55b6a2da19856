//! Finding the root file system on a block device.
//!
//! A SimpleFS may fill a device from its first sector on, or one of the
//! partitions of a GPT or an MBR partition table.

use vstd::prelude::*;

use crate::bytes::{law_little_endian, le32, le64, le_value};
use crate::error::DeviceResult;
use crate::hw::at;
use crate::scheme::BlockScheme;

verus! {

pub const SFS_MAGIC_V1: u32 = 0x2f8d_be2a;
pub const SFS_MAGIC_V2: u32 = 0x2f8d_be2b;

/// "EFI PART", read as a little-endian number.
pub const GPT_SIGNATURE: u64 = 0x5452_4150_2049_4645;

/// No more native blocks of a GPT entry array than this are looked at.
pub const MAX_ENTRY_BLOCKS: u64 = 32;

/// A read of one sector, and its bytes if it succeeded.
pub struct SectorRead {
    pub block: u64,
    pub data: Option<Seq<u8>>,
}

/// A block device and the record of every sector read from it.
pub struct Disk<B: BlockScheme> {
    dev: B,
    states: Ghost<Seq<B>>,
    log: Ghost<Seq<SectorRead>>,
}

/// A range of sectors.
#[derive(Clone, Copy, Debug, PartialEq, Eq, Structural)]
pub struct Partition {
    pub start: u64,
    pub count: u64,
}

/// Where the root file system is.
#[derive(Clone, Copy, Debug, PartialEq, Eq, Structural)]
pub enum Rootfs {
    /// It fills the device.
    Whole,
    /// It fills a partition.
    Partition(Partition),
}

/// What the root file system is opened on.
#[derive(Clone, Copy, Debug, PartialEq, Eq, Structural)]
pub enum RootDevice {
    /// The initial RAM disk, by its address and size.
    Ram(u64, u64),
    /// The first block device.
    Block(Rootfs),
}

/// The GPT entry array, in sectors.
#[derive(Clone, Copy, Debug, PartialEq, Eq, Structural)]
pub struct GptTable {
    /// The first sector of the array.
    pub first: u64,
    /// The number of sectors that are looked at.
    pub sectors: u64,
    pub entry_size: u64,
    /// Sectors per native block, the unit in which the table counts.
    pub lba_sectors: u64,
}

impl<B: BlockScheme> Disk<B> {
    pub closed spec fn dev(&self) -> B {
        self.dev
    }

    /// The states of the device: before the first read, and after each of them.
    pub closed spec fn states(&self) -> Seq<B> {
        self.states@
    }

    /// The device can be used, and every read on record was made by it.
    pub open spec fn wf(&self) -> bool {
        &&& self.dev().wf()
        &&& self.states().len() == self.log().len() + 1
        &&& self.states().last() == self.dev()
        &&& forall|i: int|
            0 <= i < self.log().len() ==> #[trigger] made_by(
                self.log()[i],
                self.states()[i],
                self.states()[i + 1],
            )
    }

    /// Every read made so far, oldest first.
    pub closed spec fn log(&self) -> Seq<SectorRead> {
        self.log@
    }

    pub fn new(dev: B) -> (disk: Self)
        ensures
            dev.wf() ==> disk.wf(),
            disk.dev() == dev,
            disk.states() == seq![dev],
            disk.log() == Seq::<SectorRead>::empty(),
    {
        let ghost states = seq![dev];
        Disk { dev, states: Ghost(states), log: Ghost(Seq::empty()) }
    }

    /// Gives the device back.
    pub fn into_inner(self) -> (dev: B)
        ensures
            dev == self.dev(),
    {
        self.dev
    }

    /// Reads a sector.
    pub fn read(&mut self, block: u64) -> (got: Option<Vec<u8>>)
        requires
            old(self).wf(),
        ensures
            final(self).wf(),
            got matches Some(bytes) ==> bytes@.len() == 512,
            final(self).log() == old(self).log().push(
                SectorRead { block, data: contents(got) },
            ),
            final(self).states() == old(self).states().push(final(self).dev()),
    {
        let mut sector: Vec<u8> = vec![0u8; 512];
        assert(sector@ =~= cleared());
        let res: DeviceResult<()> = self.dev.read_block(block, sector.as_mut_slice());
        let ghost read = sector@;
        let got: Option<Vec<u8>> = match res {
            Ok(_) => Some(sector),
            Err(_) => None,
        };
        self.log = Ghost(self.log@.push(SectorRead { block, data: contents(got) }));
        self.states = Ghost(self.states@.push(self.dev));
        proof {
            let n = old(self).log().len() as int;
            assert(old(self).dev().reads(&self.dev, block, cleared(), read, res));
            assert forall|i: int| 0 <= i < self.log().len() implies #[trigger] made_by(
                self.log()[i],
                self.states()[i],
                self.states()[i + 1],
            ) by {
                if i < n {
                    assert(made_by(
                        old(self).log()[i],
                        old(self).states()[i],
                        old(self).states()[i + 1],
                    ));
                } else {
                    let before = self.states()[i];
                    let after = self.states()[i + 1];
                    assert(before.reads(&after, self.log()[i].block, cleared(), read, res));
                }
            }
        }
        got
    }
}

/// A buffer for a sector that holds nothing yet.
pub open spec fn cleared() -> Seq<u8> {
    Seq::new(512, |i: int| 0u8)
}

/// Whether `read` is what a device makes of reading a sector into a cleared buffer, in
/// the state `before`, and `after` is the state that this leads to.
pub open spec fn made_by<B: BlockScheme>(read: SectorRead, before: B, after: B) -> bool {
    exists|buf: Seq<u8>, res: DeviceResult<()>|
        {
            &&& #[trigger] before.reads(
                &after,
                read.block,
                cleared(),
                buf,
                res,
            )
            &&& read.data == if res is Ok {
                Some(buf)
            } else {
                None
            }
        }
}

/// The bytes of a sector that was read.
pub open spec fn contents(got: Option<Vec<u8>>) -> Option<Seq<u8>> {
    match got {
        Some(bytes) => Some(bytes@),
        None => None,
    }
}

/// The little-endian number in `sector[from..to]`.
pub open spec fn field(sector: Seq<u8>, from: int, to: int) -> nat {
    le_value(sector.subrange(from, to))
}

/// A product modulo the width of a sector number.
pub open spec fn wrapped_product(a: u64, b: u64) -> u64 {
    ((a * b) % 0x1_0000_0000_0000_0000) as u64
}

/// Whether a sector is a SimpleFS superblock.
pub open spec fn is_superblock(sector: Seq<u8>) -> bool {
    sector.len() >= 4 && (field(sector, 0, 4) == SFS_MAGIC_V1 || field(sector, 0, 4)
        == SFS_MAGIC_V2)
}

/// The entry array that a GPT header describes, if `sector` is such a header.
pub open spec fn gpt_table(sector: Seq<u8>, lba_sectors: u64) -> Option<GptTable> {
    let entries_lba = field(sector, 72, 80);
    let num_entries = field(sector, 80, 84);
    let entry_size = field(sector, 84, 88);
    if field(sector, 0, 8) != GPT_SIGNATURE || entry_size < 128 || num_entries == 0 || entries_lba
        == 0 {
        None
    } else {
        let fit = lba_sectors as nat * 512 / entry_size;
        let per_block = if fit < 1 {
            1nat
        } else {
            fit
        };
        let blocks = (num_entries + per_block - 1) / per_block as int;
        Some(
            GptTable {
                first: wrapped_product(entries_lba as u64, lba_sectors),
                sectors: (lba_sectors * if blocks < MAX_ENTRY_BLOCKS {
                    blocks
                } else {
                    MAX_ENTRY_BLOCKS as int
                }) as u64,
                entry_size: entry_size as u64,
                lba_sectors,
            },
        )
    }
}

/// The partition that the GPT entry at `offset` describes, if the entry is in use
/// and its range is proper. The table names the last native block; the sector
/// range ends with that block.
pub open spec fn gpt_entry(sector: Seq<u8>, offset: int, lba_sectors: u64) -> Option<Partition> {
    let start = wrapped_product(field(sector, offset + 32, offset + 40) as u64, lba_sectors);
    let last = at(
        wrapped_product(field(sector, offset + 40, offset + 48) as u64, lba_sectors),
        (lba_sectors - 1) as u64,
    );
    let unused = forall|i: int| offset <= i < offset + 16 ==> sector[i] == 0;
    if !unused && start > 0 && last >= start {
        Some(Partition { start, count: at((last - start) as u64, 1) })
    } else {
        None
    }
}

/// The partitions among the first `n` entries of a sector of the entry array.
pub open spec fn gpt_partitions(sector: Seq<u8>, table: GptTable, n: nat) -> Seq<Partition>
    decreases n,
{
    if n == 0 {
        Seq::empty()
    } else {
        let before = gpt_partitions(sector, table, (n - 1) as nat);
        match gpt_entry(sector, (n - 1) * table.entry_size, table.lba_sectors) {
            Some(part) => before.push(part),
            None => before,
        }
    }
}

/// The partitions that a sector of the entry array describes.
pub open spec fn sector_partitions(sector: Seq<u8>, table: GptTable) -> Seq<Partition> {
    gpt_partitions(sector, table, (512u64 / table.entry_size) as nat)
}

/// The partition that MBR slot `i` describes, if there is one.
pub open spec fn mbr_slot(sector: Seq<u8>, i: int) -> Option<Partition> {
    let start = field(sector, 446 + i * 16 + 8, 446 + i * 16 + 12) as u64;
    let count = field(sector, 446 + i * 16 + 12, 446 + i * 16 + 16) as u64;
    if start > 0 && count > 0 {
        Some(Partition { start, count })
    } else {
        None
    }
}

/// The partitions in the first `n` slots of an MBR.
pub open spec fn mbr_slots(sector: Seq<u8>, n: nat) -> Seq<Partition>
    decreases n,
{
    if n == 0 {
        Seq::empty()
    } else {
        let before = mbr_slots(sector, (n - 1) as nat);
        match mbr_slot(sector, n - 1) {
            Some(part) => before.push(part),
            None => before,
        }
    }
}

/// The partitions that an MBR describes; a sector without the boot signature
/// describes none.
pub open spec fn mbr_partitions(sector: Seq<u8>) -> Seq<Partition> {
    if sector[510] == 0x55 && sector[511] == 0xaa {
        mbr_slots(sector, 4)
    } else {
        Seq::empty()
    }
}

/// A read that found a superblock.
pub open spec fn hit(read: SectorRead) -> bool {
    read.data matches Some(sector) && is_superblock(sector)
}

/// `reads` looks at the first sector of each partition, and none of them is a
/// superblock.
pub open spec fn all_missed(parts: Seq<Partition>, reads: Seq<SectorRead>) -> bool {
    &&& reads.len() == parts.len()
    &&& forall|i: int|
        0 <= i < parts.len() ==> (#[trigger] reads[i]).block == parts[i].start && !hit(reads[i])
}

/// `reads` looks at the first sectors of partitions, in order, up to the first one
/// that is a superblock.
pub open spec fn probes(
    parts: Seq<Partition>,
    reads: Seq<SectorRead>,
    found: Option<Partition>,
) -> bool {
    match found {
        None => all_missed(parts, reads),
        Some(part) => {
            let k = reads.len() - 1;
            &&& 0 <= k < parts.len()
            &&& all_missed(parts.take(k), reads.take(k))
            &&& reads[k].block == parts[k].start
            &&& hit(reads[k])
            &&& part == parts[k]
        },
    }
}

/// `reads` reads sector `block` of the entry array and probes the partitions that
/// it describes.
pub open spec fn searches_sector(
    table: GptTable,
    block: u64,
    reads: Seq<SectorRead>,
    found: Option<Partition>,
) -> bool {
    &&& reads.len() >= 1
    &&& reads[0].block == block
    &&& match reads[0].data {
        Some(sector) => probes(sector_partitions(sector, table), reads.skip(1), found),
        None => reads.len() == 1 && found is None,
    }
}

/// `reads` searches the first `n` sectors of the entry array in vain.
pub open spec fn array_missed(table: GptTable, n: nat, reads: Seq<SectorRead>) -> bool
    decreases n,
{
    if n == 0 {
        reads.len() == 0
    } else {
        exists|m: int|
            {
                &&& 0 <= m <= reads.len()
                &&& #[trigger] searches_sector(
                    table,
                    at(table.first, (n - 1) as u64),
                    reads.skip(m),
                    None,
                )
                &&& array_missed(table, (n - 1) as nat, reads.take(m))
            }
    }
}

/// `reads` searches the entry array, sector by sector, up to the first partition
/// that holds a file system.
pub open spec fn searches_array(
    table: GptTable,
    reads: Seq<SectorRead>,
    found: Option<Partition>,
) -> bool {
    if found is Some {
        exists|k: nat, m: int|
            {
                &&& k < table.sectors
                &&& 0 <= m <= reads.len()
                &&& #[trigger] array_missed(table, k, reads.take(m))
                &&& searches_sector(table, at(table.first, k as u64), reads.skip(m), found)
            }
    } else {
        array_missed(table, table.sectors as nat, reads)
    }
}

/// `reads` looks for a GPT whose native blocks have `lba_sectors` sectors, and
/// searches it.
pub open spec fn searches_gpt(
    lba_sectors: u64,
    reads: Seq<SectorRead>,
    found: Option<Partition>,
) -> bool {
    &&& reads.len() >= 1
    &&& reads[0].block == lba_sectors
    &&& match reads[0].data {
        Some(sector) => match gpt_table(sector, lba_sectors) {
            Some(table) => searches_array(table, reads.skip(1), found),
            None => reads.len() == 1 && found is None,
        },
        None => reads.len() == 1 && found is None,
    }
}

/// `reads` looks for an MBR and searches it.
pub open spec fn searches_mbr(reads: Seq<SectorRead>, found: Option<Partition>) -> bool {
    &&& reads.len() >= 1
    &&& reads[0].block == 0
    &&& match reads[0].data {
        Some(sector) => probes(mbr_partitions(sector), reads.skip(1), found),
        None => reads.len() == 1 && found is None,
    }
}

/// The parts of the search for the root file system, in order. A part that was
/// not reached is empty.
pub struct Search {
    pub first: SectorRead,
    pub gpt1: Seq<SectorRead>,
    pub found1: Option<Partition>,
    pub gpt8: Seq<SectorRead>,
    pub found8: Option<Partition>,
    pub mbr: Seq<SectorRead>,
    pub found_mbr: Option<Partition>,
}

impl Search {
    pub open spec fn reads(self) -> Seq<SectorRead> {
        seq![self.first] + self.gpt1 + self.gpt8 + self.mbr
    }

    /// The device as a whole comes first, then a GPT with native blocks of one
    /// sector, then one with native blocks of eight sectors, then an MBR. If all
    /// that fails the device as a whole is taken.
    pub open spec fn follows(self, rootfs: Rootfs) -> bool {
        &&& self.first.block == 0
        &&& if hit(self.first) {
            self.gpt1.len() == 0 && self.found1 is None
        } else {
            searches_gpt(1, self.gpt1, self.found1)
        }
        &&& if hit(self.first) || self.found1 is Some {
            self.gpt8.len() == 0 && self.found8 is None
        } else {
            searches_gpt(8, self.gpt8, self.found8)
        }
        &&& if hit(self.first) || self.found1 is Some || self.found8 is Some {
            self.mbr.len() == 0 && self.found_mbr is None
        } else {
            searches_mbr(self.mbr, self.found_mbr)
        }
        &&& rootfs == match (self.found1, self.found8, self.found_mbr) {
            (Some(part), _, _) => Rootfs::Partition(part),
            (None, Some(part), _) => Rootfs::Partition(part),
            (None, None, Some(part)) => Rootfs::Partition(part),
            (None, None, None) => Rootfs::Whole,
        }
    }
}

/// What the search for the root file system leads to.
pub open spec fn searches(reads: Seq<SectorRead>, rootfs: Rootfs) -> bool {
    exists|search: Search| reads == search.reads() && #[trigger] search.follows(rootfs)
}

/// Whether a sector starts with one of the SimpleFS magic numbers.
pub fn is_sfs(sector: &[u8]) -> (yes: bool)
    ensures
        yes == is_superblock(sector@),
{
    if sector.len() >= 4 {
        let magic: u32 = le32(sector, 0);
        magic == SFS_MAGIC_V1 || magic == SFS_MAGIC_V2
    } else {
        false
    }
}

/// Reads the description of the entry array out of a GPT header.
pub fn parse_gpt_header(sector: &[u8], lba_sectors: u64) -> (table: Option<GptTable>)
    requires
        sector@.len() == 512,
        1 <= lba_sectors <= 8,
    ensures
        table == gpt_table(sector@, lba_sectors),
        table matches Some(t) ==> t.entry_size >= 128 && t.lba_sectors == lba_sectors,
{
    let sig: u64 = le64(sector, 0);
    if sig != GPT_SIGNATURE {
        return None;
    }
    let entries_lba: u64 = le64(sector, 72);
    let num_entries: u64 = le32(sector, 80) as u64;
    let entry_size: u64 = le32(sector, 84) as u64;
    if entry_size < 128 || num_entries == 0 || entries_lba == 0 {
        return None;
    }
    let fit: u64 = lba_sectors * 512 / entry_size;
    let per_block: u64 = if fit < 1 {
        1
    } else {
        fit
    };
    proof {
        assert(fit <= 32) by (nonlinear_arith)
            requires
                fit == (lba_sectors * 512) as int / entry_size as int,
                lba_sectors <= 8,
                entry_size >= 128,
        ;
    }
    let blocks: u64 = (num_entries + per_block - 1) / per_block;
    let capped: u64 = if blocks < MAX_ENTRY_BLOCKS {
        blocks
    } else {
        MAX_ENTRY_BLOCKS
    };
    proof {
        assert(capped * lba_sectors <= 256) by (nonlinear_arith)
            requires
                capped <= 32,
                lba_sectors <= 8,
        ;
        assert(capped * lba_sectors == lba_sectors * capped) by (nonlinear_arith);
    }
    Some(
        GptTable {
            first: entries_lba.wrapping_mul(lba_sectors),
            sectors: lba_sectors * capped,
            entry_size,
            lba_sectors,
        },
    )
}

/// Whether a GPT entry's type is the unused one.
fn is_unused(sector: &[u8], offset: usize) -> (yes: bool)
    requires
        offset + 16 <= sector@.len(),
    ensures
        yes == (forall|i: int| offset <= i < offset + 16 ==> sector@[i] == 0),
{
    let mut i: usize = 0;
    while i < 16
        invariant
            i <= 16,
            offset + 16 <= sector.len(),
            forall|j: int| offset <= j < offset + i ==> sector@[j] == 0,
        decreases 16 - i,
    {
        if sector[offset + i] != 0 {
            return false;
        }
        i += 1;
    }
    true
}

/// Reads the partitions out of a sector of the GPT entry array.
pub fn parse_gpt_entries(sector: &[u8], table: GptTable) -> (parts: Vec<Partition>)
    requires
        sector@.len() == 512,
        table.entry_size >= 128,
        1 <= table.lba_sectors <= 8,
    ensures
        parts@ == sector_partitions(sector@, table),
{
    let per_sector: u64 = 512 / table.entry_size;
    let mut parts: Vec<Partition> = Vec::new();
    let mut i: u64 = 0;
    while i < per_sector
        invariant
            i <= per_sector,
            sector@.len() == 512,
            table.entry_size >= 128,
            per_sector == 512u64 / table.entry_size,
            1 <= table.lba_sectors <= 8,
            parts@ == gpt_partitions(sector@, table, i as nat),
        decreases per_sector - i,
    {
        proof {
            assert((i + 1) * table.entry_size <= 512 && (i + 1) * table.entry_size == i
                * table.entry_size + table.entry_size && i * table.entry_size >= 0)
                by (nonlinear_arith)
                requires
                    i + 1 <= per_sector,
                    per_sector == 512int / table.entry_size as int,
                    table.entry_size >= 128,
            ;
        }
        let offset: usize = (i * table.entry_size) as usize;
        if !is_unused(sector, offset) {
            let start: u64 = le64(sector, offset + 32).wrapping_mul(table.lba_sectors);
            let last: u64 = le64(sector, offset + 40).wrapping_mul(
                table.lba_sectors,
            ).wrapping_add(table.lba_sectors - 1);
            if start > 0 && last >= start {
                parts.push(Partition { start, count: (last - start).wrapping_add(1) });
            }
        }
        i += 1;
    }
    parts
}

/// Reads the partitions out of an MBR.
pub fn parse_mbr(sector: &[u8]) -> (parts: Vec<Partition>)
    requires
        sector@.len() == 512,
    ensures
        parts@ == mbr_partitions(sector@),
{
    let mut parts: Vec<Partition> = Vec::new();
    if sector[510] == 0x55 && sector[511] == 0xaa {
        let mut i: usize = 0;
        while i < 4
            invariant
                i <= 4,
                sector@.len() == 512,
                parts@ == mbr_slots(sector@, i as nat),
            decreases 4 - i,
        {
            let offset: usize = 446 + i * 16;
            let start: u64 = le32(sector, offset + 8) as u64;
            let count: u64 = le32(sector, offset + 12) as u64;
            if start > 0 && count > 0 {
                parts.push(Partition { start, count });
            }
            i += 1;
        }
    }
    parts
}

/// The reads that `new` has beyond `old`.
pub open spec fn reads_since(old: Seq<SectorRead>, new: Seq<SectorRead>) -> Seq<SectorRead> {
    new.skip(old.len() as int)
}

/// `new` is `old` with reads added at its end.
pub open spec fn grows(old: Seq<SectorRead>, new: Seq<SectorRead>) -> bool {
    old.len() <= new.len() && new.take(old.len() as int) == old
}

proof fn lemma_reads_chain(a: Seq<SectorRead>, b: Seq<SectorRead>, c: Seq<SectorRead>)
    requires
        grows(a, b),
        grows(b, c),
    ensures
        grows(a, c),
        reads_since(a, c) == reads_since(a, b) + reads_since(b, c),
        reads_since(a, c).take(reads_since(a, b).len() as int) == reads_since(a, b),
        reads_since(a, c).skip(reads_since(a, b).len() as int) == reads_since(b, c),
{
    assert forall|i: int| 0 <= i < b.len() implies c[i] == b[i] by {
        assert(c.take(b.len() as int)[i] == c[i]);
    }
    assert(c.take(a.len() as int) =~= b.take(a.len() as int));
    assert(reads_since(a, c) =~= reads_since(a, b) + reads_since(b, c));
    assert(reads_since(a, c).take(reads_since(a, b).len() as int) =~= reads_since(a, b));
    assert(reads_since(a, c).skip(reads_since(a, b).len() as int) =~= reads_since(b, c));
}

proof fn lemma_reads_one(a: Seq<SectorRead>, x: SectorRead)
    ensures
        grows(a, a),
        reads_since(a, a) == Seq::<SectorRead>::empty(),
        grows(a, a.push(x)),
        reads_since(a, a.push(x)) == seq![x],
{
    assert(a.take(a.len() as int) =~= a);
    assert(reads_since(a, a) =~= Seq::<SectorRead>::empty());
    assert(a.push(x).take(a.len() as int) =~= a);
    assert(reads_since(a, a.push(x)) =~= seq![x]);
}

/// Looks for a superblock at the start of each partition, in order.
pub fn probe<B: BlockScheme>(disk: &mut Disk<B>, parts: &Vec<Partition>) -> (found: Option<
    Partition,
>)
    requires
        old(disk).wf(),
    ensures
        final(disk).wf(),
        grows(old(disk).log(), final(disk).log()),
        probes(parts@, reads_since(old(disk).log(), final(disk).log()), found),
{
    let ghost start = disk.log();
    assert(start.take(start.len() as int) =~= start);
    let mut i: usize = 0;
    while i < parts.len()
        invariant
            start == old(disk).log(),
            disk.wf(),
            i <= parts.len(),
            grows(start, disk.log()),
            all_missed(parts@.take(i as int), reads_since(start, disk.log())),
        decreases parts.len() - i,
    {
        let ghost before = disk.log();
        let part: Partition = parts[i];
        let got: Option<Vec<u8>> = disk.read(part.start);
        let ghost read = SectorRead { block: part.start, data: contents(got) };
        proof {
            lemma_reads_one(before, read);
            lemma_reads_chain(start, before, disk.log());
            let reads = reads_since(start, disk.log());
            assert(reads =~= reads_since(start, before).push(read));
            assert(reads.take(i as int) =~= reads_since(start, before));
            assert(parts@.take(i + 1).take(i as int) =~= parts@.take(i as int));
            assert forall|j: int| 0 <= j < i implies (#[trigger] reads[j]).block
                == parts@[j].start && !hit(reads[j]) by {
                assert(reads_since(start, before)[j] == reads[j]);
                assert(parts@.take(i as int)[j] == parts@[j]);
            }
        }
        if let Some(sector) = got {
            if is_sfs(sector.as_slice()) {
                return Some(part);
            }
        }
        i += 1;
    }
    assert(parts@.take(i as int) =~= parts@);
    None
}

/// Searches a GPT entry array.
pub fn search_gpt_array<B: BlockScheme>(disk: &mut Disk<B>, table: GptTable) -> (found: Option<
    Partition,
>)
    requires
        old(disk).wf(),
        table.entry_size >= 128,
        1 <= table.lba_sectors <= 8,
    ensures
        final(disk).wf(),
        grows(old(disk).log(), final(disk).log()),
        searches_array(table, reads_since(old(disk).log(), final(disk).log()), found),
{
    let ghost start = disk.log();
    assert(start.take(start.len() as int) =~= start);
    let mut k: u64 = 0;
    while k < table.sectors
        invariant
            start == old(disk).log(),
            disk.wf(),
            table.entry_size >= 128,
            1 <= table.lba_sectors <= 8,
            k <= table.sectors,
            grows(start, disk.log()),
            array_missed(table, k as nat, reads_since(start, disk.log())),
        decreases table.sectors - k,
    {
        let ghost before = disk.log();
        let block: u64 = table.first.wrapping_add(k);
        let got: Option<Vec<u8>> = disk.read(block);
        let ghost read = SectorRead { block, data: contents(got) };
        let ghost after_read = disk.log();
        proof {
            lemma_reads_one(before, read);
            lemma_reads_one(after_read, read);
        }
        let found: Option<Partition> = match got {
            Some(sector) => {
                let parts: Vec<Partition> = parse_gpt_entries(sector.as_slice(), table);
                probe(disk, &parts)
            },
            None => None,
        };
        proof {
            lemma_reads_chain(before, after_read, disk.log());
            lemma_reads_chain(start, before, disk.log());
            let reads = reads_since(start, disk.log());
            let m = reads_since(start, before).len() as int;
            let piece = reads.skip(m);
            assert(piece.skip(1) =~= reads_since(after_read, disk.log()));
            assert(piece[0] == read);
            assert(searches_sector(table, at(table.first, k), piece, found));
            if found is None {
                assert((k + 1 - 1) as u64 == k);
                assert(array_missed(table, (k + 1) as nat, reads));
            } else {
                assert(array_missed(table, k as nat, reads.take(m)));
            }
        }
        if found.is_some() {
            return found;
        }
        k += 1;
    }
    None
}

/// Looks for a GPT whose native blocks have `lba_sectors` sectors, and searches
/// it. The header stands in native block 1.
pub fn search_gpt<B: BlockScheme>(disk: &mut Disk<B>, lba_sectors: u64) -> (found: Option<
    Partition,
>)
    requires
        old(disk).wf(),
        1 <= lba_sectors <= 8,
    ensures
        final(disk).wf(),
        grows(old(disk).log(), final(disk).log()),
        searches_gpt(lba_sectors, reads_since(old(disk).log(), final(disk).log()), found),
{
    let ghost start = disk.log();
    let got: Option<Vec<u8>> = disk.read(lba_sectors);
    let ghost read = SectorRead { block: lba_sectors, data: contents(got) };
    let ghost after_read = disk.log();
    proof {
        lemma_reads_one(start, read);
        lemma_reads_one(after_read, read);
    }
    let found: Option<Partition> = match got {
        Some(sector) => match parse_gpt_header(sector.as_slice(), lba_sectors) {
            Some(table) => search_gpt_array(disk, table),
            None => None,
        },
        None => None,
    };
    proof {
        lemma_reads_chain(start, after_read, disk.log());
        let reads = reads_since(start, disk.log());
        assert(reads[0] == read);
        assert(reads.skip(1) =~= reads_since(after_read, disk.log()));
    }
    found
}

/// Looks for an MBR and searches it.
pub fn search_mbr<B: BlockScheme>(disk: &mut Disk<B>) -> (found: Option<Partition>)
    requires
        old(disk).wf(),
    ensures
        final(disk).wf(),
        grows(old(disk).log(), final(disk).log()),
        searches_mbr(reads_since(old(disk).log(), final(disk).log()), found),
{
    let ghost start = disk.log();
    let got: Option<Vec<u8>> = disk.read(0);
    let ghost read = SectorRead { block: 0, data: contents(got) };
    let ghost after_read = disk.log();
    proof {
        lemma_reads_one(start, read);
        lemma_reads_one(after_read, read);
    }
    let found: Option<Partition> = match got {
        Some(sector) => {
            let parts: Vec<Partition> = parse_mbr(sector.as_slice());
            probe(disk, &parts)
        },
        None => None,
    };
    proof {
        lemma_reads_chain(start, after_read, disk.log());
        let reads = reads_since(start, disk.log());
        assert(reads[0] == read);
        assert(reads.skip(1) =~= reads_since(after_read, disk.log()));
    }
    found
}

/// Scans a block device for a SimpleFS: unpartitioned, in a GPT partition, or in
/// an MBR partition. Falls back to the device as a whole.
pub fn find_rootfs_device<B: BlockScheme>(disk: &mut Disk<B>) -> (rootfs: Rootfs)
    requires
        old(disk).wf(),
    ensures
        final(disk).wf(),
        grows(old(disk).log(), final(disk).log()),
        searches(reads_since(old(disk).log(), final(disk).log()), rootfs),
{
    let ghost l0 = disk.log();
    let ghost none = Seq::<SectorRead>::empty();
    let got: Option<Vec<u8>> = disk.read(0);
    let ghost first = SectorRead { block: 0, data: contents(got) };
    let ghost l1 = disk.log();
    let ghost mut search = Search {
        first,
        gpt1: none,
        found1: None,
        gpt8: none,
        found8: None,
        mbr: none,
        found_mbr: None,
    };
    proof {
        lemma_reads_one(l0, first);
        assert(search.reads() =~= reads_since(l0, l1));
    }
    if let Some(sector) = got {
        if is_sfs(sector.as_slice()) {
            assert(search.follows(Rootfs::Whole));
            return Rootfs::Whole;
        }
    }
    let found1: Option<Partition> = search_gpt(disk, 1);
    let ghost l2 = disk.log();
    proof {
        lemma_reads_chain(l0, l1, l2);
        search.gpt1 = reads_since(l1, l2);
        search.found1 = found1;
        assert(search.reads() =~= reads_since(l0, l2));
    }
    if let Some(part) = found1 {
        assert(search.follows(Rootfs::Partition(part)));
        return Rootfs::Partition(part);
    }
    let found8: Option<Partition> = search_gpt(disk, 8);
    let ghost l3 = disk.log();
    proof {
        lemma_reads_chain(l0, l2, l3);
        search.gpt8 = reads_since(l2, l3);
        search.found8 = found8;
        assert(search.reads() =~= reads_since(l0, l3));
    }
    if let Some(part) = found8 {
        assert(search.follows(Rootfs::Partition(part)));
        return Rootfs::Partition(part);
    }
    let found_mbr: Option<Partition> = search_mbr(disk);
    proof {
        lemma_reads_chain(l0, l3, disk.log());
        search.mbr = reads_since(l3, disk.log());
        search.found_mbr = found_mbr;
        assert(search.reads() =~= reads_since(l0, disk.log()));
    }
    match found_mbr {
        Some(part) => {
            assert(search.follows(Rootfs::Partition(part)));
            Rootfs::Partition(part)
        },
        None => {
            assert(search.follows(Rootfs::Whole));
            Rootfs::Whole
        },
    }
}

/// Finds what the root file system is opened on: the initial RAM disk if there is
/// one, and otherwise the first block device, which is searched.
pub fn rootfs<B: BlockScheme>(
    init_ram_disk: Option<(u64, u64)>,
    block: &mut Option<Disk<B>>,
) -> (device: RootDevice)
    requires
        init_ram_disk is None ==> (*old(block) matches Some(disk) && disk.wf()),
    ensures
        match init_ram_disk {
            Some(place) => device == RootDevice::Ram(place.0, place.1) && *final(block) == *old(
                block,
            ),
            None => {
                let before = (*old(block))->0.log();
                let after = (*final(block))->0.log();
                &&& *final(block) is Some && (*final(block))->0.wf()
                &&& grows(before, after)
                &&& device matches RootDevice::Block(rootfs) && searches(
                    reads_since(before, after),
                    rootfs,
                )
            },
        },
{
    match init_ram_disk {
        Some(place) => RootDevice::Ram(place.0, place.1),
        None => match block {
            Some(disk) => RootDevice::Block(find_rootfs_device(disk)),
            None => RootDevice::Block(Rootfs::Whole),
        },
    }
}

/// A file system is only ever found in a partition whose first sector was read
/// last and is a superblock.
pub proof fn law_found_is_superblock(reads: Seq<SectorRead>, part: Partition)
    requires
        searches(reads, Rootfs::Partition(part)),
    ensures
        reads.len() > 0,
        reads.last().block == part.start,
        hit(reads.last()),
{
    let search = choose|search: Search|
        reads == search.reads() && #[trigger] search.follows(Rootfs::Partition(part));
    if search.found1 is Some {
        lemma_gpt_ends_in_hit(1, search.gpt1, part);
        assert(reads.last() == search.gpt1.last());
    } else if search.found8 is Some {
        lemma_gpt_ends_in_hit(8, search.gpt8, part);
        assert(reads.last() == search.gpt8.last());
    } else {
        let probed = search.mbr.skip(1);
        assert(probed.last() == search.mbr.last());
        assert(reads.last() == search.mbr.last());
    }
}

proof fn lemma_gpt_ends_in_hit(lba_sectors: u64, reads: Seq<SectorRead>, part: Partition)
    requires
        searches_gpt(lba_sectors, reads, Some(part)),
    ensures
        reads.len() > 0,
        reads.last().block == part.start,
        hit(reads.last()),
{
    let table = gpt_table(reads[0].data->0, lba_sectors)->0;
    let rest = reads.skip(1);
    let (k, m) = choose|k: nat, m: int|
        {
            &&& k < table.sectors
            &&& 0 <= m <= rest.len()
            &&& #[trigger] array_missed(table, k, rest.take(m))
            &&& searches_sector(table, at(table.first, k as u64), rest.skip(m), Some(part))
        };
    let piece = rest.skip(m);
    assert(piece.skip(1).last() == piece.last());
    assert(piece.last() == rest.last());
    assert(rest.last() == reads.last());
}

/// A device that starts with a superblock is taken as a whole after one read.
pub proof fn law_unpartitioned_first(reads: Seq<SectorRead>, rootfs: Rootfs)
    requires
        searches(reads, rootfs),
        hit(reads[0]),
    ensures
        rootfs == Rootfs::Whole,
        reads.len() == 1,
{
    let search = choose|search: Search|
        reads == search.reads() && #[trigger] search.follows(rootfs);
    assert(reads[0] == search.first);
}

/// A partition that a GPT entry describes is never empty, and its last sector is
/// a sector number.
pub proof fn law_gpt_partition_is_proper(sector: Seq<u8>, offset: int, lba_sectors: u64)
    requires
        gpt_entry(sector, offset, lba_sectors) is Some,
    ensures
        ({
            let part = gpt_entry(sector, offset, lba_sectors)->0;
            part.start > 0 && part.count > 0 && part.start + part.count - 1 <= u64::MAX
        }),
{
}

/// A superblock is told by its first four bytes.
pub proof fn law_superblock_bytes(sector: Seq<u8>)
    ensures
        is_superblock(sector) <==> sector.len() >= 4 && (sector[0] == 0x2a || sector[0] == 0x2b)
            && sector[1] == 0xbe && sector[2] == 0x8d && sector[3] == 0x2f,
{
    if sector.len() >= 4 {
        law_little_endian(sector.subrange(0, 4));
    }
}

/// `sector` is the header of a GPT whose entries start in native block `first`: there are
/// `count` of them, and each has `size` bytes.
pub open spec fn heads_gpt(sector: Seq<u8>, first: nat, count: nat, size: nat) -> bool {
    &&& sector.len() == 512
    &&& sector.take(8) == seq![0x45u8, 0x46, 0x49, 0x20, 0x50, 0x41, 0x52, 0x54]
    &&& first == le_value(sector.subrange(72, 80))
    &&& count == le_value(sector.subrange(80, 84))
    &&& size == le_value(sector.subrange(84, 88))
    &&& first > 0
    &&& count > 0
    &&& size >= 128
}

/// The GPT entry at `offset` of `sector` is in use, and describes the native blocks from
/// `start` to `last`.
pub open spec fn enters(sector: Seq<u8>, offset: int, start: nat, last: nat) -> bool {
    &&& exists|i: int| offset <= i < offset + 16 && #[trigger] sector[i] != 0
    &&& start == le_value(sector.subrange(offset + 32, offset + 40))
    &&& last == le_value(sector.subrange(offset + 40, offset + 48))
    &&& 0 < start <= last
}

/// Slot `i` of the MBR `sector` describes `count` sectors from `start` on.
pub open spec fn slots_in(sector: Seq<u8>, i: int, start: nat, count: nat) -> bool {
    &&& sector.len() == 512
    &&& sector[510] == 0x55
    &&& sector[511] == 0xaa
    &&& 0 <= i < 4
    &&& start == le_value(sector.subrange(446 + 16 * i + 8, 446 + 16 * i + 12))
    &&& count == le_value(sector.subrange(446 + 16 * i + 12, 446 + 16 * i + 16))
    &&& start > 0
    &&& count > 0
}

/// After the first `p` of `reads`, sector `block` was read, and is no superblock.
pub open spec fn passed_over(reads: Seq<SectorRead>, p: int, block: int) -> bool {
    exists|q: int| p <= q < reads.len() && (#[trigger] reads[q]).block == block && !hit(reads[q])
}

/// Read `p` is of sector `block` of an entry array, and the partition of every entry in it
/// was passed over.
pub open spec fn entries_passed_over(
    reads: Seq<SectorRead>,
    p: int,
    block: int,
    size: nat,
    lba_sectors: u64,
) -> bool {
    &&& 0 <= p < reads.len()
    &&& reads[p].block == block
    &&& reads[p].data matches Some(sector) ==> forall|slot: int, start: nat, last: nat|
        0 <= slot && (slot + 1) * size <= 512 && #[trigger] enters(sector, slot * size, start, last)
            && (last + 1) * lba_sectors <= u64::MAX ==> passed_over(
            reads,
            p + 1,
            start * lba_sectors,
        )
}

/// Sector `sub` of the native block `native` of an entry array that starts in native block
/// `first`.
pub open spec fn array_sector(first: nat, native: nat, sub: nat, lba_sectors: u64) -> int {
    (first + native) * lba_sectors + sub
}

/// The place of entry `e` in an array whose entries do not cross sectors: the native block,
/// the sector within it, and the slot within that.
proof fn lemma_entry_place(e: nat, count: nat, size: nat, lba_sectors: u64) -> (place: (
    nat,
    nat,
    int,
))
    requires
        lba_sectors == 1 || lba_sectors == 8,
        size == 128 || size == 256 || size == 512,
        e < count,
        e * size < 32 * lba_sectors * 512,
    ensures
        place.0 < 32,
        place.1 < lba_sectors,
        place.0 * lba_sectors + place.1 == e * size / 512,
        place.0 * per_native(size, lba_sectors) < count,
        place.2 >= 0,
        place.2 * size == e * size as int % 512,
        (place.2 + 1) * size <= 512,
{
    let l = lba_sectors as nat;
    let q = 512nat / size;
    let k = e / q;
    let native = k / l;
    let sub = k % l;
    let slot = (e % q) as int;
    if size == 128 {
        assert(q == 4) by (nonlinear_arith)
            requires
                size == 128,
                q == 512nat / size,
        ;
        assert(lba_sectors * 512 / size as int == l * 4) by (nonlinear_arith)
            requires
                size == 128,
                l == lba_sectors,
        ;
        assert(e * size == e * 128 && slot * size == slot * 128 && (slot + 1) * size == (slot + 1)
            * 128) by (nonlinear_arith)
            requires
                size == 128,
        ;
        assert(k == e / 4 && slot == e as int % 4);
        assert(e * 128 / 512 == e / 4 && e as int * 128 % 512 == (e as int % 4) * 128);
    } else if size == 256 {
        assert(q == 2) by (nonlinear_arith)
            requires
                size == 256,
                q == 512nat / size,
        ;
        assert(lba_sectors * 512 / size as int == l * 2) by (nonlinear_arith)
            requires
                size == 256,
                l == lba_sectors,
        ;
        assert(e * size == e * 256 && slot * size == slot * 256 && (slot + 1) * size == (slot + 1)
            * 256) by (nonlinear_arith)
            requires
                size == 256,
        ;
        assert(k == e / 2 && slot == e as int % 2);
        assert(e * 256 / 512 == e / 2 && e as int * 256 % 512 == (e as int % 2) * 256);
    } else {
        assert(q == 1) by (nonlinear_arith)
            requires
                size == 512,
                q == 512nat / size,
        ;
        assert(lba_sectors * 512 / size as int == l * 1) by (nonlinear_arith)
            requires
                size == 512,
                l == lba_sectors,
        ;
        assert(e * size == e * 512 && slot * size == slot * 512 && (slot + 1) * size == (slot + 1)
            * 512) by (nonlinear_arith)
            requires
                size == 512,
        ;
        assert(k == e / 1 && slot == e as int % 1);
        assert(e * 512 / 512 == e / 1 && e as int * 512 % 512 == (e as int % 1) * 512);
    }
    assert(per_native(size, lba_sectors) == l * q);
    assert(e * size / 512 == k);
    assert(native * l + sub == k) by {
        vstd::arithmetic::div_mod::lemma_fundamental_div_mod(k as int, l as int);
        assert(l * native == native * l) by (nonlinear_arith);
    }
    assert(k * q <= e) by {
        vstd::arithmetic::div_mod::lemma_fundamental_div_mod(e as int, q as int);
        assert(k * q == q * k) by (nonlinear_arith);
    }
    assert(native * (l * q) <= k * q) by (nonlinear_arith)
        requires
            native * l + sub == k,
            sub >= 0,
            q >= 0,
    ;
    assert(k < 32 * l);
    assert(native < 32) by (nonlinear_arith)
        requires
            native * l + sub == k,
            k < 32 * l,
            l >= 1,
            sub >= 0,
    ;
    (native, sub, slot)
}

/// Read `h` is of the sector in which a GPT with native blocks of `lba_sectors` sectors has
/// its header. If it has one there, each native block of the entry array in which an entry
/// starts was read, up to the limit, and the partitions of all its entries were passed over.
pub open spec fn gpt_passed_over(reads: Seq<SectorRead>, h: int, lba_sectors: u64) -> bool {
    &&& 0 <= h < reads.len()
    &&& reads[h].block == lba_sectors
    &&& reads[h].data matches Some(header) ==> forall|
        first: nat,
        count: nat,
        size: nat,
        native: nat,
        sub: nat,
    |
        #[trigger] heads_gpt(header, first, count, size) && native < 32 && native * per_native(
            size,
            lba_sectors,
        ) < count && sub < lba_sectors && (first + 32) * lba_sectors <= u64::MAX
            ==> #[trigger] block_passed_over(
            reads,
            h,
            array_sector(first, native, sub, lba_sectors),
            size,
            lba_sectors,
        )
}

/// After read `h`, sector `block` of an entry array was read, and the partition of every
/// entry in it was passed over.
pub open spec fn block_passed_over(
    reads: Seq<SectorRead>,
    h: int,
    block: int,
    size: nat,
    lba_sectors: u64,
) -> bool {
    exists|p: int| p > h && #[trigger] entries_passed_over(reads, p, block, size, lba_sectors)
}

/// How many entries of `size` bytes start in a native block: one at least.
pub open spec fn per_native(size: nat, lba_sectors: u64) -> nat {
    let fit = (lba_sectors * 512) as nat / size;
    if fit == 0 {
        1
    } else {
        fit
    }
}

/// Read `m` is of the first sector, and if that is an MBR the partitions of all its slots
/// were passed over.
pub open spec fn mbr_passed_over(reads: Seq<SectorRead>, m: int) -> bool {
    &&& 0 <= m < reads.len()
    &&& reads[m].block == 0
    &&& reads[m].data matches Some(sector) ==> forall|i: int, start: nat, count: nat|
        #[trigger] slots_in(sector, i, start, count) ==> passed_over(reads, m + 1, start as int)
}

proof fn lemma_entry_is_listed(sector: Seq<u8>, table: GptTable, n: nat, slot: int)
    requires
        0 <= slot < n,
        gpt_entry(sector, slot * table.entry_size, table.lba_sectors) is Some,
    ensures
        gpt_partitions(sector, table, n).contains(
            gpt_entry(sector, slot * table.entry_size, table.lba_sectors)->0,
        ),
    decreases n,
{
    let part = gpt_entry(sector, slot * table.entry_size, table.lba_sectors)->0;
    let before = gpt_partitions(sector, table, (n - 1) as nat);
    let all = gpt_partitions(sector, table, n);
    if slot == n - 1 {
        assert(all[before.len() as int] == part);
    } else {
        lemma_entry_is_listed(sector, table, (n - 1) as nat, slot);
        let k = choose|k: int| 0 <= k < before.len() && before[k] == part;
        assert(all[k] == part);
    }
}

proof fn lemma_listed_is_entry(sector: Seq<u8>, table: GptTable, n: nat, k: int) -> (slot: int)
    requires
        0 <= k < gpt_partitions(sector, table, n).len(),
    ensures
        0 <= slot < n,
        gpt_entry(sector, slot * table.entry_size, table.lba_sectors) == Some(
            gpt_partitions(sector, table, n)[k],
        ),
    decreases n,
{
    let before = gpt_partitions(sector, table, (n - 1) as nat);
    if k < before.len() {
        lemma_listed_is_entry(sector, table, (n - 1) as nat, k)
    } else {
        n - 1
    }
}

proof fn lemma_slot_is_listed(sector: Seq<u8>, n: nat, slot: int)
    requires
        0 <= slot < n,
        mbr_slot(sector, slot) is Some,
    ensures
        mbr_slots(sector, n).contains(mbr_slot(sector, slot)->0),
    decreases n,
{
    let part = mbr_slot(sector, slot)->0;
    let before = mbr_slots(sector, (n - 1) as nat);
    let all = mbr_slots(sector, n);
    if slot == n - 1 {
        assert(all[before.len() as int] == part);
    } else {
        lemma_slot_is_listed(sector, (n - 1) as nat, slot);
        let k = choose|k: int| 0 <= k < before.len() && before[k] == part;
        assert(all[k] == part);
    }
}

proof fn lemma_listed_is_slot(sector: Seq<u8>, n: nat, k: int) -> (slot: int)
    requires
        0 <= k < mbr_slots(sector, n).len(),
    ensures
        0 <= slot < n,
        mbr_slot(sector, slot) == Some(mbr_slots(sector, n)[k]),
    decreases n,
{
    let before = mbr_slots(sector, (n - 1) as nat);
    if k < before.len() {
        lemma_listed_is_slot(sector, (n - 1) as nat, k)
    } else {
        n - 1
    }
}

proof fn lemma_value_bounds(bytes: Seq<u8>)
    ensures
        bytes.len() == 4 ==> le_value(bytes) <= u32::MAX,
        bytes.len() == 8 ==> le_value(bytes) <= u64::MAX,
{
    law_little_endian(bytes);
}

/// What an entry describes, counted in sectors.
proof fn lemma_entered(sector: Seq<u8>, offset: int, start: nat, last: nat, lba_sectors: u64)
    requires
        sector.len() == 512,
        0 <= offset <= 384,
        enters(sector, offset, start, last),
        1 <= lba_sectors,
        (last + 1) * lba_sectors <= u64::MAX,
    ensures
        gpt_entry(sector, offset, lba_sectors) == Some(
            Partition {
                start: (start * lba_sectors) as u64,
                count: ((last - start + 1) * lba_sectors) as u64,
            },
        ),
        0 < start * lba_sectors <= u64::MAX,
        (last - start + 1) * lba_sectors <= u64::MAX,
{
    lemma_value_bounds(sector.subrange(offset + 32, offset + 40));
    lemma_value_bounds(sector.subrange(offset + 40, offset + 48));
    let l = lba_sectors as int;
    let s = start as int;
    let e = last as int;
    assert(0 < s * l && s * l <= e * l && e * l + l == (e + 1) * l && (e - s + 1) * l == e * l - s
        * l + l) by (nonlinear_arith)
        requires
            l >= 1,
            0 < s <= e,
    ;
    vstd::arithmetic::div_mod::lemma_small_mod((s * l) as nat, 0x1_0000_0000_0000_0000);
    vstd::arithmetic::div_mod::lemma_small_mod((e * l) as nat, 0x1_0000_0000_0000_0000);
}

proof fn lemma_sector_passed_over(
    table: GptTable,
    block: u64,
    reads: Seq<SectorRead>,
    all: Seq<SectorRead>,
    at_read: int,
)
    requires
        searches_sector(table, block, reads, None),
        0 <= at_read,
        at_read + reads.len() <= all.len(),
        all.subrange(at_read, at_read + reads.len()) == reads,
        reads[0].data matches Some(sector) ==> sector.len() == 512,
        table.entry_size >= 128,
        1 <= table.lba_sectors,
    ensures
        entries_passed_over(all, at_read, block as int, table.entry_size as nat, table.lba_sectors),
{
    let size = table.entry_size as nat;
    let l = table.lba_sectors;
    assert(all[at_read] == reads[0]);
    if let Some(sector) = reads[0].data {
        let parts = sector_partitions(sector, table);
        let n = (512u64 / table.entry_size) as nat;
        assert forall|slot: int, start: nat, last: nat|
            0 <= slot && (slot + 1) * size <= 512 && #[trigger] enters(
                sector,
                slot * size,
                start,
                last,
            ) && (last + 1) * l <= u64::MAX implies passed_over(all, at_read + 1, start * l) by {
            assert(slot < n && 0 <= slot * size <= 384) by (nonlinear_arith)
                requires
                    0 <= slot,
                    (slot + 1) * size <= 512,
                    size >= 128,
                    n == 512int / size as int,
            ;
            lemma_entered(sector, slot * size, start, last, l);
            lemma_entry_is_listed(sector, table, n, slot);
            let part = gpt_entry(sector, slot * size, l)->0;
            let k = choose|k: int| 0 <= k < parts.len() && parts[k] == part;
            let probed = reads.skip(1);
            assert(probed[k].block == parts[k].start && !hit(probed[k]));
            assert(all[at_read + 1 + k] == reads[k + 1]);
        }
    }
}

proof fn lemma_array_passed_over(
    table: GptTable,
    n: nat,
    reads: Seq<SectorRead>,
    all: Seq<SectorRead>,
    from: int,
    k: nat,
) -> (p: int)
    requires
        array_missed(table, n, reads),
        k < n,
        n <= u64::MAX,
        0 <= from,
        from + reads.len() <= all.len(),
        all.subrange(from, from + reads.len()) == reads,
        forall|i: int| 0 <= i < all.len() ==> sector_sized(#[trigger] all[i]),
        table.entry_size >= 128,
        1 <= table.lba_sectors,
    ensures
        p >= from,
        entries_passed_over(
            all,
            p,
            at(table.first, k as u64) as int,
            table.entry_size as nat,
            table.lba_sectors,
        ),
    decreases n,
{
    let m = choose|m: int|
        {
            &&& 0 <= m <= reads.len()
            &&& #[trigger] searches_sector(
                table,
                at(table.first, (n - 1) as u64),
                reads.skip(m),
                None,
            )
            &&& array_missed(table, (n - 1) as nat, reads.take(m))
        };
    if k == n - 1 {
        let piece = reads.skip(m);
        assert(all.subrange(from + m, from + m + piece.len()) =~= piece) by {
            assert forall|i: int| 0 <= i < piece.len() implies all[from + m + i] == piece[i] by {
                assert(all.subrange(from, from + reads.len())[m + i] == reads[m + i]);
            }
        }
        assert(piece[0] == all[from + m]) by {
            assert(all.subrange(from + m, from + m + piece.len())[0] == piece[0]);
        }
        assert(sector_sized(all[from + m]));
        lemma_sector_passed_over(
            table,
            at(table.first, (n - 1) as u64),
            piece,
            all,
            from + m,
        );
        from + m
    } else {
        let head = reads.take(m);
        assert(all.subrange(from, from + head.len()) =~= head) by {
            assert forall|i: int| 0 <= i < head.len() implies all[from + i] == head[i] by {
                assert(all.subrange(from, from + reads.len())[i] == reads[i]);
            }
        }
        lemma_array_passed_over(table, (n - 1) as nat, head, all, from, k)
    }
}

/// Sectors have 512 bytes.
pub open spec fn sector_sized(read: SectorRead) -> bool {
    read.data matches Some(sector) ==> sector.len() == 512
}

/// The header is read as the table that it describes.
proof fn lemma_headed(
    header: Seq<u8>,
    first: nat,
    count: nat,
    size: nat,
    lba_sectors: u64,
    native: nat,
    sub: nat,
)
    requires
        native < 32,
        native * per_native(size, lba_sectors) < count,
        sub < lba_sectors,
        heads_gpt(header, first, count, size),
        1 <= lba_sectors <= 8,
        (first + 32) * lba_sectors <= u64::MAX,
    ensures
        gpt_table(header, lba_sectors) is Some,
        ({
            let table = gpt_table(header, lba_sectors)->0;
            &&& table.first == first * lba_sectors
            &&& table.entry_size == size
            &&& table.lba_sectors == lba_sectors
            &&& native * lba_sectors + sub < table.sectors
        }),
{
    let sig = header.subrange(0, 8);
    assert(sig =~= header.take(8));
    law_little_endian(sig);
    lemma_value_bounds(header.subrange(72, 80));
    lemma_value_bounds(header.subrange(80, 84));
    lemma_value_bounds(header.subrange(84, 88));
    let l = lba_sectors as int;
    assert(first * l <= (first + 32) * l) by (nonlinear_arith)
        requires
            l >= 1,
    ;
    vstd::arithmetic::div_mod::lemma_small_mod((first * l) as nat, 0x1_0000_0000_0000_0000);
    let per = per_native(size, lba_sectors) as int;
    assert(per >= 1);
    let blocks = (count + per - 1) / per;
    let capped = if blocks < 32 {
        blocks
    } else {
        32
    };
    let table = gpt_table(header, lba_sectors)->0;
    assert(blocks >= 0) by (nonlinear_arith)
        requires
            blocks == (count + per - 1) / per,
            per >= 1,
            count >= 0,
    ;
    assert(0 <= l * capped <= 256) by (nonlinear_arith)
        requires
            0 <= capped <= 32,
            1 <= l <= 8,
    ;
    assert(table.sectors == l * capped);
    assert(native < blocks) by (nonlinear_arith)
        requires
            native * per < count,
            blocks == (count + per - 1) / per,
            per >= 1,
    ;
    assert(native * l + sub < l * capped) by (nonlinear_arith)
        requires
            native + 1 <= capped,
            0 <= sub < l,
    ;
}

proof fn lemma_gpt_passed_over(reads: Seq<SectorRead>, all: Seq<SectorRead>, h: int, lba_sectors: u64)
    requires
        searches_gpt(lba_sectors, reads, None),
        1 <= lba_sectors <= 8,
        0 <= h,
        h + reads.len() <= all.len(),
        all.subrange(h, h + reads.len()) == reads,
        forall|i: int| 0 <= i < all.len() ==> sector_sized(#[trigger] all[i]),
    ensures
        gpt_passed_over(all, h, lba_sectors),
{
    assert(all[h] == reads[0]);
    if let Some(header) = reads[0].data {
        assert forall|first: nat, count: nat, size: nat, native: nat, sub: nat|
            #[trigger] heads_gpt(header, first, count, size) && native < 32 && native * per_native(
                size,
                lba_sectors,
            ) < count && sub < lba_sectors && (first + 32) * lba_sectors
                <= u64::MAX implies #[trigger] block_passed_over(
            all,
            h,
            array_sector(first, native, sub, lba_sectors),
            size,
            lba_sectors,
        ) by {
            lemma_headed(header, first, count, size, lba_sectors, native, sub);
            let table = gpt_table(header, lba_sectors)->0;
            let rest = reads.skip(1);
            let k = (native * lba_sectors + sub) as nat;
            assert(k < table.sectors);
            assert(all.subrange(h + 1, h + 1 + rest.len()) =~= rest) by {
                assert forall|i: int| 0 <= i < rest.len() implies all[h + 1 + i] == rest[i] by {
                    assert(all.subrange(h, h + reads.len())[i + 1] == reads[i + 1]);
                }
            }
            let p = lemma_array_passed_over(
                table,
                table.sectors as nat,
                rest,
                all,
                h + 1,
                k,
            );
            let l = lba_sectors as int;
            assert(first * l + native * l + sub == (first + native) * l + sub && (first + native)
                * l + sub <= (first + 32) * l) by (nonlinear_arith)
                requires
                    0 <= sub < l,
                    native < 32,
            ;
            assert(at(table.first, k as u64) == array_sector(first, native, sub, lba_sectors));
            assert(entries_passed_over(
                all,
                p,
                array_sector(first, native, sub, lba_sectors),
                size,
                lba_sectors,
            ));
        }
    }
}

/// Nothing is overlooked: if the search ends with the device as a whole, although this does
/// not start with a superblock, then the partition of every entry of a GPT was looked at
/// and does not start with a superblock, up to the limit on the size of the entry array.
/// That goes for native blocks of one sector and of eight.
pub proof fn law_gpt_is_searched_to_its_end(reads: Seq<SectorRead>, lba_sectors: u64)
    requires
        searches(reads, Rootfs::Whole),
        !hit(reads[0]),
        lba_sectors == 1 || lba_sectors == 8,
        forall|i: int| 0 <= i < reads.len() ==> sector_sized(#[trigger] reads[i]),
    ensures
        exists|h: int| #[trigger] gpt_passed_over(reads, h, lba_sectors),
{
    let search = choose|search: Search|
        reads == search.reads() && #[trigger] search.follows(Rootfs::Whole);
    assert(reads[0] == search.first);
    let (h, part) = if lba_sectors == 1 {
        (1, search.gpt1)
    } else {
        (1 + search.gpt1.len() as int, search.gpt8)
    };
    assert(reads.subrange(h, h + part.len()) =~= part);
    lemma_gpt_passed_over(part, reads, h, lba_sectors);
}

/// Nothing is overlooked in an MBR either.
pub proof fn law_mbr_is_searched_to_its_end(reads: Seq<SectorRead>)
    requires
        searches(reads, Rootfs::Whole),
        !hit(reads[0]),
    ensures
        exists|m: int| #[trigger] mbr_passed_over(reads, m),
{
    let search = choose|search: Search|
        reads == search.reads() && #[trigger] search.follows(Rootfs::Whole);
    assert(reads[0] == search.first);
    let m = (1 + search.gpt1.len() + search.gpt8.len()) as int;
    assert(reads[m] == search.mbr[0]);
    if let Some(sector) = reads[m].data {
        assert forall|i: int, start: nat, count: nat|
            #[trigger] slots_in(sector, i, start, count) implies passed_over(
            reads,
            m + 1,
            start as int,
        ) by {
            lemma_value_bounds(sector.subrange(446 + 16 * i + 8, 446 + 16 * i + 12));
            lemma_value_bounds(sector.subrange(446 + 16 * i + 12, 446 + 16 * i + 16));
            lemma_slot_is_listed(sector, 4, i);
            let parts = mbr_partitions(sector);
            let part = mbr_slot(sector, i)->0;
            let k = choose|k: int| 0 <= k < parts.len() && parts[k] == part;
            let probed = search.mbr.skip(1);
            assert(probed[k].block == parts[k].start && !hit(probed[k]));
            assert(reads[m + 1 + k] == probed[k]);
        }
    }
    assert(mbr_passed_over(reads, m));
}

/// On a device that always gives back what it holds, a superblock at the start of a
/// partition is not overlooked. Entry `e` of a GPT is `e * size` bytes into the entry array,
/// wherever in it that is.
pub proof fn law_root_is_not_overlooked(
    reads: Seq<SectorRead>,
    disk: spec_fn(u64) -> Option<Seq<u8>>,
    lba_sectors: u64,
    first: nat,
    count: nat,
    size: nat,
    e: nat,
    start: nat,
    last: nat,
)
    requires
        searches(reads, Rootfs::Whole),
        forall|i: int|
            0 <= i < reads.len() ==> (#[trigger] reads[i]).data == disk(reads[i].block)
                && sector_sized(reads[i]),
        !hit(SectorRead { block: 0, data: disk(0) }),
        lba_sectors == 1 || lba_sectors == 8,
        disk(lba_sectors) matches Some(header) && heads_gpt(header, first, count, size),
        (first + 32) * lba_sectors <= u64::MAX,
        size == 128 || size == 256 || size == 512,
        e < count,
        e * size < 32 * lba_sectors * 512,
        disk((first * lba_sectors + e * size / 512) as u64) matches Some(sector) && enters(
            sector,
            e * size as int % 512,
            start,
            last,
        ),
        (last + 1) * lba_sectors <= u64::MAX,
    ensures
        !hit(
            SectorRead {
                block: (start * lba_sectors) as u64,
                data: disk((start * lba_sectors) as u64),
            },
        ),
{
    let search = choose|search: Search|
        reads == search.reads() && #[trigger] search.follows(Rootfs::Whole);
    assert(reads[0] == search.first);
    assert(reads[0].block == 0);
    law_gpt_is_searched_to_its_end(reads, lba_sectors);
    let h = choose|h: int| #[trigger] gpt_passed_over(reads, h, lba_sectors);
    let header = disk(lba_sectors)->0;
    assert(reads[h].data == Some(header));
    let k = (e * size / 512) as nat;
    let (native, sub, slot) = lemma_entry_place(e, count, size, lba_sectors);
    assert((first + native) * lba_sectors + sub == first * lba_sectors + k) by (nonlinear_arith)
        requires
            native * lba_sectors + sub == k,
    ;
    assert(array_sector(first, native, sub, lba_sectors) == first * lba_sectors + k);
    assert(array_sector(first, native, sub, lba_sectors) <= (first + 32) * lba_sectors)
        by (nonlinear_arith)
        requires
            array_sector(first, native, sub, lba_sectors) == (first + native) * lba_sectors + sub,
            native < 32,
            sub < lba_sectors,
    ;
    assert(heads_gpt(header, first, count, size));
    assert(block_passed_over(
        reads,
        h,
        array_sector(first, native, sub, lba_sectors),
        size,
        lba_sectors,
    ));
    let p = choose|p: int|
        p > h && #[trigger] entries_passed_over(
            reads,
            p,
            array_sector(first, native, sub, lba_sectors),
            size,
            lba_sectors,
        );
    let sector = disk((first * lba_sectors + k) as u64)->0;
    assert(reads[p].data == Some(sector));
    assert(enters(sector, slot * size, start, last));
    assert(passed_over(reads, p + 1, start * lba_sectors));
    let q = choose|q: int|
        p + 1 <= q < reads.len() && (#[trigger] reads[q]).block == start * lba_sectors && !hit(
            reads[q],
        );
    assert(reads[q].data == disk(reads[q].block));
}

/// The GPT entry at `offset` has a type.
pub open spec fn has_type(sector: Seq<u8>, offset: int) -> bool {
    exists|i: int| offset <= i < offset + 16 && #[trigger] sector[i] != 0
}

/// `sector` has an entry of a GPT with native blocks of `lba_sectors` sectors that describes
/// `part`, unless the entry speaks of sectors that have no number.
pub open spec fn gpt_describes(sector: Seq<u8>, lba_sectors: u64, part: Partition) -> bool {
    exists|offset: int|
        {
            let start = le_value(sector.subrange(offset + 32, offset + 40));
            let last = le_value(sector.subrange(offset + 40, offset + 48));
            &&& 0 <= offset <= 384
            &&& #[trigger] has_type(sector, offset)
            &&& start * lba_sectors <= u64::MAX && (last + 1) * lba_sectors <= u64::MAX ==> {
                &&& 0 < start <= last
                &&& part.start == start * lba_sectors
                &&& part.count == (last - start + 1) * lba_sectors
            }
        }
}

/// `sector` has a slot of an MBR that describes `part`.
pub open spec fn mbr_describes(sector: Seq<u8>, part: Partition) -> bool {
    exists|i: int| #[trigger] slots_in(sector, i, part.start as nat, part.count as nat)
}

/// `read` is of a sector with a table that has `part` in it.
pub open spec fn tells_of(read: SectorRead, part: Partition) -> bool {
    read.data matches Some(sector) && (gpt_describes(sector, 1, part) || gpt_describes(
        sector,
        8,
        part,
    ) || (read.block == 0 && mbr_describes(sector, part)))
}

proof fn lemma_gpt_tells(lba_sectors: u64, reads: Seq<SectorRead>, part: Partition) -> (i: int)
    requires
        searches_gpt(lba_sectors, reads, Some(part)),
        1 <= lba_sectors <= 8,
        forall|i: int| 0 <= i < reads.len() ==> sector_sized(#[trigger] reads[i]),
    ensures
        0 <= i < reads.len() - 1,
        reads[i].data matches Some(sector) && gpt_describes(sector, lba_sectors, part),
{
    let table = gpt_table(reads[0].data->0, lba_sectors)->0;
    let rest = reads.skip(1);
    let (k, m) = choose|k: nat, m: int|
        {
            &&& k < table.sectors
            &&& 0 <= m <= rest.len()
            &&& #[trigger] array_missed(table, k, rest.take(m))
            &&& searches_sector(table, at(table.first, k as u64), rest.skip(m), Some(part))
        };
    let piece = rest.skip(m);
    assert(piece[0] == reads[m + 1]);
    assert(sector_sized(reads[m + 1]));
    let sector = piece[0].data->0;
    lemma_value_bounds(reads[0].data->0.subrange(84, 88));
    let size = table.entry_size as int;
    let n = (512u64 / table.entry_size) as nat;
    let j = piece.skip(1).len() - 1;
    let slot = lemma_listed_is_entry(sector, table, n, j);
    let offset = slot * size;
    assert(0 <= offset <= 384) by (nonlinear_arith)
        requires
            0 <= slot < n,
            n == 512int / size,
            size >= 128,
            offset == slot * size,
    ;
    let start = le_value(sector.subrange(offset + 32, offset + 40)) as int;
    let last = le_value(sector.subrange(offset + 40, offset + 48)) as int;
    lemma_value_bounds(sector.subrange(offset + 32, offset + 40));
    lemma_value_bounds(sector.subrange(offset + 40, offset + 48));
    assert(has_type(sector, offset));
    let l = lba_sectors as int;
    if start * l <= u64::MAX && (last + 1) * l <= u64::MAX {
        assert((last + 1) * l == last * l + l && start * l >= 0 && last * l >= 0 && (last - start
            + 1) * l == last * l - start * l + l) by (nonlinear_arith)
            requires
                l >= 1,
                start >= 0,
                last >= 0,
        ;
        vstd::arithmetic::div_mod::lemma_small_mod(
            (start * l) as nat,
            0x1_0000_0000_0000_0000,
        );
        vstd::arithmetic::div_mod::lemma_small_mod((last * l) as nat, 0x1_0000_0000_0000_0000);
        assert(0 < start <= last) by (nonlinear_arith)
            requires
                start * l > 0,
                last * l + l - 1 >= start * l,
                l >= 1,
        ;
    }
    assert(gpt_describes(sector, lba_sectors, part));
    m + 1
}

/// What is found is there: a partition in which a file system is found is one that a sector
/// which was read before describes, and has the place and the size that it gives.
pub proof fn law_found_partition_is_described(reads: Seq<SectorRead>, part: Partition)
    requires
        searches(reads, Rootfs::Partition(part)),
        forall|i: int| 0 <= i < reads.len() ==> sector_sized(#[trigger] reads[i]),
    ensures
        exists|i: int| 0 <= i < reads.len() - 1 && #[trigger] tells_of(reads[i], part),
{
    let search = choose|search: Search|
        reads == search.reads() && #[trigger] search.follows(Rootfs::Partition(part));
    if search.found1 is Some {
        assert forall|i: int| 0 <= i < search.gpt1.len() implies sector_sized(
            #[trigger] search.gpt1[i],
        ) by {
            assert(reads[1 + i] == search.gpt1[i]);
        }
        let i = lemma_gpt_tells(1, search.gpt1, part);
        assert(reads[1 + i] == search.gpt1[i]);
        assert(tells_of(reads[1 + i], part));
    } else if search.found8 is Some {
        let n = 1 + search.gpt1.len() as int;
        assert forall|i: int| 0 <= i < search.gpt8.len() implies sector_sized(
            #[trigger] search.gpt8[i],
        ) by {
            assert(reads[n + i] == search.gpt8[i]);
        }
        let i = lemma_gpt_tells(8, search.gpt8, part);
        assert(reads[n + i] == search.gpt8[i]);
        assert(tells_of(reads[n + i], part));
    } else {
        let n = (1 + search.gpt1.len() + search.gpt8.len()) as int;
        assert(reads[n] == search.mbr[0]);
        assert(sector_sized(reads[n]));
        let sector = reads[n].data->0;
        let probed = search.mbr.skip(1);
        let slot = lemma_listed_is_slot(sector, 4, probed.len() - 1);
        lemma_value_bounds(sector.subrange(446 + 16 * slot + 8, 446 + 16 * slot + 12));
        lemma_value_bounds(sector.subrange(446 + 16 * slot + 12, 446 + 16 * slot + 16));
        assert(slots_in(sector, slot, part.start as nat, part.count as nat));
        assert(mbr_describes(sector, part));
        assert(tells_of(reads[n], part));
    }
}

/// The first partition that starts with a superblock is taken: those before it in the list
/// were looked at, and do not start with one.
pub proof fn law_first_partition_is_taken(
    parts: Seq<Partition>,
    reads: Seq<SectorRead>,
    found: Option<Partition>,
    disk: spec_fn(u64) -> Option<Seq<u8>>,
)
    requires
        probes(parts, reads, found),
        forall|i: int|
            0 <= i < reads.len() ==> (#[trigger] reads[i]).data == disk(reads[i].block),
    ensures
        match found {
            Some(part) => exists|k: int|
                {
                    &&& 0 <= k < parts.len()
                    &&& #[trigger] parts[k] == part
                    &&& holds_root(disk, parts[k])
                    &&& forall|j: int| 0 <= j < k ==> !holds_root(disk, #[trigger] parts[j])
                },
            None => forall|j: int| 0 <= j < parts.len() ==> !holds_root(disk, #[trigger] parts[j]),
        },
{
    match found {
        Some(part) => {
            let k = reads.len() - 1;
            assert(parts[k] == part);
            assert forall|j: int| 0 <= j < k implies !holds_root(disk, #[trigger] parts[j]) by {
                assert(reads.take(k)[j].block == parts.take(k)[j].start);
                assert(reads[j] == reads.take(k)[j]);
            }
            assert(reads[k].data == disk(reads[k].block));
        },
        None => {
            assert forall|j: int| 0 <= j < parts.len() implies !holds_root(
                disk,
                #[trigger] parts[j],
            ) by {
                assert(reads[j].block == parts[j].start);
            }
        },
    }
}

/// On a device that holds what `disk` says, a partition starts with a superblock.
pub open spec fn holds_root(disk: spec_fn(u64) -> Option<Seq<u8>>, part: Partition) -> bool {
    disk(part.start) matches Some(sector) && is_superblock(sector)
}

/// A GPT comes before an MBR, and one with small native blocks before one with large ones:
/// a partition that none of the entries of such a table describes is found only after the
/// table was searched in vain.
pub proof fn law_tables_are_searched_in_order(reads: Seq<SectorRead>, part: Partition)
    requires
        searches(reads, Rootfs::Partition(part)),
        forall|i: int| 0 <= i < reads.len() ==> sector_sized(#[trigger] reads[i]),
    ensures
        gpt_tells(reads, 1, part) || exists|h: int| #[trigger] gpt_passed_over(reads, h, 1),
        gpt_tells(reads, 1, part) || gpt_tells(reads, 8, part) || exists|h: int| #[trigger]
            gpt_passed_over(reads, h, 8),
{
    let search = choose|search: Search|
        reads == search.reads() && #[trigger] search.follows(Rootfs::Partition(part));
    let n = 1 + search.gpt1.len() as int;
    assert(reads.subrange(1, n) =~= search.gpt1);
    assert forall|i: int| 0 <= i < search.gpt1.len() implies sector_sized(
        #[trigger] search.gpt1[i],
    ) by {
        assert(reads[1 + i] == search.gpt1[i]);
    }
    if search.found1 is Some {
        let i = lemma_gpt_tells(1, search.gpt1, part);
        assert(reads[1 + i] == search.gpt1[i]);
    } else {
        lemma_gpt_passed_over(search.gpt1, reads, 1, 1);
        assert(reads.subrange(n, n + search.gpt8.len()) =~= search.gpt8);
        if search.found8 is Some {
            assert forall|i: int| 0 <= i < search.gpt8.len() implies sector_sized(
                #[trigger] search.gpt8[i],
            ) by {
                assert(reads[n + i] == search.gpt8[i]);
            }
            let i = lemma_gpt_tells(8, search.gpt8, part);
            assert(reads[n + i] == search.gpt8[i]);
        } else {
            lemma_gpt_passed_over(search.gpt8, reads, n, 8);
        }
    }
}

/// A sector that was read has an entry of a GPT that describes `part`.
pub open spec fn gpt_tells(reads: Seq<SectorRead>, lba_sectors: u64, part: Partition) -> bool {
    exists|i: int|
        0 <= i < reads.len() - 1 && (#[trigger] reads[i].data matches Some(sector)
            && gpt_describes(sector, lba_sectors, part))
}

/// The entries of a GPT are searched in order: a partition is found in a sector of the entry
/// array only after all the sectors before it were searched in vain.
pub proof fn law_entries_are_searched_in_order(
    table: GptTable,
    reads: Seq<SectorRead>,
    part: Partition,
)
    requires
        searches_array(table, reads, Some(part)),
        table.entry_size >= 128,
        1 <= table.lba_sectors,
        forall|i: int| 0 <= i < reads.len() ==> sector_sized(#[trigger] reads[i]),
    ensures
        exists|k: nat, p: int| #[trigger] found_in(table, reads, k, p, part),
{
    let (k, m) = choose|k: nat, m: int|
        {
            &&& k < table.sectors
            &&& 0 <= m <= reads.len()
            &&& #[trigger] array_missed(table, k, reads.take(m))
            &&& searches_sector(table, at(table.first, k as u64), reads.skip(m), Some(part))
        };
    let head = reads.take(m);
    assert(reads.subrange(0, head.len() as int) =~= head);
    assert forall|j: nat| j < k implies #[trigger] block_passed_over(
        reads,
        -1,
        at(table.first, j as u64) as int,
        table.entry_size as nat,
        table.lba_sectors,
    ) by {
        let q = lemma_array_passed_over(table, k, head, reads, 0, j);
        assert(entries_passed_over(
            reads,
            q,
            at(table.first, j as u64) as int,
            table.entry_size as nat,
            table.lba_sectors,
        ));
    }
    assert(reads.skip(m)[0] == reads[m]);
    assert(found_in(table, reads, k, m, part));
}

/// `part` was found in sector `k` of an entry array, which is read `p`, after the sectors
/// before it were searched in vain.
pub open spec fn found_in(
    table: GptTable,
    reads: Seq<SectorRead>,
    k: nat,
    p: int,
    part: Partition,
) -> bool {
    &&& k < table.sectors
    &&& 0 <= p < reads.len()
    &&& reads[p].block == at(table.first, k as u64)
    &&& reads[p].data matches Some(sector) && sector_partitions(sector, table).contains(part)
    &&& forall|j: nat|
        j < k ==> #[trigger] block_passed_over(
            reads,
            -1,
            at(table.first, j as u64) as int,
            table.entry_size as nat,
            table.lba_sectors,
        )
}

} // verus!
