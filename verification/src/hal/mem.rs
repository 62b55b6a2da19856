//! Physical memory.

use vstd::prelude::*;

use crate::boot::fdt::Region;
use crate::bus::PageSize;
use crate::hal::config::{PHYS_ADDR_MAX, PHYS_MEMORY_END};

verus! {

/// Memory that is taken to be there behind a kernel that lies above the usual
/// range.
pub const HIGH_MEMORY_SIZE: u64 = 0x800_0000;

/// The next multiple of the page size.
pub open spec fn page_above(addr: int, page: PageSize) -> int {
    (addr + page.bytes() - 1) / page.bytes() as int * page.bytes()
}

/// Computes [`page_above`].
fn round_up(addr: u64, page: PageSize) -> (above: u64)
    requires
        addr <= PHYS_ADDR_MAX,
    ensures
        above == page_above(addr as int, page),
        addr <= above < addr + page.bytes(),
{
    match page {
        PageSize::Size4K => (addr + 0xfff) / 0x1000 * 0x1000,
        PageSize::Size16K => (addr + 0x3fff) / 0x4000 * 0x4000,
        PageSize::Size64K => (addr + 0xffff) / 0x1_0000 * 0x1_0000,
    }
}

/// The memory that is free when the kernel starts: from the page behind the
/// kernel's end, which is at `ekernel`, to the end of memory.
pub fn free_pmem_regions(ekernel: u64, page: PageSize) -> (regions: Vec<Region>)
    requires
        ekernel <= PHYS_ADDR_MAX,
    ensures
        regions@.len() == 1,
        regions@[0].start == page_above(ekernel as int, page),
        regions@[0].end == (if page_above(ekernel as int, page) >= PHYS_MEMORY_END {
            page_above(ekernel as int, page) + HIGH_MEMORY_SIZE
        } else {
            PHYS_MEMORY_END as int
        }),
{
    let start: u64 = round_up(ekernel, page);
    let end: u64 = if start >= PHYS_MEMORY_END {
        start + HIGH_MEMORY_SIZE
    } else {
        PHYS_MEMORY_END
    };
    let mut regions: Vec<Region> = Vec::new();
    regions.push(Region { start, end });
    regions
}

/// Free memory is never empty, starts at a page, and leaves the kernel alone.
pub proof fn law_free_memory_is_proper(ekernel: u64, page: PageSize, region: Region)
    requires
        ekernel <= PHYS_ADDR_MAX,
        region.start == page_above(ekernel as int, page),
        region.end == (if page_above(ekernel as int, page) >= PHYS_MEMORY_END {
            page_above(ekernel as int, page) + HIGH_MEMORY_SIZE
        } else {
            PHYS_MEMORY_END as int
        }),
    ensures
        ekernel <= region.start < region.end,
        region.start % page.bytes() == 0,
        region.start - ekernel < page.bytes(),
{
    match page {
        PageSize::Size4K => {
            assert(region.start == (ekernel + 0xfff) / 0x1000 * 0x1000);
        },
        PageSize::Size16K => {
            assert(region.start == (ekernel + 0x3fff) / 0x4000 * 0x4000);
        },
        PageSize::Size64K => {
            assert(region.start == (ekernel + 0xffff) / 0x1_0000 * 0x1_0000);
        },
    }
}

} // verus!
