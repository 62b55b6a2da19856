//! Physical and virtual addresses of the kernel's direct map.

use vstd::prelude::*;

use crate::hw::{address, at};

verus! {

/// The size of a page frame, where nothing else is chosen.
pub const PAGE_SIZE: u64 = 0x1000;

/// The sizes of page frames that a kernel can be built for.
#[derive(Debug, Clone, Copy, PartialEq, Eq, Structural)]
pub enum PageSize {
    Size4K,
    Size16K,
    Size64K,
}

impl PageSize {
    /// The size that a build asks for. The smaller one is taken of two that are asked
    /// for, and 4 KiB if none is.
    pub fn of_build(page_16k: bool, page_64k: bool) -> (page: Self)
        ensures
            page == (if page_16k {
                PageSize::Size16K
            } else if page_64k {
                PageSize::Size64K
            } else {
                PageSize::Size4K
            }),
            !page_16k && !page_64k ==> page.bytes() == PAGE_SIZE,
    {
        if page_16k {
            PageSize::Size16K
        } else if page_64k {
            PageSize::Size64K
        } else {
            PageSize::Size4K
        }
    }

    pub open spec fn spec_bytes(self) -> u64 {
        match self {
            PageSize::Size4K => 0x1000,
            PageSize::Size16K => 0x4000,
            PageSize::Size64K => 0x1_0000,
        }
    }

    /// The size in bytes.
    #[verifier::when_used_as_spec(spec_bytes)]
    pub fn bytes(self) -> (bytes: u64)
        ensures
            bytes == self.spec_bytes(),
    {
        match self {
            PageSize::Size4K => 0x1000,
            PageSize::Size16K => 0x4000,
            PageSize::Size64K => 0x1_0000,
        }
    }
}

/// The physical address behind the direct-map address `vaddr`.
pub open spec fn behind(offset: u64, vaddr: u64) -> u64 {
    if vaddr >= offset {
        (vaddr - offset) as u64
    } else {
        (vaddr - offset + 0x1_0000_0000_0000_0000) as u64
    }
}

/// The address at which the direct map shows the physical address `paddr`, when
/// virtual addresses lie `offset` above physical ones.
pub fn phys_to_virt(offset: u64, paddr: u64) -> (vaddr: u64)
    ensures
        vaddr == at(paddr, offset),
{
    address(paddr, offset)
}

/// The physical address behind the direct-map address `vaddr`.
pub fn virt_to_phys(offset: u64, vaddr: u64) -> (paddr: u64)
    ensures
        paddr == behind(offset, vaddr),
{
    vaddr.wrapping_sub(offset)
}

/// The two directions undo each other.
pub proof fn law_round_trip(offset: u64, addr: u64)
    ensures
        behind(offset, at(addr, offset)) == addr,
        at(behind(offset, addr), offset) == addr,
{
}

} // verus!
