//! Hypercalls into m1n1's resident hypervisor.
//!
//! The SoC fabric refuses every store that an EL1 guest makes to the ANS/NVMe
//! window, while loads succeed. Stores are therefore handed to the hypervisor,
//! which performs them with its own privilege.

use vstd::prelude::*;

use crate::hw::{Access, Bus, Hardware};

verus! {

/// Call number of a proxied load.
pub const HVCALL_NVME_READ: u64 = 0x4e56_0001;

/// Call number of a proxied store.
pub const HVCALL_NVME_WRITE: u64 = 0x4e56_0002;

/// `access` is a proxied store of `val` to `addr`, `width` bytes wide.
pub open spec fn is_hv_write(access: Access, addr: u64, width: u32, val: u64) -> bool {
    access matches Access::Hvcall { id, a1, a2, a3, ret } && id == HVCALL_NVME_WRITE && a1 == addr
        && a2 == width && a3 == val
}

/// Writes `val` to the physical address `addr` through the hypervisor, `width`
/// bytes wide (1, 2, 4 or 8).
pub fn hv_write<H: Hardware>(bus: &mut Bus<H>, addr: u64, width: u32, val: u64)
    ensures
        final(bus).log() == old(bus).log().push(final(bus).log().last()),
        is_hv_write(final(bus).log().last(), addr, width, val),
{
    let _ret: u64 = bus.hvcall4(HVCALL_NVME_WRITE, addr, width as u64, val);
}

/// Reads from the physical address `addr` through the hypervisor, `width` bytes
/// wide (1, 2, 4 or 8).
pub fn hv_read<H: Hardware>(bus: &mut Bus<H>, addr: u64, width: u32) -> (val: u64)
    ensures
        final(bus).log() == old(bus).log().push(
            Access::Hvcall {
                id: HVCALL_NVME_READ,
                a1: addr,
                a2: width as u64,
                a3: 0,
                ret: val,
            },
        ),
{
    bus.hvcall4(HVCALL_NVME_READ, addr, width as u64, 0)
}

} // verus!
