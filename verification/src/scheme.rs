//! What a driver offers to the rest of the kernel.

use vstd::prelude::*;

use crate::error::DeviceResult;

verus! {

/// A device with a name.
pub trait Scheme {
    /// What the device is called.
    open spec fn spec_name(&self) -> Seq<char> {
        vstd::pervasive::arbitrary()
    }

    /// The device's name. It does not change.
    fn name(&self) -> (name: &str)
        ensures
            name@ == self.spec_name(),
    ;
}

/// A block device that is addressed in 512-byte sectors.
pub trait BlockScheme {
    /// Whether the device is in a state in which it can be used.
    open spec fn wf(&self) -> bool {
        true
    }

    /// Whether reading sector `block_id` into a buffer that holds `buf` can lead to the
    /// state `after`, the buffer `buf_after` and the result `res`.
    open spec fn reads(
        &self,
        after: &Self,
        block_id: u64,
        buf: Seq<u8>,
        buf_after: Seq<u8>,
        res: DeviceResult<()>,
    ) -> bool {
        true
    }

    /// Reads sector `block_id` into `buf`.
    fn read_block(&mut self, block_id: u64, buf: &mut [u8]) -> (res: DeviceResult<()>)
        requires
            old(self).wf(),
        ensures
            final(self).wf(),
            final(buf)@.len() == old(buf)@.len(),
            old(self).reads(final(self), block_id, old(buf)@, final(buf)@, res),
    ;

    /// Whether writing `buf` to sector `block_id` can lead to the state `after` and the
    /// result `res`.
    open spec fn writes(
        &self,
        after: &Self,
        block_id: u64,
        buf: Seq<u8>,
        res: DeviceResult<()>,
    ) -> bool {
        true
    }

    /// Writes `buf` to sector `block_id`.
    fn write_block(&mut self, block_id: u64, buf: &[u8]) -> (res: DeviceResult<()>)
        requires
            old(self).wf(),
        ensures
            final(self).wf(),
            old(self).writes(final(self), block_id, buf@, res),
    ;

    /// Whether writing the caches out can lead to the state `after` and the result
    /// `res`.
    open spec fn flushes(&self, after: &Self, res: DeviceResult<()>) -> bool {
        true
    }

    /// Makes the device write its caches out.
    fn flush(&mut self) -> (res: DeviceResult<()>)
        requires
            old(self).wf(),
        ensures
            final(self).wf(),
            old(self).flushes(final(self), res),
    ;

    /// Total capacity in 512-byte sectors.
    fn block_count(&self) -> (count: u64)
        default_ensures
            count == 0,
    {
        0
    }

    /// Prepares the device for a warm reset or for power-off. Unless a device does
    /// it otherwise, its caches are written out, whether or not that succeeds.
    fn quiesce_for_reboot(&mut self)
        requires
            old(self).wf(),
        ensures
            final(self).wf(),
        default_ensures
            exists|res: DeviceResult<()>| #[trigger] old(self).flushes(final(self), res),
    {
        let _res: DeviceResult<()> = self.flush();
    }
}

} // verus!
