//! The ANS controller as a block device.

use vstd::prelude::*;

use crate::error::DeviceResult;
use crate::hw::{extends, since, Bus, Hardware};
use crate::nvme::apple_ans::{done, flush_command, AppleAnsNvme};
use crate::scheme::{BlockScheme, Scheme};

verus! {

/// A controller together with the bus that it is reached over.
pub struct AnsDisk<H: Hardware> {
    pub dev: AppleAnsNvme,
    pub bus: Bus<H>,
}

impl<H: Hardware> Scheme for AnsDisk<H> {
    open spec fn spec_name(&self) -> Seq<char> {
        "apple-ans-nvme"@
    }

    fn name(&self) -> (name: &str) {
        self.dev.name()
    }
}

impl<H: Hardware> BlockScheme for AnsDisk<H> {
    open spec fn wf(&self) -> bool {
        self.dev.wf()
    }

    /// A flush command is executed in the I/O queue.
    open spec fn flushes(&self, after: &Self, res: DeviceResult<()>) -> bool {
        &&& extends(self.bus.log(), after.bus.log())
        &&& after.dev == (AppleAnsNvme {
            io_q: after.dev.io_q,
            rtkit: after.dev.rtkit,
            ..self.dev
        })
        &&& exists|result: DeviceResult<u64>|
            res == done(result) && #[trigger] self.dev.io_q.executes(
                after.dev.io_q,
                self.dev.rtkit,
                after.dev.rtkit,
                self.dev.phys_nvme_base,
                flush_command(),
                since(self.bus.log(), after.bus.log()),
                result,
            )
    }

    open spec fn reads(
        &self,
        after: &Self,
        block_id: u64,
        buf: Seq<u8>,
        buf_after: Seq<u8>,
        res: DeviceResult<()>,
    ) -> bool {
        &&& extends(self.bus.log(), after.bus.log())
        &&& self.dev.reads(
            after.dev,
            block_id,
            buf,
            buf_after,
            since(self.bus.log(), after.bus.log()),
            res,
        )
    }

    fn read_block(&mut self, block_id: u64, buf: &mut [u8]) -> (res: DeviceResult<()>) {
        self.dev.read_block(&mut self.bus, block_id, buf)
    }

    open spec fn writes(
        &self,
        after: &Self,
        block_id: u64,
        buf: Seq<u8>,
        res: DeviceResult<()>,
    ) -> bool {
        &&& extends(self.bus.log(), after.bus.log())
        &&& self.dev.writes(
            after.dev,
            block_id,
            buf,
            since(self.bus.log(), after.bus.log()),
            res,
        )
    }

    fn write_block(&mut self, block_id: u64, buf: &[u8]) -> (res: DeviceResult<()>) {
        self.dev.write_block(&mut self.bus, block_id, buf)
    }

    fn flush(&mut self) -> (res: DeviceResult<()>) {
        self.dev.flush(&mut self.bus)
    }

    fn block_count(&self) -> (count: u64)
        ensures
            count == self.dev.block_count,
    {
        self.dev.block_count()
    }

    /// Writes the caches out; whether that succeeds is of no consequence.
    fn quiesce_for_reboot(&mut self)
        ensures
            exists|res: DeviceResult<()>| #[trigger] old(self).flushes(final(self), res),
    {
        let _res: DeviceResult<()> = self.flush();
    }
}

} // verus!
