//! Queues and messages of the GPU System Processor (GSP).
//!
//! Turing and newer GPUs run their resource management on a processor of their
//! own. The host talks to it through command and status rings.

use vstd::prelude::*;

verus! {

/// Head of a message.
#[derive(Debug, Clone, Copy, PartialEq, Eq, Structural)]
pub struct GspMessageHeader {
    pub magic: u32,
    pub length: u32,
    pub sequence: u32,
    pub result: u32,
    pub function: u32,
    pub flags: u32,
}

impl Default for GspMessageHeader {
    fn default() -> (header: Self)
        ensures
            header == (GspMessageHeader {
                magic: 0,
                length: 0,
                sequence: 0,
                result: 0,
                function: 0,
                flags: 0,
            }),
    {
        GspMessageHeader { magic: 0, length: 0, sequence: 0, result: 0, function: 0, flags: 0 }
    }
}

/// "GSPM".
pub const GSP_MSG_MAGIC: u32 = 0x4753_504d;

/// What a message asks for.
#[derive(Debug, Clone, Copy, PartialEq, Eq, Structural)]
pub enum GspRpcFunction {
    Nop,
    GetCapabilities,
    AllocClient,
    FreeClient,
    AllocDevice,
    FreeDevice,
    AllocSubdevice,
    FreeSubdevice,
    AllocMemory,
    FreeMemory,
    AllocChannel,
    FreeChannel,
    SetDisplayMode,
    GetDisplayInfo,
}

impl GspRpcFunction {
    /// The number of a function in a message.
    pub open spec fn spec_code(self) -> u32 {
        match self {
            GspRpcFunction::Nop => 0x00,
            GspRpcFunction::GetCapabilities => 0x01,
            GspRpcFunction::AllocClient => 0x02,
            GspRpcFunction::FreeClient => 0x03,
            GspRpcFunction::AllocDevice => 0x04,
            GspRpcFunction::FreeDevice => 0x05,
            GspRpcFunction::AllocSubdevice => 0x06,
            GspRpcFunction::FreeSubdevice => 0x07,
            GspRpcFunction::AllocMemory => 0x08,
            GspRpcFunction::FreeMemory => 0x09,
            GspRpcFunction::AllocChannel => 0x0a,
            GspRpcFunction::FreeChannel => 0x0b,
            GspRpcFunction::SetDisplayMode => 0x10,
            GspRpcFunction::GetDisplayInfo => 0x11,
        }
    }

    #[verifier::when_used_as_spec(spec_code)]
    pub fn code(self) -> (code: u32)
        ensures
            code == self.spec_code(),
    {
        match self {
            GspRpcFunction::Nop => 0x00,
            GspRpcFunction::GetCapabilities => 0x01,
            GspRpcFunction::AllocClient => 0x02,
            GspRpcFunction::FreeClient => 0x03,
            GspRpcFunction::AllocDevice => 0x04,
            GspRpcFunction::FreeDevice => 0x05,
            GspRpcFunction::AllocSubdevice => 0x06,
            GspRpcFunction::FreeSubdevice => 0x07,
            GspRpcFunction::AllocMemory => 0x08,
            GspRpcFunction::FreeMemory => 0x09,
            GspRpcFunction::AllocChannel => 0x0a,
            GspRpcFunction::FreeChannel => 0x0b,
            GspRpcFunction::SetDisplayMode => 0x10,
            GspRpcFunction::GetDisplayInfo => 0x11,
        }
    }
}

/// Different functions have different numbers.
pub proof fn law_codes_are_distinct(a: GspRpcFunction, b: GspRpcFunction)
    ensures
        a.code() == b.code() ==> a == b,
{
}

/// A ring, by its addresses and size, and the positions of its two ends.
#[derive(Debug, Clone, Copy, PartialEq, Eq, Structural)]
pub struct GspQueue {
    pub base_paddr: u64,
    pub base_vaddr: u64,
    pub size: u64,
    pub head: u32,
    pub tail: u32,
}

impl GspQueue {
    /// A ring that is empty.
    pub fn new(base_paddr: u64, base_vaddr: u64, size: u64) -> (queue: Self)
        ensures
            queue == (GspQueue { base_paddr, base_vaddr, size, head: 0, tail: 0 }),
    {
        GspQueue { base_paddr, base_vaddr, size, head: 0, tail: 0 }
    }

    pub fn head(&self) -> (head: u32)
        ensures
            head == self.head,
    {
        self.head
    }

    pub fn tail(&self) -> (tail: u32)
        ensures
            tail == self.tail,
    {
        self.tail
    }

    pub fn set_head(&mut self, head: u32)
        ensures
            *final(self) == (GspQueue { head, ..*old(self) }),
    {
        self.head = head;
    }

    pub fn set_tail(&mut self, tail: u32)
        ensures
            *final(self) == (GspQueue { tail, ..*old(self) }),
    {
        self.tail = tail;
    }
}

/// What frees something has the number behind that of what allocates it.
pub proof fn law_freeing_follows_allocating()
    ensures
        GspRpcFunction::FreeClient.code() == GspRpcFunction::AllocClient.code() + 1,
        GspRpcFunction::FreeDevice.code() == GspRpcFunction::AllocDevice.code() + 1,
        GspRpcFunction::FreeSubdevice.code() == GspRpcFunction::AllocSubdevice.code() + 1,
        GspRpcFunction::FreeMemory.code() == GspRpcFunction::AllocMemory.code() + 1,
        GspRpcFunction::FreeChannel.code() == GspRpcFunction::AllocChannel.code() + 1,
{
}

} // verus!
