//! The records that an NVMe driver shares with the Apple ANS controller.

use vstd::prelude::*;

verus! {

/// A submission queue entry. The controller takes its command identifier from
/// the one-byte tag.
#[derive(Clone, Copy)]
pub struct NvmeCommand {
    pub opcode: u8,
    pub flags: u8,
    pub tag: u8,
    pub rsvd: u8,
    pub nsid: u32,
    pub cdw2: u32,
    pub cdw3: u32,
    pub metadata: u64,
    pub prp1: u64,
    pub prp2: u64,
    pub cdw10: u32,
    pub cdw11: u32,
    pub cdw12: u32,
    pub cdw13: u32,
    pub cdw14: u32,
    pub cdw15: u32,
}

/// A completion queue entry.
#[derive(Clone, Copy)]
pub struct NvmeCompletion {
    pub result: u64,
    pub rsvd: u32,
    pub tag: u16,
    pub status: u16,
}

/// An NVMMU task control block: it grants the controller DMA access for the
/// command in one slot.
#[derive(Clone, Copy)]
#[verifier::ext_equal]
pub struct AppleNvmmuTcb {
    pub opcode: u8,
    pub dma_flags: u8,
    pub slot_id: u8,
    pub unk0: u8,
    pub length: u32,
    pub unk1: [u64; 2],
    pub prp1: u64,
    pub prp2: u64,
    pub unk2: [u64; 2],
    pub aes_iv: [u8; 8],
    pub aes_unk: [u8; 64],
}

impl NvmeCommand {
    /// The command all of whose fields are zero.
    pub open spec fn zeroed() -> Self {
        NvmeCommand {
            opcode: 0,
            flags: 0,
            tag: 0,
            rsvd: 0,
            nsid: 0,
            cdw2: 0,
            cdw3: 0,
            metadata: 0,
            prp1: 0,
            prp2: 0,
            cdw10: 0,
            cdw11: 0,
            cdw12: 0,
            cdw13: 0,
            cdw14: 0,
            cdw15: 0,
        }
    }
}

impl Default for NvmeCommand {
    fn default() -> (cmd: Self)
        ensures
            cmd == Self::zeroed(),
    {
        NvmeCommand {
            opcode: 0,
            flags: 0,
            tag: 0,
            rsvd: 0,
            nsid: 0,
            cdw2: 0,
            cdw3: 0,
            metadata: 0,
            prp1: 0,
            prp2: 0,
            cdw10: 0,
            cdw11: 0,
            cdw12: 0,
            cdw13: 0,
            cdw14: 0,
            cdw15: 0,
        }
    }
}

impl Default for NvmeCompletion {
    fn default() -> (cqe: Self)
        ensures
            cqe == (NvmeCompletion { result: 0, rsvd: 0, tag: 0, status: 0 }),
    {
        NvmeCompletion { result: 0, rsvd: 0, tag: 0, status: 0 }
    }
}

impl AppleNvmmuTcb {
    /// The block that describes one transfer, all other fields zero.
    pub open spec fn describes(
        self,
        dma_flags: u8,
        slot_id: u8,
        length: u32,
        prp1: u64,
        prp2: u64,
    ) -> bool {
        &&& self.opcode == 0
        &&& self.dma_flags == dma_flags
        &&& self.slot_id == slot_id
        &&& self.unk0 == 0
        &&& self.length == length
        &&& self.prp1 == prp1
        &&& self.prp2 == prp2
        &&& forall|i: int| 0 <= i < 2 ==> self.unk1[i] == 0
        &&& forall|i: int| 0 <= i < 2 ==> self.unk2[i] == 0
        &&& forall|i: int| 0 <= i < 8 ==> self.aes_iv[i] == 0
        &&& forall|i: int| 0 <= i < 64 ==> self.aes_unk[i] == 0
    }
}

impl Default for AppleNvmmuTcb {
    fn default() -> (tcb: Self)
        ensures
            tcb.describes(0, 0, 0, 0, 0),
    {
        AppleNvmmuTcb {
            opcode: 0,
            dma_flags: 0,
            slot_id: 0,
            unk0: 0,
            length: 0,
            unk1: [0; 2],
            prp1: 0,
            prp2: 0,
            unk2: [0; 2],
            aes_iv: [0; 8],
            aes_unk: [0; 64],
        }
    }
}

} // verus!
