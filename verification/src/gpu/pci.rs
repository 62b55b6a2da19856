//! Detection of NVIDIA GPUs on the PCI bus.

use vstd::prelude::*;

use crate::hw::{address, at, Access, Bus, Hardware};

verus! {

pub const NVIDIA_VENDOR_ID: u16 = 0x10de;

/// Offset of BAR0, the register window, in configuration space.
pub const BAR0: u16 = 0x10;
/// Offset of BAR1, the video memory window, in configuration space.
pub const BAR1: u16 = 0x14;

/// The generation of a GPU.
#[derive(Debug, Clone, Copy, PartialEq, Eq, Structural)]
pub enum NvidiaChipGen {
    /// Kepler, Maxwell, Pascal, Volta.
    PreTuring,
    Turing,
    Ampere,
    Ada,
    Hopper,
    Blackwell,
    Unknown(u32),
}

impl NvidiaChipGen {
    /// Whether GPUs of this generation run their resource management on a processor
    /// of their own.
    pub fn has_gsp(self) -> (yes: bool)
        ensures
            yes == (self is Turing || self is Ampere || self is Ada || self is Hopper
                || self is Blackwell),
    {
        match self {
            NvidiaChipGen::Turing => true,
            NvidiaChipGen::Ampere => true,
            NvidiaChipGen::Ada => true,
            NvidiaChipGen::Hopper => true,
            NvidiaChipGen::Blackwell => true,
            _ => false,
        }
    }

    pub fn name(self) -> (name: &'static str)
        ensures
            name@ == match self {
                NvidiaChipGen::PreTuring => "Pre-Turing (Legacy RM / Falcon)"@,
                NvidiaChipGen::Turing => "Turing"@,
                NvidiaChipGen::Ampere => "Ampere"@,
                NvidiaChipGen::Ada => "Ada Lovelace"@,
                NvidiaChipGen::Hopper => "Hopper"@,
                NvidiaChipGen::Blackwell => "Blackwell"@,
                NvidiaChipGen::Unknown(_) => "Unknown NVIDIA Architecture"@,
            },
    {
        match self {
            NvidiaChipGen::PreTuring => "Pre-Turing (Legacy RM / Falcon)",
            NvidiaChipGen::Turing => "Turing",
            NvidiaChipGen::Ampere => "Ampere",
            NvidiaChipGen::Ada => "Ada Lovelace",
            NvidiaChipGen::Hopper => "Hopper",
            NvidiaChipGen::Blackwell => "Blackwell",
            NvidiaChipGen::Unknown(_) => "Unknown NVIDIA Architecture",
        }
    }
}

/// Where a function is on the PCI bus.
#[derive(Debug, Clone, Copy, PartialEq, Eq, Structural)]
pub struct Location {
    pub bus: u8,
    pub device: u8,
    pub function: u8,
}

/// A function on the PCI bus, by what identifies it.
#[derive(Debug, Clone, Copy, PartialEq, Eq, Structural)]
pub struct PciDevice {
    pub loc: Location,
    pub vendor_id: u16,
    pub device_id: u16,
    pub class: u8,
}

/// A memory window, as configuration space describes it.
#[derive(Debug, Clone, Copy, PartialEq, Eq, Structural)]
pub struct Bar {
    pub addr: u64,
    pub size: u64,
}

/// A GPU that was found.
#[derive(Debug, Clone, Copy, PartialEq, Eq, Structural)]
pub struct NvidiaPciDevice {
    pub loc: Location,
    pub vendor_id: u16,
    pub device_id: u16,
    pub bar0_addr: u64,
    pub bar0_size: u64,
    pub bar1_addr: u64,
    pub bar1_size: u64,
    pub chip_gen: NvidiaChipGen,
    pub chip_id: u32,
}

/// Whether a function is an NVIDIA display or multimedia controller.
pub open spec fn is_nvidia(dev: PciDevice) -> bool {
    dev.vendor_id == NVIDIA_VENDOR_ID && (dev.class == 0x03 || dev.class == 0x04)
}

/// The generation that a chip id belongs to.
pub open spec fn spec_generation(chip_id: u32) -> NvidiaChipGen {
    if 0x160 <= chip_id <= 0x16f {
        NvidiaChipGen::Turing
    } else if 0x170 <= chip_id <= 0x17f {
        NvidiaChipGen::Ampere
    } else if 0x190 <= chip_id <= 0x19f {
        NvidiaChipGen::Ada
    } else if 0x1b0 <= chip_id <= 0x1bf {
        NvidiaChipGen::Hopper
    } else if 0x200 <= chip_id <= 0x20f {
        NvidiaChipGen::Blackwell
    } else if chip_id <= 0x15f {
        NvidiaChipGen::PreTuring
    } else {
        NvidiaChipGen::Unknown(chip_id)
    }
}

#[verifier::when_used_as_spec(spec_generation)]
pub fn generation(chip_id: u32) -> (chip_gen: NvidiaChipGen)
    ensures
        chip_gen == spec_generation(chip_id),
{
    if 0x160 <= chip_id && chip_id <= 0x16f {
        NvidiaChipGen::Turing
    } else if 0x170 <= chip_id && chip_id <= 0x17f {
        NvidiaChipGen::Ampere
    } else if 0x190 <= chip_id && chip_id <= 0x19f {
        NvidiaChipGen::Ada
    } else if 0x1b0 <= chip_id && chip_id <= 0x1bf {
        NvidiaChipGen::Hopper
    } else if 0x200 <= chip_id && chip_id <= 0x20f {
        NvidiaChipGen::Blackwell
    } else if chip_id <= 0x15f {
        NvidiaChipGen::PreTuring
    } else {
        NvidiaChipGen::Unknown(chip_id)
    }
}

/// Whether a function is an NVIDIA GPU.
pub fn match_nvidia_pci(dev: &PciDevice) -> (yes: bool)
    ensures
        yes == is_nvidia(*dev),
{
    dev.vendor_id == NVIDIA_VENDOR_ID && (dev.class == 0x03 || dev.class == 0x04)
}

/// The GPU behind `dev` whose first register holds `boot`: the chip id is in the
/// top twelve bits.
pub open spec fn described(dev: PciDevice, bar0: Bar, bar1: Bar, boot: u32) -> NvidiaPciDevice {
    let chip_id = boot / 0x10_0000;
    NvidiaPciDevice {
        loc: dev.loc,
        vendor_id: dev.vendor_id,
        device_id: dev.device_id,
        bar0_addr: bar0.addr,
        bar0_size: bar0.size,
        bar1_addr: bar1.addr,
        bar1_size: bar1.size,
        chip_gen: generation(chip_id),
        chip_id,
    }
}

/// Examines a function whose windows, described at [`BAR0`] and [`BAR1`] of its
/// configuration space, are `bar0` and `bar1`. A function that is no
/// NVIDIA GPU, or has no register window, is not touched. `offset` is the distance
/// between virtual and physical addresses.
pub fn probe_nvidia_device<H: Hardware>(
    bus: &mut Bus<H>,
    offset: u64,
    dev: &PciDevice,
    bar0: Bar,
    bar1: Bar,
) -> (found: Option<NvidiaPciDevice>)
    ensures
        if is_nvidia(*dev) && bar0.addr != 0 {
            exists|boot: u32|
                {
                    &&& final(bus).log() == old(bus).log().push(
                        Access::Read32 { addr: at(bar0.addr, offset), val: boot },
                    )
                    &&& found == Some(#[trigger] described(*dev, bar0, bar1, boot))
                }
        } else {
            found is None && final(bus).log() == old(bus).log()
        },
{
    if !match_nvidia_pci(dev) {
        return None;
    }
    if bar0.addr == 0 {
        return None;
    }
    let boot: u32 = bus.read32(address(bar0.addr, offset));
    let chip_id: u32 = boot / 0x10_0000;
    let found: NvidiaPciDevice = NvidiaPciDevice {
        loc: dev.loc,
        vendor_id: dev.vendor_id,
        device_id: dev.device_id,
        bar0_addr: bar0.addr,
        bar0_size: bar0.size,
        bar1_addr: bar1.addr,
        bar1_size: bar1.size,
        chip_gen: generation(chip_id),
        chip_id,
    };
    assert(found == described(*dev, bar0, bar1, boot));
    Some(found)
}

/// Every generation has a block of sixteen chip ids. What comes before the first block is
/// older, and an id in none of them is kept as it is.
pub proof fn law_generations_have_their_blocks(chip_id: u32)
    ensures
        generation(chip_id) is Turing <==> chip_id / 16 == 0x16,
        generation(chip_id) is Ampere <==> chip_id / 16 == 0x17,
        generation(chip_id) is Ada <==> chip_id / 16 == 0x19,
        generation(chip_id) is Hopper <==> chip_id / 16 == 0x1b,
        generation(chip_id) is Blackwell <==> chip_id / 16 == 0x20,
        generation(chip_id) is PreTuring <==> chip_id / 16 < 0x16,
        generation(chip_id) is Unknown ==> generation(chip_id) == NvidiaChipGen::Unknown(chip_id),
{
}

/// A GPU is described as it was found: by its place and its ids, by both windows, and by
/// the chip id that its first register holds on top, whatever follows below.
pub proof fn law_gpu_is_described(
    dev: PciDevice,
    bar0: Bar,
    bar1: Bar,
    chip_id: u32,
    rest: u32,
)
    requires
        chip_id < 0x1000,
        rest < 0x10_0000,
    ensures
        ({
            let gpu = described(dev, bar0, bar1, (chip_id * 0x10_0000 + rest) as u32);
            &&& gpu.loc == dev.loc
            &&& gpu.vendor_id == dev.vendor_id && gpu.device_id == dev.device_id
            &&& gpu.bar0_addr == bar0.addr && gpu.bar0_size == bar0.size
            &&& gpu.bar1_addr == bar1.addr && gpu.bar1_size == bar1.size
            &&& gpu.chip_id == chip_id
            &&& gpu.chip_gen == generation(chip_id)
        }),
{
}

/// NVIDIA's display and multimedia controllers are GPUs, and nothing else is.
pub proof fn law_gpus_are_recognized(dev: PciDevice)
    ensures
        is_nvidia(dev) <==> dev.vendor_id == 0x10de && (dev.class == 3 || dev.class == 4),
{
}

} // verus!
