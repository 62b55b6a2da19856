//! Kernel configuration.

use vstd::prelude::*;

use crate::bus::PageSize;

verus! {

/// No more processors than this are used.
pub const MAX_CORE_NUM: usize = 8;

/// What the kernel is told when it is started.
#[derive(Debug, Clone, Copy)]
pub struct KernelConfig<'a> {
    /// The boot command line.
    pub cmdline: &'a str,
    pub firmware_type: &'a str,
    pub uart_base: u64,
    pub gic_base: u64,
    /// How far virtual addresses of the direct map lie above physical ones.
    pub phys_to_virt_offset: u64,
    /// All zero on other platforms.
    pub apple: AppleMmio,
}

/// The register windows of an Apple SoC, and the register layout of its interrupt
/// controller. A zero field is absent.
#[derive(Debug, Clone, Copy, PartialEq, Eq, Structural)]
pub struct AppleMmio {
    pub aic_base: u64,
    /// Generation of the interrupt controller; zero if unknown.
    pub aic_version: u32,
    pub aic_size: u64,
    pub aic_event_offset: u64,
    pub aic_cap0_offset: u64,
    pub aic_maxnumirq_offset: u64,
    pub aic_irq_cfg: u64,
    pub aic_cfg_stride: u64,
    pub aic_mask_set_stride: u64,
    pub aic_mask_clr_stride: u64,
    pub uart_irq: u64,
    pub pmgr_base: u64,
    pub pmgr_size: u64,
    pub ans_base: u64,
    pub ans_size: u64,
    pub nvme_base: u64,
    pub nvme_size: u64,
    pub sart_base: u64,
    pub sart_size: u64,
    pub fb_base: u64,
    pub fb_stride: u64,
    pub fb_width: u64,
    pub fb_height: u64,
    pub fb_depth: u64,
}

impl AppleMmio {
    /// Nothing is known.
    pub open spec fn absent() -> Self {
        AppleMmio {
            aic_base: 0,
            aic_version: 0,
            aic_size: 0,
            aic_event_offset: 0,
            aic_cap0_offset: 0,
            aic_maxnumirq_offset: 0,
            aic_irq_cfg: 0,
            aic_cfg_stride: 0,
            aic_mask_set_stride: 0,
            aic_mask_clr_stride: 0,
            uart_irq: 0,
            pmgr_base: 0,
            pmgr_size: 0,
            ans_base: 0,
            ans_size: 0,
            nvme_base: 0,
            nvme_size: 0,
            sart_base: 0,
            sart_size: 0,
            fb_base: 0,
            fb_stride: 0,
            fb_width: 0,
            fb_height: 0,
            fb_depth: 0,
        }
    }
}

impl Default for AppleMmio {
    fn default() -> (mmio: Self)
        ensures
            mmio == Self::absent(),
    {
        AppleMmio {
            aic_base: 0,
            aic_version: 0,
            aic_size: 0,
            aic_event_offset: 0,
            aic_cap0_offset: 0,
            aic_maxnumirq_offset: 0,
            aic_irq_cfg: 0,
            aic_cfg_stride: 0,
            aic_mask_set_stride: 0,
            aic_mask_clr_stride: 0,
            uart_irq: 0,
            pmgr_base: 0,
            pmgr_size: 0,
            ans_base: 0,
            ans_size: 0,
            nvme_base: 0,
            nvme_size: 0,
            sart_base: 0,
            sart_size: 0,
            fb_base: 0,
            fb_stride: 0,
            fb_width: 0,
            fb_height: 0,
            fb_depth: 0,
        }
    }
}

pub const PHYS_MEMORY_BASE: u64 = 0x4000_0000;
/// The base and 100 MiB.
pub const PHYS_MEMORY_END: u64 = 0x4640_0000;
pub const VIRTIO_BASE: u64 = 0x0a00_0000;
pub const VIRTIO_SIZE: u64 = 0x100;
pub const UART_SIZE: u64 = 0x1000;
pub const APPLE_NVME_BASE: u64 = 0x3_4bcc_0000;
pub const APPLE_NVME_SIZE: u64 = 0x4_0000;
pub const APPLE_ANS_BASE: u64 = 0x3_4740_0000;
pub const APPLE_ANS_SIZE: u64 = 0x4000;
pub const APPLE_ANS_MBOX_BASE: u64 = 0x3_4740_8000;
pub const APPLE_ANS_MBOX_SIZE: u64 = 0x4000;
pub const APPLE_SART_BASE: u64 = 0x3_4bc5_0000;
pub const APPLE_SART_SIZE: u64 = 0x1_0000;
pub const APPLE_PMGR_BASE: u64 = 0x2_8e08_0000;
pub const APPLE_PMGR_SIZE: u64 = 0x8000;
pub const APPLE_PS_AIC_OFFSET: u64 = 0x108;
pub const APPLE_PS_AFNC6_LW0_OFFSET: u64 = 0x158;
pub const APPLE_PS_APCIE_ST_OFFSET: u64 = 0x1a0;
pub const APPLE_PS_ANS2_OFFSET: u64 = 0x1a8;
pub const APPLE_PS_APCIE_ST_SYS_OFFSET: u64 = 0x408;
pub const APPLE_PS_APCIE_ST1_SYS_OFFSET: u64 = 0x410;
pub const PHYS_ADDR_BITS: u64 = 48;
pub const PHYS_ADDR_MAX: u64 = 0xffff_ffff_ffff;
/// The page part of a physical address, with pages of 4 KiB.
pub const PHYS_ADDR_MASK: u64 = 0xffff_ffff_f000;
pub const USER_TABLE_FLAG: u64 = 0xabcd_0000_0000_0000;

/// The page part of a physical address: every bit of it but those within a page.
pub fn phys_addr_mask(page: PageSize) -> (mask: u64)
    ensures
        mask == PHYS_ADDR_MAX - (page.bytes() - 1),
        page == PageSize::Size4K ==> mask == PHYS_ADDR_MASK,
{
    PHYS_ADDR_MAX - (page.bytes() - 1)
}

} // verus!
