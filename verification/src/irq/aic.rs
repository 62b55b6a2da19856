//! Apple Interrupt Controller (AIC, AIC2, AIC3).

use vstd::prelude::*;

use crate::error::DeviceResult;
use crate::hw::{address, at, Access, Bus, Hardware};

verus! {

/// Event register of the first generation.
pub const AIC_EVENT: u64 = 0x2004;
/// Target registers of the first generation.
pub const AIC_TARGET_CPU: u64 = 0x3000;

pub const AIC2_INFO1: u64 = 0x0004;
pub const AIC2_INFO3: u64 = 0x000c;
pub const AIC2_IRQ_CFG: u64 = 0x2000;
/// Event register of the later generations, where the device tree names none.
pub const AIC2_EVENT: u64 = 0xc000;

pub const AIC_MAX_IRQ: u32 = 1024;

pub const AIC_EVENT_TYPE_FIQ: u32 = 0;
pub const AIC_EVENT_TYPE_IRQ: u32 = 1;
pub const AIC_EVENT_TYPE_IPI: u32 = 4;

/// The register layout as the device tree describes it. A zero field is absent,
/// and is derived from the capability registers instead.
#[derive(Debug, Clone, Copy)]
pub struct AicLayout {
    /// The generation, from the `compatible` string. The version register is no
    /// substitute: it does not tell the generations apart.
    pub version: u32,
    pub event_offset: u64,
    pub cap0_offset: u64,
    pub maxnumirq_offset: u64,
    pub irq_cfg: u64,
    pub mask_set_stride: u64,
    pub mask_clr_stride: u64,
}

impl Default for AicLayout {
    fn default() -> (layout: Self)
        ensures
            layout == (AicLayout {
                version: 0,
                event_offset: 0,
                cap0_offset: 0,
                maxnumirq_offset: 0,
                irq_cfg: 0,
                mask_set_stride: 0,
                mask_clr_stride: 0,
            }),
    {
        AicLayout {
            version: 0,
            event_offset: 0,
            cap0_offset: 0,
            maxnumirq_offset: 0,
            irq_cfg: 0,
            mask_set_stride: 0,
            mask_clr_stride: 0,
        }
    }
}

/// An interrupt controller, by its register window and the offsets of the blocks
/// in it.
pub struct AppleAic {
    pub base: u64,
    /// Length of the register window.
    pub size: u64,
    /// Address of the event register.
    pub event_base: u64,
    pub version: u32,
    pub nr_irq: u32,
    pub max_irq: u32,
    pub nr_die: u32,
    pub max_die: u32,
    pub mask_set_stride: u64,
    pub mask_clr_stride: u64,
    pub sw_set: u64,
    pub sw_clr: u64,
    pub mask_set: u64,
    pub mask_clr: u64,
    pub hw_state: u64,
    pub target_cpu: Option<u64>,
}

/// `value` unless it is absent, else `fallback`.
pub open spec fn spec_or_else(value: u64, fallback: u64) -> u64 {
    if value != 0 {
        value
    } else {
        fallback
    }
}

#[verifier::when_used_as_spec(spec_or_else)]
pub fn or_else(value: u64, fallback: u64) -> (chosen: u64)
    ensures
        chosen == spec_or_else(value, fallback),
{
    if value != 0 {
        value
    } else {
        fallback
    }
}

/// Bytes in a block that holds one bit per interrupt.
pub open spec fn bitmap_bytes(max_irq: u32) -> u64 {
    (4 * (max_irq / 32)) as u64
}

/// Bytes from one die's blocks to the next die's: one word per interrupt and five
/// bitmaps.
pub open spec fn die_stride(max_irq: u32) -> u64 {
    (4 * max_irq + 5 * bitmap_bytes(max_irq)) as u64
}

/// What the capability registers say.
pub struct AicInfo {
    pub info1: u32,
    /// Read on the later generations only.
    pub info3: u32,
}

/// The controller that a window, a layout and the capability registers make up.
/// The blocks follow one another: a word per interrupt, then the bitmaps for
/// setting and clearing software interrupts, for masking and unmasking, and for
/// the state of the lines.
pub open spec fn described(base: u64, size: u64, layout: AicLayout, info: AicInfo) -> AppleAic {
    let first = layout.version == 1;
    let max_irq = if first {
        AIC_MAX_IRQ
    } else {
        info.info3 % 0x1_0000
    };
    let start = if first {
        AIC_TARGET_CPU
    } else {
        or_else(layout.irq_cfg, AIC2_IRQ_CFG)
    };
    let bitmap = bitmap_bytes(max_irq);
    let sw_set = at(start, (4 * max_irq) as u64);
    AppleAic {
        base,
        size,
        event_base: at(
            base,
            or_else(
                layout.event_offset,
                if first {
                    AIC_EVENT
                } else {
                    AIC2_EVENT
                },
            ),
        ),
        version: if first {
            1
        } else if layout.version == 3 {
            3
        } else {
            2
        },
        nr_irq: info.info1 % 0x1_0000,
        max_irq,
        nr_die: if first {
            1
        } else {
            ((info.info1 / 0x100_0000) % 16 + 1) as u32
        },
        max_die: if first {
            1
        } else {
            (info.info3 / 0x100_0000) % 16
        },
        mask_set_stride: or_else(layout.mask_set_stride, die_stride(max_irq)),
        mask_clr_stride: or_else(layout.mask_clr_stride, die_stride(max_irq)),
        sw_set,
        sw_clr: at(sw_set, bitmap),
        mask_set: at(at(sw_set, bitmap), bitmap),
        mask_clr: at(at(at(sw_set, bitmap), bitmap), bitmap),
        hw_state: at(at(at(at(sw_set, bitmap), bitmap), bitmap), bitmap),
        target_cpu: if first {
            Some(AIC_TARGET_CPU)
        } else {
            None
        },
    }
}

/// The loads that discover the capabilities.
pub open spec fn discovery(base: u64, layout: AicLayout, info: AicInfo) -> Seq<Access> {
    let first = Access::Read32 {
        addr: at(base, or_else(layout.cap0_offset, AIC2_INFO1)),
        val: info.info1,
    };
    if layout.version == 1 {
        seq![first]
    } else {
        seq![
            first,
            Access::Read32 {
                addr: at(base, or_else(layout.maxnumirq_offset, AIC2_INFO3)),
                val: info.info3,
            },
        ]
    }
}

/// The kind of event, in an event register value.
pub open spec fn event_type(event: u32) -> u32 {
    (event / 0x1_0000) % 0x100
}

/// The interrupt that an event register value reports, if it reports one.
pub open spec fn reported_irq(event: u32) -> Option<u64> {
    if event_type(event) == AIC_EVENT_TYPE_IRQ {
        Some((event % 0x1_0000) as u64)
    } else {
        None
    }
}

impl AppleAic {
    /// The number of interrupts per die, for the purpose of splitting an
    /// interrupt number; never zero.
    pub open spec fn per_die(self) -> u64 {
        if self.max_irq == 0 {
            1
        } else {
            self.max_irq as u64
        }
    }

    /// Where the bit of interrupt `irq_num` is, in the bitmaps that start at
    /// `block` and are `stride` apart.
    pub open spec fn bit_offset(self, block: u64, stride: u64, irq_num: u64) -> u64 {
        let die = irq_num / self.per_die();
        let irq = irq_num % self.per_die();
        at(
            at(block, ((die * stride) % 0x1_0000_0000_0000_0000) as u64),
            (4 * (irq / 32)) as u64,
        )
    }

    /// The bit of interrupt `irq_num` within its word.
    pub open spec fn bit(self, irq_num: u64) -> u32 {
        1u32 << ((irq_num % self.per_die()) % 32)
    }

    /// The store of `val` at `offset`, unless that is outside of the window.
    pub open spec fn guarded_store(self, offset: u64, val: u32) -> Seq<Access> {
        if offset + 4 > self.size {
            Seq::empty()
        } else {
            seq![Access::Write32 { addr: at(self.base, offset), val }]
        }
    }

    /// The accesses that unmask an interrupt.
    pub open spec fn enabling(self, irq_num: u64) -> Seq<Access> {
        self.guarded_store(
            self.bit_offset(self.mask_clr, self.mask_clr_stride, irq_num),
            self.bit(irq_num),
        )
    }

    /// The accesses that mask an interrupt.
    pub open spec fn disabling(self, irq_num: u64) -> Seq<Access> {
        self.guarded_store(
            self.bit_offset(self.mask_set, self.mask_set_stride, irq_num),
            self.bit(irq_num),
        )
    }

    /// Reads the capabilities of the controller behind `base` and lays its
    /// registers out.
    pub fn new<H: Hardware>(bus: &mut Bus<H>, base: u64, size: u64, layout: AicLayout) -> (aic:
        Self)
        ensures
            exists|info: AicInfo|
                #[trigger] described(base, size, layout, info) == aic && final(bus).log() == old(
                    bus,
                ).log() + discovery(base, layout, info),
    {
        let ghost start = bus.log();
        let cap0_off: u64 = or_else(layout.cap0_offset, AIC2_INFO1);
        let info1: u32 = bus.read32(address(base, cap0_off));
        let nr_irq: u32 = info1 % 0x1_0000;
        let mut info3: u32 = 0;
        let mut version: u32 = 1;
        let mut max_irq: u32 = AIC_MAX_IRQ;
        let mut nr_die: u32 = 1;
        let mut max_die: u32 = 1;
        let mut start_off: u64 = AIC_TARGET_CPU;
        let mut target_cpu: Option<u64> = Some(AIC_TARGET_CPU);
        if layout.version != 1 {
            let maxnumirq_off: u64 = or_else(layout.maxnumirq_offset, AIC2_INFO3);
            info3 = bus.read32(address(base, maxnumirq_off));
            max_irq = info3 % 0x1_0000;
            nr_die = (info1 / 0x100_0000) % 16 + 1;
            max_die = (info3 / 0x100_0000) % 16;
            start_off = or_else(layout.irq_cfg, AIC2_IRQ_CFG);
            version = if layout.version == 3 {
                3
            } else {
                2
            };
            target_cpu = None;
        }
        let bitmap: u64 = 4 * (max_irq / 32) as u64;
        let sw_set: u64 = address(start_off, 4 * max_irq as u64);
        let sw_clr: u64 = address(sw_set, bitmap);
        let mask_set: u64 = address(sw_clr, bitmap);
        let mask_clr: u64 = address(mask_set, bitmap);
        let hw_state: u64 = address(mask_clr, bitmap);
        let derived_stride: u64 = 4 * max_irq as u64 + 5 * bitmap;
        let event_offset: u64 = or_else(
            layout.event_offset,
            if version == 1 {
                AIC_EVENT
            } else {
                AIC2_EVENT
            },
        );
        let aic: AppleAic = AppleAic {
            base,
            size,
            event_base: address(base, event_offset),
            version,
            nr_irq,
            max_irq,
            nr_die,
            max_die,
            mask_set_stride: or_else(layout.mask_set_stride, derived_stride),
            mask_clr_stride: or_else(layout.mask_clr_stride, derived_stride),
            sw_set,
            sw_clr,
            mask_set,
            mask_clr,
            hw_state,
            target_cpu,
        };
        proof {
            let info = AicInfo { info1, info3 };
            assert(bus.log() =~= start + discovery(base, layout, info));
            assert(described(base, size, layout, info) == aic);
        }
        aic
    }

    /// Stores a register, unless its offset is outside of the window: such a
    /// store would come back as an asynchronous error far from its cause.
    pub fn write_reg<H: Hardware>(&self, bus: &mut Bus<H>, offset: u64, val: u32)
        ensures
            final(bus).log() == old(bus).log() + self.guarded_store(offset, val),
    {
        let ghost start = bus.log();
        if offset > u64::MAX - 4 || offset + 4 > self.size {
            assert(bus.log() =~= start + Seq::<Access>::empty());
            return;
        }
        bus.write32(address(self.base, offset), val);
        assert(bus.log() =~= start + self.guarded_store(offset, val));
    }

    /// Loads a register.
    pub fn read_reg<H: Hardware>(&self, bus: &mut Bus<H>, offset: u64) -> (val: u32)
        ensures
            final(bus).log() == old(bus).log().push(
                Access::Read32 { addr: at(self.base, offset), val },
            ),
    {
        bus.read32(address(self.base, offset))
    }

    /// Reads the next pending event: its die, its kind, and its number. Reading
    /// acknowledges the interrupt and masks it.
    pub fn read_event<H: Hardware>(&self, bus: &mut Bus<H>) -> (event: (u32, u32, u64))
        ensures
            exists|val: u32|
                {
                    &&& final(bus).log() == old(bus).log().push(
                        Access::Read32 { addr: self.event_base, val },
                    )
                    &&& event.0 == val / 0x100_0000
                    &&& event.1 == #[trigger] event_type(val)
                    &&& event.2 == val % 0x1_0000
                },
    {
        let val: u32 = bus.read32(self.event_base);
        assert(event_type(val) == (val / 0x1_0000) % 0x100);
        (val / 0x100_0000, (val / 0x1_0000) % 0x100, (val % 0x1_0000) as u64)
    }

    /// Reads the number of a pending interrupt, if there is one.
    pub fn pending_irq<H: Hardware>(&self, bus: &mut Bus<H>) -> (irq: Option<u64>)
        ensures
            exists|val: u32|
                {
                    &&& final(bus).log() == old(bus).log().push(
                        Access::Read32 { addr: self.event_base, val },
                    )
                    &&& irq == #[trigger] reported_irq(val)
                    &&& irq is Some <==> (val / 0x1_0000) % 0x100 == 1
                    &&& irq matches Some(num) ==> num == val % 0x1_0000
                },
    {
        let ghost start = bus.log();
        let (_die, kind, irq_num): (u32, u32, u64) = self.read_event(bus);
        proof {
            let val = choose|val: u32|
                {
                    &&& bus.log() == start.push(Access::Read32 { addr: self.event_base, val })
                    &&& kind == #[trigger] event_type(val)
                    &&& irq_num == val % 0x1_0000
                };
            assert(reported_irq(val) == if kind == AIC_EVENT_TYPE_IRQ {
                Some(irq_num)
            } else {
                None
            });
        }
        if kind == AIC_EVENT_TYPE_IRQ {
            Some(irq_num)
        } else {
            None
        }
    }

    /// Computes where the bit of an interrupt is, and the bit itself.
    fn locate(&self, block: u64, stride: u64, irq_num: u64) -> (place: (u64, u32))
        ensures
            place.0 == self.bit_offset(block, stride, irq_num),
            place.1 == self.bit(irq_num),
    {
        let per_die: u64 = if self.max_irq == 0 {
            1
        } else {
            self.max_irq as u64
        };
        let die: u64 = irq_num / per_die;
        let irq: u64 = irq_num % per_die;
        let offset: u64 = address(address(block, die.wrapping_mul(stride)), 4 * (irq / 32));
        (offset, 1u32 << (irq % 32))
    }

    /// Unmasks an interrupt.
    pub fn irq_enable<H: Hardware>(&self, bus: &mut Bus<H>, irq_num: u64)
        ensures
            final(bus).log() == old(bus).log() + self.enabling(irq_num),
    {
        let (offset, bit): (u64, u32) = self.locate(self.mask_clr, self.mask_clr_stride, irq_num);
        self.write_reg(bus, offset, bit);
    }

    /// Masks an interrupt.
    pub fn irq_disable<H: Hardware>(&self, bus: &mut Bus<H>, irq_num: u64)
        ensures
            final(bus).log() == old(bus).log() + self.disabling(irq_num),
    {
        let (offset, bit): (u64, u32) = self.locate(self.mask_set, self.mask_set_stride, irq_num);
        self.write_reg(bus, offset, bit);
    }

    /// The device's name.
    pub fn name(&self) -> (name: &'static str)
        ensures
            name@ == (if self.version >= 2 {
                "apple-aic2"@
            } else {
                "apple-aic"@
            }),
    {
        if self.version >= 2 {
            "apple-aic2"
        } else {
            "apple-aic"
        }
    }

    /// Runs the handler of an interrupt and unmasks it again, because reading the
    /// event masked it.
    pub fn handle_irq<H: Hardware>(&self, bus: &mut Bus<H>, irq_num: u64)
        ensures
            final(bus).log() == old(bus).log().push(Access::DispatchIrq { irq: irq_num })
                + self.enabling(irq_num),
    {
        bus.dispatch_irq(irq_num);
        self.irq_enable(bus, irq_num);
    }

    /// Whether the controller has an interrupt of that number.
    pub fn is_valid_irq(&self, irq_num: u64) -> (valid: bool)
        ensures
            valid == (irq_num < self.max_irq),
    {
        irq_num < self.max_irq as u64
    }

    pub fn mask<H: Hardware>(&self, bus: &mut Bus<H>, irq_num: u64) -> (res: DeviceResult<()>)
        ensures
            res is Ok,
            final(bus).log() == old(bus).log() + self.disabling(irq_num),
    {
        self.irq_disable(bus, irq_num);
        Ok(())
    }

    pub fn unmask<H: Hardware>(&self, bus: &mut Bus<H>, irq_num: u64) -> (res: DeviceResult<()>)
        ensures
            res is Ok,
            final(bus).log() == old(bus).log() + self.enabling(irq_num),
    {
        self.irq_enable(bus, irq_num);
        Ok(())
    }
}

/// Brings an interrupt controller up.
pub fn init<H: Hardware>(bus: &mut Bus<H>, base: u64, size: u64, layout: AicLayout) -> (aic:
    AppleAic)
    ensures
        exists|info: AicInfo|
            #[trigger] described(base, size, layout, info) == aic && final(bus).log() == old(
                bus,
            ).log() + discovery(base, layout, info),
{
    AppleAic::new(bus, base, size, layout)
}

/// Reads the number of a pending interrupt straight from an event register; zero
/// if there is none.
pub fn get_irq_num<H: Hardware>(bus: &mut Bus<H>, event_base: u64) -> (irq: u64)
    ensures
        exists|val: u32|
            {
                &&& final(bus).log() == old(bus).log().push(
                    Access::Read32 { addr: event_base, val },
                )
                &&& irq == match #[trigger] reported_irq(val) {
                    Some(num) => num,
                    None => 0,
                }
                &&& (val / 0x1_0000) % 0x100 == 1 ==> irq == val % 0x1_0000
                &&& (val / 0x1_0000) % 0x100 != 1 ==> irq == 0
            },
{
    let event: u32 = bus.read32(event_base);
    let kind: u32 = (event / 0x1_0000) % 0x100;
    assert(reported_irq(event) is Some == (kind == AIC_EVENT_TYPE_IRQ));
    if kind == AIC_EVENT_TYPE_IRQ {
        (event % 0x1_0000) as u64
    } else {
        0
    }
}

/// Every store that the driver makes stays within the register window.
pub proof fn law_stores_stay_inside(aic: AppleAic, offset: u64, val: u32)
    requires
        aic.base + aic.size <= u64::MAX,
    ensures
        forall|i: int|
            0 <= i < aic.guarded_store(offset, val).len() ==> {
                &&& #[trigger] aic.guarded_store(offset, val)[i] matches Access::Write32 {
                    addr,
                    val: v,
                } && aic.base <= addr && addr + 4 <= aic.base + aic.size
            },
{
}

/// The blocks of a controller whose layout fits the address space do not overlap:
/// each starts where the one before it ends, and the last ends where the next
/// die's begin.
pub proof fn law_blocks_are_disjoint(base: u64, size: u64, layout: AicLayout, info: AicInfo)
    requires
        layout.irq_cfg + 0x10_0000 <= u64::MAX,
    ensures
        ({
            let aic = described(base, size, layout, info);
            let start = if layout.version == 1 {
                AIC_TARGET_CPU
            } else {
                or_else(layout.irq_cfg, AIC2_IRQ_CFG)
            };
            let bitmap = bitmap_bytes(aic.max_irq);
            &&& aic.sw_set == start + 4 * aic.max_irq
            &&& aic.sw_clr == aic.sw_set + bitmap
            &&& aic.mask_set == aic.sw_clr + bitmap
            &&& aic.mask_clr == aic.mask_set + bitmap
            &&& aic.hw_state == aic.mask_clr + bitmap
            &&& aic.hw_state + bitmap == start + die_stride(aic.max_irq)
        }),
{
}

/// The word of an interrupt of the first die lies within the mask bitmap, if the
/// bitmap has a bit for every interrupt.
pub proof fn law_bit_is_in_bitmap(aic: AppleAic, irq_num: u64)
    requires
        irq_num < aic.max_irq,
        aic.max_irq % 32 == 0,
        aic.mask_clr + bitmap_bytes(aic.max_irq) <= u64::MAX,
    ensures
        aic.mask_clr <= aic.bit_offset(aic.mask_clr, aic.mask_clr_stride, irq_num),
        aic.bit_offset(aic.mask_clr, aic.mask_clr_stride, irq_num) + 4 <= aic.mask_clr
            + bitmap_bytes(aic.max_irq),
{
    vstd::arithmetic::div_mod::lemma_small_mod(irq_num as nat, aic.per_die() as nat);
    vstd::arithmetic::div_mod::lemma_basic_div(irq_num as int, aic.per_die() as int);
    assert(0 * aic.mask_clr_stride == 0) by (nonlinear_arith);
}

/// An event register value is made up of a die, a kind and a number, and none of them
/// spills into another: an interrupt is reported under its whole number, whichever die
/// it comes from, and no other kind of event is taken for one.
pub proof fn law_interrupt_is_reported_in_full(die: u32, kind: u32, num: u32)
    requires
        die < 0x100,
        kind < 0x100,
        num < 0x1_0000,
    ensures
        ({
            let event = (die * 0x100_0000 + kind * 0x1_0000 + num) as u32;
            &&& event_type(event) == kind
            &&& event / 0x100_0000 == die
            &&& event % 0x1_0000 == num
            &&& kind == 1 ==> reported_irq(event) == Some(num as u64)
            &&& kind != 1 ==> reported_irq(event) is None
        }),
{
}

/// Two events report the same interrupt only if they carry the same number.
pub proof fn law_interrupts_are_told_apart(a: u32, b: u32)
    requires
        reported_irq(a) is Some,
        reported_irq(a) == reported_irq(b),
    ensures
        exists|die_a: u32, die_b: u32|
            a - #[trigger] (die_a * 0x100_0000) == b - #[trigger] (die_b * 0x100_0000),
{
    let die_a: u32 = a / 0x100_0000;
    let die_b: u32 = b / 0x100_0000;
    assert(a - die_a * 0x100_0000 == b - die_b * 0x100_0000);
}

/// The capability words are read in full: each of their fields can be told from the
/// controller that they make up.
pub proof fn law_capabilities_are_read_in_full(
    base: u64,
    size: u64,
    layout: AicLayout,
    info: AicInfo,
    dies: u32,
    rest1: u32,
    irqs: u32,
    max_dies: u32,
    rest3: u32,
    max_irqs: u32,
)
    requires
        layout.version != 1,
        dies < 0x10,
        max_dies < 0x10,
        rest1 < 0x100,
        rest3 < 0x100,
        irqs < 0x1_0000,
        max_irqs < 0x1_0000,
        info.info1 == dies * 0x100_0000 + rest1 * 0x1_0000 + irqs,
        info.info3 == max_dies * 0x100_0000 + rest3 * 0x1_0000 + max_irqs,
    ensures
        ({
            let aic = described(base, size, layout, info);
            &&& aic.nr_irq == irqs
            &&& aic.max_irq == max_irqs
            &&& aic.nr_die == dies + 1
            &&& aic.max_die == max_dies
            &&& aic.base == base
            &&& aic.size == size
        }),
{
}

/// What the device tree says about the layout takes precedence over what is derived.
pub proof fn law_device_tree_takes_precedence(
    base: u64,
    size: u64,
    layout: AicLayout,
    info: AicInfo,
)
    requires
        base + layout.event_offset <= u64::MAX,
        layout.irq_cfg + 0x10_0000 <= u64::MAX,
    ensures
        ({
            let aic = described(base, size, layout, info);
            &&& layout.event_offset != 0 ==> aic.event_base == base + layout.event_offset
            &&& layout.mask_set_stride != 0 ==> aic.mask_set_stride == layout.mask_set_stride
            &&& layout.mask_clr_stride != 0 ==> aic.mask_clr_stride == layout.mask_clr_stride
            &&& layout.irq_cfg != 0 && layout.version != 1 ==> aic.sw_set - 4 * aic.max_irq
                == layout.irq_cfg
        }),
{
}

/// Every interrupt has a bit of its own: that of number `32 * word + bit` on a die is
/// bit `bit` of word `word` of the die's bitmap. Unmasking sets just this bit in the
/// bitmap for unmasking, and masking sets just this bit in the bitmap for masking.
pub proof fn law_interrupt_has_its_bit(
    aic: AppleAic,
    irq_num: u64,
    die: nat,
    word: nat,
    bit: u32,
)
    requires
        bit < 32,
        32 * word + bit < aic.max_irq,
        irq_num == die * aic.max_irq + 32 * word + bit,
        aic.base + aic.size <= u64::MAX,
        aic.mask_clr + die * aic.mask_clr_stride + 4 * word + 4 <= aic.size,
        aic.mask_set + die * aic.mask_set_stride + 4 * word + 4 <= aic.size,
    ensures
        aic.enabling(irq_num).len() == 1,
        aic.enabling(irq_num)[0] matches Access::Write32 { addr, val } && addr == aic.base
            + aic.mask_clr + die * aic.mask_clr_stride + 4 * word && (forall|k: u32|
            k < 32 ==> ((#[trigger] (val >> k)) & 1 == 1) == (k == bit)),
        aic.disabling(irq_num).len() == 1,
        aic.disabling(irq_num)[0] matches Access::Write32 { addr, val } && addr == aic.base
            + aic.mask_set + die * aic.mask_set_stride + 4 * word && (forall|k: u32|
            k < 32 ==> ((#[trigger] (val >> k)) & 1 == 1) == (k == bit)),
{
    let per_die = aic.max_irq as int;
    let irq = (32 * word + bit) as int;
    vstd::arithmetic::div_mod::lemma_fundamental_div_mod_converse(
        irq_num as int,
        per_die,
        die as int,
        irq,
    );
    assert(die * per_die == per_die * die) by (nonlinear_arith);
    assert(irq_num / aic.per_die() == die);
    assert(irq_num % aic.per_die() == irq);
    assert(die * aic.mask_clr_stride >= 0) by (nonlinear_arith);
    assert(die * aic.mask_set_stride >= 0) by (nonlinear_arith);
    let clr = die * aic.mask_clr_stride;
    let set = die * aic.mask_set_stride;
    vstd::arithmetic::div_mod::lemma_small_mod(clr as nat, 0x1_0000_0000_0000_0000);
    vstd::arithmetic::div_mod::lemma_small_mod(set as nat, 0x1_0000_0000_0000_0000);
    assert(irq / 32 == word && irq % 32 == bit);
    let val = aic.bit(irq_num);
    assert(val == 1u32 << (bit as u64));
    assert(1u32 << (bit as u64) == 1u32 << bit);
    assert forall|k: u32| k < 32 implies ((#[trigger] (val >> k)) & 1 == 1) == (k == bit) by {
        assert(k < 32 && bit < 32 ==> (((1u32 << bit) >> k) & 1 == 1) == (k == bit))
            by (bit_vector);
    }
}

/// The capability words are read where the device tree says that they are, or else where
/// they usually are. Only later generations have the second one.
pub proof fn law_capabilities_are_found(base: u64, layout: AicLayout, info: AicInfo)
    requires
        base + layout.cap0_offset <= u64::MAX,
        base + layout.maxnumirq_offset <= u64::MAX,
        base + 0xc <= u64::MAX,
    ensures
        ({
            let trace = discovery(base, layout, info);
            &&& trace.len() == (if layout.version == 1 {
                1int
            } else {
                2
            })
            &&& trace[0] == (Access::Read32 {
                addr: (base + if layout.cap0_offset != 0 {
                    layout.cap0_offset as int
                } else {
                    4
                }) as u64,
                val: info.info1,
            })
            &&& layout.version != 1 ==> trace[1] == (Access::Read32 {
                addr: (base + if layout.maxnumirq_offset != 0 {
                    layout.maxnumirq_offset as int
                } else {
                    0xc
                }) as u64,
                val: info.info3,
            })
        }),
{
}

} // verus!
