//! Bringing the machine up.

use vstd::prelude::*;

use crate::boot::adt::name_bytes;
use crate::boot::fdt::Region;
use crate::hal::config::{KernelConfig, VIRTIO_BASE};
use crate::hal::trap::GIC_CPU_OFFSET;
use crate::hw::{address, at};
use crate::text::{has_infix, occurs_in};

verus! {

/// Whether the firmware is that of an Apple machine, which has neither a GIC nor
/// VirtIO devices.
pub open spec fn spec_is_apple(firmware_type: &str) -> bool {
    occurs_in(name_bytes("Apple"), name_bytes(firmware_type)) || occurs_in(
        name_bytes("Asahi"),
        name_bytes(firmware_type),
    )
}

#[verifier::when_used_as_spec(spec_is_apple)]
pub fn is_apple(firmware_type: &str) -> (yes: bool)
    ensures
        yes == spec_is_apple(firmware_type),
{
    has_infix(firmware_type.as_bytes(), "Apple".as_bytes()) || has_infix(
        firmware_type.as_bytes(),
        "Asahi".as_bytes(),
    )
}

/// The boot command line.
pub fn cmdline<'a>(config: &KernelConfig<'a>) -> (cmdline: &'a str)
    ensures
        cmdline == config.cmdline,
{
    config.cmdline
}

/// Where the initial RAM disk is in the direct map, and its size.
pub fn init_ram_disk(region: Option<Region>, offset: u64) -> (place: Option<(u64, u64)>)
    ensures
        place == match region {
            Some(r) => Some(
                (
                    at(r.start, offset),
                    if r.end >= r.start {
                        (r.end - r.start) as u64
                    } else {
                        0
                    },
                ),
            ),
            None => None,
        },
{
    match region {
        Some(r) => Some((address(r.start, offset), r.end.saturating_sub(r.start))),
        None => None,
    }
}

/// A serial port to drive, by its virtual address.
#[derive(Debug, Clone, Copy, PartialEq, Eq, Structural)]
pub enum EarlyUart {
    AppleS5l(u64),
    Pl011(u64),
}

/// The serial port that is brought up first.
pub fn init_early(config: &KernelConfig<'_>) -> (uart: EarlyUart)
    ensures
        uart == (if is_apple(config.firmware_type) {
            EarlyUart::AppleS5l(at(config.uart_base, config.phys_to_virt_offset))
        } else {
            EarlyUart::Pl011(at(config.uart_base, config.phys_to_virt_offset))
        }),
{
    let base: u64 = address(config.uart_base, config.phys_to_virt_offset);
    if is_apple(config.firmware_type) {
        EarlyUart::AppleS5l(base)
    } else {
        EarlyUart::Pl011(base)
    }
}

/// What is taken over at the very start: the command line, and the first serial
/// port.
pub fn primary_init_early<'a>(config: &KernelConfig<'a>) -> (taken: (&'a str, EarlyUart))
    ensures
        taken.0 == config.cmdline,
        taken.1 == (if is_apple(config.firmware_type) {
            EarlyUart::AppleS5l(at(config.uart_base, config.phys_to_virt_offset))
        } else {
            EarlyUart::Pl011(at(config.uart_base, config.phys_to_virt_offset))
        }),
{
    (cmdline(config), init_early(config))
}

/// A step of bringing devices up.
#[derive(Debug, Clone, Copy, PartialEq, Eq, Structural)]
pub enum DeviceStep {
    /// A GIC is brought up, by the virtual addresses of its two halves.
    Gic { cpu: u64, dist: u64 },
    /// An interrupt is enabled.
    Enable(u64),
    /// The serial port handles an interrupt.
    UartHandler(u64),
    /// The timer is armed by an interrupt.
    TimerHandler(u64),
    /// The GIC joins the devices.
    AddGic,
    /// A VirtIO disk is brought up and joins the devices.
    VirtioBlk(u64),
}

/// How devices are brought up. Nothing is done on Apple machines, whose devices are
/// found elsewhere.
pub open spec fn device_steps(config: KernelConfig<'_>) -> Seq<DeviceStep> {
    let offset = config.phys_to_virt_offset;
    if is_apple(config.firmware_type) {
        Seq::empty()
    } else {
        (if config.gic_base != 0 {
            seq![
                DeviceStep::Gic {
                    cpu: at(at(config.gic_base, GIC_CPU_OFFSET), offset),
                    dist: at(config.gic_base, offset),
                },
                DeviceStep::Enable(30),
                DeviceStep::Enable(33),
                DeviceStep::UartHandler(33),
                DeviceStep::TimerHandler(30),
                DeviceStep::AddGic,
            ]
        } else {
            Seq::empty()
        }) + seq![DeviceStep::VirtioBlk(at(VIRTIO_BASE, offset))]
    }
}

/// How devices are brought up, in order.
pub fn init(config: &KernelConfig<'_>) -> (steps: Vec<DeviceStep>)
    ensures
        steps@ == device_steps(*config),
{
    let mut steps: Vec<DeviceStep> = Vec::new();
    if is_apple(config.firmware_type) {
        assert(steps@ =~= device_steps(*config));
        return steps;
    }
    let offset: u64 = config.phys_to_virt_offset;
    if config.gic_base != 0 {
        steps.push(
            DeviceStep::Gic {
                cpu: address(address(config.gic_base, GIC_CPU_OFFSET), offset),
                dist: address(config.gic_base, offset),
            },
        );
        steps.push(DeviceStep::Enable(30));
        steps.push(DeviceStep::Enable(33));
        steps.push(DeviceStep::UartHandler(33));
        steps.push(DeviceStep::TimerHandler(30));
        steps.push(DeviceStep::AddGic);
    }
    steps.push(DeviceStep::VirtioBlk(address(VIRTIO_BASE, offset)));
    assert(steps@ =~= device_steps(*config));
    steps
}

/// A step of bringing the first processor up.
#[derive(Clone, Copy)]
pub enum InitStep {
    /// Early output.
    Say(&'static str),
    /// The kernel's page table is put in place.
    Vm,
    /// The devices are brought up.
    Drivers,
}

/// How the first processor is brought up.
pub open spec fn init_steps() -> Seq<InitStep> {
    seq![
        InitStep::Say("HVLOG: hal: vm::init\n"),
        InitStep::Vm,
        InitStep::Say("HVLOG: hal: drivers::init\n"),
        InitStep::Drivers,
        InitStep::Say("HVLOG: hal: primary_init done\n"),
    ]
}

/// How the first processor is brought up, in order.
pub fn primary_init() -> (steps: [InitStep; 5])
    ensures
        steps@ == init_steps(),
{
    let steps: [InitStep; 5] = [
        InitStep::Say("HVLOG: hal: vm::init\n"),
        InitStep::Vm,
        InitStep::Say("HVLOG: hal: drivers::init\n"),
        InitStep::Drivers,
        InitStep::Say("HVLOG: hal: primary_init done\n"),
    ];
    assert(steps@ =~= init_steps());
    steps
}

/// Interrupts are enabled and get their handlers once their controller is up, which
/// joins the devices last. Its halves are in the direct map, a fixed distance apart. Where
/// there is no controller only the disk is brought up, and nothing is on an Apple machine.
pub proof fn law_devices_come_up_in_order(config: KernelConfig<'_>)
    requires
        config.gic_base + 0x1_0000 + config.phys_to_virt_offset <= u64::MAX,
        0x0a00_0000 + config.phys_to_virt_offset <= u64::MAX,
    ensures
        ({
            let steps = device_steps(config);
            &&& is_apple(config.firmware_type) ==> steps.len() == 0
            &&& !is_apple(config.firmware_type) ==> steps.last() == DeviceStep::VirtioBlk(
                (0x0a00_0000 + config.phys_to_virt_offset) as u64,
            )
            &&& !is_apple(config.firmware_type) && config.gic_base == 0 ==> steps.len() == 1
            &&& !is_apple(config.firmware_type) && config.gic_base != 0 ==> {
                &&& steps.len() == 7
                &&& steps[0] matches DeviceStep::Gic { cpu, dist } && dist == config.gic_base
                    + config.phys_to_virt_offset && cpu == dist + 0x1_0000
                &&& steps.subrange(1, 3).contains(DeviceStep::Enable(30))
                &&& steps.subrange(1, 3).contains(DeviceStep::Enable(33))
                &&& steps.subrange(3, 5).contains(DeviceStep::UartHandler(33))
                &&& steps.subrange(3, 5).contains(DeviceStep::TimerHandler(30))
                &&& steps[5] == DeviceStep::AddGic
            }
        }),
{
    let steps = device_steps(config);
    if !is_apple(config.firmware_type) && config.gic_base != 0 {
        assert(steps.subrange(1, 3)[0] == DeviceStep::Enable(30));
        assert(steps.subrange(1, 3)[1] == DeviceStep::Enable(33));
        assert(steps.subrange(3, 5)[0] == DeviceStep::UartHandler(33));
        assert(steps.subrange(3, 5)[1] == DeviceStep::TimerHandler(30));
    }
}

/// The firmware of an Apple machine is known by either name, wherever it stands in the
/// text.
pub proof fn law_apple_firmware_is_recognized(
    firmware_type: &str,
    before: Seq<u8>,
    after: Seq<u8>,
)
    requires
        name_bytes(firmware_type) == before + name_bytes("Apple") + after || name_bytes(
            firmware_type,
        ) == before + name_bytes("Asahi") + after,
    ensures
        is_apple(firmware_type),
{
    let text = name_bytes(firmware_type);
    let i = before.len() as int;
    let apple = name_bytes("Apple");
    let asahi = name_bytes("Asahi");
    if text == before + apple + after {
        assert(text.subrange(i, i + apple.len()) =~= apple);
    } else {
        assert(text.subrange(i, i + asahi.len()) =~= asahi);
    }
}

} // verus!
