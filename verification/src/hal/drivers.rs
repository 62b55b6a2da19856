//! The devices that the kernel has found, and how drivers reach memory.

use std::sync::Arc;

use vstd::prelude::*;

use crate::bus::PageSize;
use crate::display::DisplayState;
use crate::hw::{address, at, extends, since, Access, Bus, CachePolicy, Hardware, MmuFlags};
use crate::scheme::Scheme;
use crate::text::same_bytes;

verus! {

/// Devices that offer the same interface, in the order in which they were found.
pub struct DeviceList<T: Scheme> {
    devices: Vec<Arc<T>>,
}

impl<T: Scheme> DeviceList<T> {
    pub closed spec fn devices(&self) -> Seq<Arc<T>> {
        self.devices@
    }

    /// A list without devices.
    pub fn new() -> (list: Self)
        ensures
            list.devices() == Seq::<Arc<T>>::empty(),
    {
        DeviceList { devices: Vec::new() }
    }

    /// Adds a device at the end.
    pub fn add(&mut self, dev: Arc<T>)
        ensures
            final(self).devices() == old(self).devices().push(dev),
    {
        self.devices.push(dev);
    }

    /// All devices.
    pub fn as_vec(&self) -> (all: &Vec<Arc<T>>)
        ensures
            all@ == self.devices(),
    {
        &self.devices
    }

    /// The device at a position, if there is one.
    pub fn try_get(&self, idx: usize) -> (dev: Option<Arc<T>>)
        ensures
            dev == (if idx < self.devices().len() {
                Some(self.devices()[idx as int])
            } else {
                None
            }),
    {
        if idx < self.devices.len() {
            Some(self.devices[idx].clone())
        } else {
            None
        }
    }

    /// The first device with the given name, if there is one.
    pub fn find(&self, name: &str) -> (dev: Option<Arc<T>>)
        ensures
            match dev {
                Some(d) => exists|i: int|
                    {
                        &&& 0 <= i < self.devices().len()
                        &&& d == #[trigger] self.devices()[i]
                        &&& d.spec_name() == name@
                        &&& forall|k: int|
                            0 <= k < i ==> (#[trigger] self.devices()[k]).spec_name() != name@
                    },
                None => forall|k: int|
                    0 <= k < self.devices().len() ==> (#[trigger] self.devices()[k]).spec_name()
                        != name@,
            },
    {
        let mut i: usize = 0;
        while i < self.devices.len()
            invariant
                i <= self.devices@.len(),
                forall|k: int|
                    0 <= k < i ==> (#[trigger] self.devices@[k]).spec_name() != name@,
            decreases self.devices.len() - i,
        {
            let found: &str = self.devices[i].name();
            let same: bool = same_bytes(found.as_bytes(), name.as_bytes());
            proof {
                vstd::utf8::encode_utf8_decode_utf8(found@);
                vstd::utf8::encode_utf8_decode_utf8(name@);
                assert(same == (self.devices@[i as int].spec_name() == name@));
            }
            if same {
                let dev: Arc<T> = self.devices[i].clone();
                assert(dev == self.devices()[i as int]);
                return Some(dev);
            }
            i += 1;
        }
        None
    }

    /// The first device, if there is one.
    pub fn first(&self) -> (dev: Option<Arc<T>>)
        ensures
            dev == (if self.devices().len() > 0 {
                Some(self.devices()[0])
            } else {
                None
            }),
    {
        self.try_get(0)
    }

    /// The first device of a list that is not empty.
    pub fn first_unwrap(&self) -> (dev: Arc<T>)
        requires
            self.devices().len() > 0,
        ensures
            dev == self.devices()[0],
    {
        self.devices[0].clone()
    }
}

impl<T: Scheme> Default for DeviceList<T> {
    fn default() -> (list: Self)
        ensures
            list.devices() == Seq::<Arc<T>>::empty(),
    {
        Self::new()
    }
}

/// A device, by the interface that it offers.
pub enum Device<B, D, I, Q, N, U, M> {
    Block(Arc<B>),
    Display(Arc<D>),
    Input(Arc<I>),
    Irq(Arc<Q>),
    Net(Arc<N>),
    Uart(Arc<U>),
    Drm(Arc<M>),
}

/// All devices.
pub struct AllDeviceList<
    B: Scheme,
    D: Scheme,
    I: Scheme,
    Q: Scheme,
    N: Scheme,
    U: Scheme,
    M: Scheme,
> {
    pub block: DeviceList<B>,
    pub display: DeviceList<D>,
    pub input: DeviceList<I>,
    pub irq: DeviceList<Q>,
    pub net: DeviceList<N>,
    pub uart: DeviceList<U>,
    pub drm: DeviceList<M>,
}

impl<
    B: Scheme,
    D: Scheme,
    I: Scheme,
    Q: Scheme,
    N: Scheme,
    U: Scheme,
    M: Scheme,
> AllDeviceList<B, D, I, Q, N, U, M> {
    /// No device has been found yet.
    pub fn new() -> (all: Self)
        ensures
            all.block.devices().len() == 0,
            all.display.devices().len() == 0,
            all.input.devices().len() == 0,
            all.irq.devices().len() == 0,
            all.net.devices().len() == 0,
            all.uart.devices().len() == 0,
            all.drm.devices().len() == 0,
    {
        AllDeviceList {
            block: DeviceList::new(),
            display: DeviceList::new(),
            input: DeviceList::new(),
            irq: DeviceList::new(),
            net: DeviceList::new(),
            uart: DeviceList::new(),
            drm: DeviceList::new(),
        }
    }

    /// Adds a device to the list of its kind. The other lists stay as they are.
    pub fn add_device(&mut self, dev: Device<B, D, I, Q, N, U, M>)
        ensures
            final(self).block.devices() == match dev {
                Device::Block(d) => old(self).block.devices().push(d),
                _ => old(self).block.devices(),
            },
            final(self).display.devices() == match dev {
                Device::Display(d) => old(self).display.devices().push(d),
                _ => old(self).display.devices(),
            },
            final(self).input.devices() == match dev {
                Device::Input(d) => old(self).input.devices().push(d),
                _ => old(self).input.devices(),
            },
            final(self).irq.devices() == match dev {
                Device::Irq(d) => old(self).irq.devices().push(d),
                _ => old(self).irq.devices(),
            },
            final(self).net.devices() == match dev {
                Device::Net(d) => old(self).net.devices().push(d),
                _ => old(self).net.devices(),
            },
            final(self).uart.devices() == match dev {
                Device::Uart(d) => old(self).uart.devices().push(d),
                _ => old(self).uart.devices(),
            },
            final(self).drm.devices() == match dev {
                Device::Drm(d) => old(self).drm.devices().push(d),
                _ => old(self).drm.devices(),
            },
    {
        match dev {
            Device::Block(d) => self.block.add(d),
            Device::Display(d) => self.display.add(d),
            Device::Input(d) => self.input.add(d),
            Device::Irq(d) => self.irq.add(d),
            Device::Net(d) => self.net.add(d),
            Device::Uart(d) => self.uart.add(d),
            Device::Drm(d) => self.drm.add(d),
        }
    }
}

/// All block devices.
pub fn all_block<B: Scheme, D: Scheme, I: Scheme, Q: Scheme, N: Scheme, U: Scheme, M: Scheme>(
    all: &AllDeviceList<B, D, I, Q, N, U, M>,
) -> (list: &DeviceList<B>)
    ensures
        *list == all.block,
{
    &all.block
}

/// All displays.
pub fn all_display<B: Scheme, D: Scheme, I: Scheme, Q: Scheme, N: Scheme, U: Scheme, M: Scheme>(
    all: &AllDeviceList<B, D, I, Q, N, U, M>,
) -> (list: &DeviceList<D>)
    ensures
        *list == all.display,
{
    &all.display
}

/// All input devices.
pub fn all_input<B: Scheme, D: Scheme, I: Scheme, Q: Scheme, N: Scheme, U: Scheme, M: Scheme>(
    all: &AllDeviceList<B, D, I, Q, N, U, M>,
) -> (list: &DeviceList<I>)
    ensures
        *list == all.input,
{
    &all.input
}

/// All interrupt controllers.
pub fn all_irq<B: Scheme, D: Scheme, I: Scheme, Q: Scheme, N: Scheme, U: Scheme, M: Scheme>(
    all: &AllDeviceList<B, D, I, Q, N, U, M>,
) -> (list: &DeviceList<Q>)
    ensures
        *list == all.irq,
{
    &all.irq
}

/// All network devices.
pub fn all_net<B: Scheme, D: Scheme, I: Scheme, Q: Scheme, N: Scheme, U: Scheme, M: Scheme>(
    all: &AllDeviceList<B, D, I, Q, N, U, M>,
) -> (list: &DeviceList<N>)
    ensures
        *list == all.net,
{
    &all.net
}

/// All serial ports.
pub fn all_uart<B: Scheme, D: Scheme, I: Scheme, Q: Scheme, N: Scheme, U: Scheme, M: Scheme>(
    all: &AllDeviceList<B, D, I, Q, N, U, M>,
) -> (list: &DeviceList<U>)
    ensures
        *list == all.uart,
{
    &all.uart
}

/// All direct rendering devices.
pub fn all_drm<B: Scheme, D: Scheme, I: Scheme, Q: Scheme, N: Scheme, U: Scheme, M: Scheme>(
    all: &AllDeviceList<B, D, I, Q, N, U, M>,
) -> (list: &DeviceList<M>)
    ensures
        *list == all.drm,
{
    &all.drm
}

/// The processor architecture that the kernel runs on.
#[derive(Debug, Clone, Copy, PartialEq, Eq, Structural)]
pub enum Arch {
    X86_64,
    Aarch64,
    Riscv64,
}

/// Enables the nouveau-compatible ioctl surface. Only x86-64 has the driver for it.
pub fn set_nouveau_uapi_enabled(arch: Arch, state: &mut DisplayState, v: bool)
    ensures
        *final(state) == (DisplayState {
            nouveau_uapi_enabled: if arch == Arch::X86_64 {
                v
            } else {
                old(state).nouveau_uapi_enabled
            },
        }),
{
    if arch == Arch::X86_64 {
        crate::display::set_nouveau_uapi_enabled(state, v);
    }
}

/// Hands over a source of thread identities. The display driver has no use for
/// one.
pub fn set_rm_thread_id_provider(_arch: Arch, state: &mut DisplayState, thread_id: u64)
    ensures
        *final(state) == *old(state),
{
    crate::display::set_rm_thread_id_provider(state, thread_id);
}

/// Whether the nouveau-compatible ioctl surface is enabled.
pub fn nouveau_uapi_enabled(arch: Arch, state: &DisplayState) -> (enabled: bool)
    ensures
        enabled == (arch == Arch::X86_64 && state.nouveau_uapi_enabled),
{
    if arch == Arch::X86_64 {
        crate::display::nouveau_uapi_enabled(state)
    } else {
        false
    }
}

/// The address of page `i` from `base` on.
pub open spec fn page(base: u64, i: int, size: PageSize) -> u64 {
    at(base, ((i * size.bytes()) % 0x1_0000_0000_0000_0000) as u64)
}

/// The releases of `pages` page frames from `paddr` on.
pub open spec fn frames_freed(paddr: u64, pages: nat, size: PageSize) -> Seq<Access> {
    Seq::new(pages, |i: int| Access::FreeFrame { paddr: page(paddr, i, size) })
}

/// Allocates contiguous page frames for DMA. There is nothing to fall back to when
/// there are none.
pub fn drivers_dma_alloc<H: Hardware>(bus: &mut Bus<H>, pages: u64) -> (paddr: Option<u64>)
    ensures
        final(bus).log() == old(bus).log().push(Access::AllocFrames { pages, paddr }),
{
    bus.alloc_frames(pages)
}

/// Releases page frames, one by one.
pub fn drivers_dma_dealloc<H: Hardware>(
    bus: &mut Bus<H>,
    paddr: u64,
    pages: u64,
    size: PageSize,
) -> (code: i32)
    ensures
        code == 0,
        final(bus).log() == old(bus).log() + frames_freed(paddr, pages as nat, size),
{
    let ghost start = bus.log();
    let mut i: u64 = 0;
    assert(bus.log() =~= start + frames_freed(paddr, 0, size));
    while i < pages
        invariant
            i <= pages,
            bus.log() == start + frames_freed(paddr, i as nat, size),
        decreases pages - i,
    {
        bus.free_frame(address(paddr, i.wrapping_mul(size.bytes())));
        assert(bus.log() =~= start + frames_freed(paddr, (i + 1) as nat, size));
        i += 1;
    }
    0
}

/// The flags of memory that devices write to behind the processor's back.
pub open spec fn device_flags() -> MmuFlags {
    MmuFlags { read: true, write: true, device: true, cache: CachePolicy::UncachedDevice }
}

/// `trace` makes one page uncached: a page that is mapped gets new flags, and one
/// that is not is mapped. A mapping larger than a page cannot be changed.
pub open spec fn marks_page(
    vaddr: u64,
    paddr: u64,
    size: PageSize,
    trace: Seq<Access>,
    ok: bool,
) -> bool {
    &&& trace.len() >= 1
    &&& trace[0] matches Access::QueryPage { vaddr: v, found } && v == vaddr && match found {
        Some((_, mapped)) => if mapped != size.bytes() {
            trace.len() == 1 && !ok
        } else {
            trace.len() == 2 && trace[1] == Access::UpdatePage {
                vaddr,
                flags: device_flags(),
                ok,
            }
        },
        None => trace.len() == 2 && trace[1] == Access::MapPage {
            vaddr,
            size: size.bytes(),
            paddr,
            flags: device_flags(),
            ok,
        },
    }
}

/// `trace` makes the first `n` pages uncached.
pub open spec fn pages_marked(
    vaddr: u64,
    paddr: u64,
    size: PageSize,
    n: nat,
    trace: Seq<Access>,
) -> bool
    decreases n,
{
    if n == 0 {
        trace.len() == 0
    } else {
        exists|m: int|
            {
                &&& 0 <= m <= trace.len()
                &&& #[trigger] marks_page(
                    page(vaddr, n - 1, size),
                    page(paddr, n - 1, size),
                    size,
                    trace.skip(m),
                    true,
                )
                &&& pages_marked(vaddr, paddr, size, (n - 1) as nat, trace.take(m))
            }
    }
}

/// What making pages uncached leads to: it ends at the first page for which it
/// fails, and else with a flush of the translation buffers.
pub open spec fn marks_uncached(
    offset: u64,
    paddr: u64,
    pages: nat,
    size: PageSize,
    trace: Seq<Access>,
    code: i32,
) -> bool {
    let vaddr = at(paddr, offset);
    if paddr == 0 || pages == 0 {
        code == -1 && trace.len() == 0
    } else if code == 0 {
        &&& trace.len() >= 1
        &&& pages_marked(vaddr, paddr, size, pages, trace.drop_last())
        &&& trace.last() == Access::FlushTlb
    } else {
        &&& code == -1
        &&& exists|k: nat, m: int|
            {
                &&& k < pages
                &&& 0 <= m <= trace.len()
                &&& #[trigger] pages_marked(vaddr, paddr, size, k, trace.take(m))
                &&& marks_page(
                    page(vaddr, k as int, size),
                    page(paddr, k as int, size),
                    size,
                    trace.skip(m),
                    false,
                )
            }
    }
}

/// Makes one page uncached.
fn mark_page<H: Hardware>(bus: &mut Bus<H>, vaddr: u64, paddr: u64, size: PageSize) -> (ok: bool)
    ensures
        extends(old(bus).log(), final(bus).log()),
        marks_page(vaddr, paddr, size, since(old(bus).log(), final(bus).log()), ok),
{
    let ghost start = bus.log();
    let flags: MmuFlags = MmuFlags {
        read: true,
        write: true,
        device: true,
        cache: CachePolicy::UncachedDevice,
    };
    let ok: bool = match bus.query_page(vaddr) {
        Some((_, mapped)) => if mapped != size.bytes() {
            false
        } else {
            bus.update_page(vaddr, flags)
        },
        None => bus.map_page(vaddr, size.bytes(), paddr, flags),
    };
    assert(bus.log().take(start.len() as int) =~= start);
    ok
}

/// Makes the direct map of `pages` page frames from `paddr` on uncached. `offset`
/// is the distance between virtual and physical addresses.
pub fn drivers_dma_mark_uncached<H: Hardware>(
    bus: &mut Bus<H>,
    offset: u64,
    paddr: u64,
    pages: u64,
    size: PageSize,
) -> (code: i32)
    ensures
        extends(old(bus).log(), final(bus).log()),
        marks_uncached(
            offset,
            paddr,
            pages as nat,
            size,
            since(old(bus).log(), final(bus).log()),
            code,
        ),
{
    let ghost start = bus.log();
    proof {
        crate::hw::lemma_since_self(start);
    }
    if paddr == 0 || pages == 0 {
        return -1;
    }
    let vaddr: u64 = address(paddr, offset);
    let mut i: u64 = 0;
    while i < pages
        invariant
            start == old(bus).log(),
            i <= pages,
            paddr != 0,
            vaddr == at(paddr, offset),
            extends(start, bus.log()),
            pages_marked(vaddr, paddr, size, i as nat, since(start, bus.log())),
        decreases pages - i,
    {
        let ghost before = bus.log();
        let step: u64 = i.wrapping_mul(size.bytes());
        let ok: bool = mark_page(bus, address(vaddr, step), address(paddr, step), size);
        proof {
            crate::hw::lemma_since_chain(start, before, bus.log());
            let trace = since(start, bus.log());
            let m = since(start, before).len() as int;
            assert(marks_page(
                page(vaddr, i as int, size),
                page(paddr, i as int, size),
                size,
                trace.skip(m),
                ok,
            ));
            if ok {
                assert((i + 1) as nat - 1 == i);
                assert(pages_marked(vaddr, paddr, size, (i + 1) as nat, trace));
            } else {
                assert(pages_marked(vaddr, paddr, size, i as nat, trace.take(m)));
            }
        }
        if !ok {
            return -1;
        }
        i += 1;
    }
    let ghost marked = bus.log();
    bus.flush_tlb();
    proof {
        crate::hw::lemma_since_push(start, marked, Access::FlushTlb);
        assert(since(start, bus.log()).drop_last() =~= since(start, marked));
    }
    0
}

/// A look at a page that found it uncached.
pub open spec fn found_uncached(access: Access, vaddr: u64) -> bool {
    access matches Access::QueryPage { vaddr: v, found } && v == vaddr && (found matches Some((
        flags,
        _,
    )) && (flags.cache == CachePolicy::Uncached || flags.cache == CachePolicy::UncachedDevice))
}

/// What looking whether pages are uncached leads to: it ends at the first page that
/// is not.
pub open spec fn verifies_uncached(
    offset: u64,
    paddr: u64,
    pages: nat,
    size: PageSize,
    trace: Seq<Access>,
    code: i32,
) -> bool {
    let vaddr = at(paddr, offset);
    if paddr == 0 || pages == 0 {
        code == -1 && trace.len() == 0
    } else if code == 0 {
        &&& trace.len() == pages
        &&& forall|i: int|
            0 <= i < pages ==> found_uncached(#[trigger] trace[i], page(vaddr, i, size))
    } else {
        &&& code == -1
        &&& 1 <= trace.len() <= pages
        &&& forall|i: int|
            0 <= i < trace.len() - 1 ==> found_uncached(
                #[trigger] trace[i],
                page(vaddr, i, size),
            )
        &&& trace.last() matches Access::QueryPage { vaddr: v, found } && v == page(
            vaddr,
            trace.len() - 1,
            size,
        ) && !found_uncached(trace.last(), v)
    }
}

/// Looks whether the direct map of `pages` page frames from `paddr` on is uncached.
pub fn drivers_dma_verify_uncached<H: Hardware>(
    bus: &mut Bus<H>,
    offset: u64,
    paddr: u64,
    pages: u64,
    size: PageSize,
) -> (code: i32)
    ensures
        extends(old(bus).log(), final(bus).log()),
        verifies_uncached(
            offset,
            paddr,
            pages as nat,
            size,
            since(old(bus).log(), final(bus).log()),
            code,
        ),
{
    let ghost start = bus.log();
    proof {
        crate::hw::lemma_since_self(start);
    }
    if paddr == 0 || pages == 0 {
        return -1;
    }
    let vaddr: u64 = address(paddr, offset);
    let mut i: u64 = 0;
    while i < pages
        invariant
            start == old(bus).log(),
            i <= pages,
            paddr != 0,
            pages != 0,
            vaddr == at(paddr, offset),
            extends(start, bus.log()),
            since(start, bus.log()).len() == i,
            forall|k: int|
                0 <= k < i ==> found_uncached(
                    #[trigger] since(start, bus.log())[k],
                    page(vaddr, k, size),
                ),
        decreases pages - i,
    {
        let ghost before = bus.log();
        let va: u64 = address(vaddr, i.wrapping_mul(size.bytes()));
        let found: Option<(MmuFlags, u64)> = bus.query_page(va);
        proof {
            crate::hw::lemma_since_push(start, before, Access::QueryPage { vaddr: va, found });
        }
        let uncached: bool = match found {
            None => false,
            Some((flags, _)) => flags.cache == CachePolicy::Uncached || flags.cache
                == CachePolicy::UncachedDevice,
        };
        if !uncached {
            return -1;
        }
        i += 1;
    }
    0
}

/// Page frames are released one after the other, each once and none besides.
pub proof fn law_every_frame_is_freed(paddr: u64, pages: nat, size: PageSize, i: int)
    requires
        0 <= i < pages,
        paddr + pages * size.bytes() <= u64::MAX,
    ensures
        frames_freed(paddr, pages, size).len() == pages,
        frames_freed(paddr, pages, size)[i] matches Access::FreeFrame { paddr: freed } && freed
            == paddr + i * size.bytes(),
{
    lemma_page(paddr, pages, size, i);
}

proof fn lemma_page(base: u64, pages: nat, size: PageSize, i: int)
    requires
        0 <= i < pages,
        base + pages * size.bytes() <= u64::MAX,
    ensures
        page(base, i, size) == base + i * size.bytes(),
{
    assert(0 <= i * size.bytes() < pages * size.bytes()) by (nonlinear_arith)
        requires
            0 <= i < pages,
            size.bytes() > 0,
    ;
    vstd::arithmetic::div_mod::lemma_small_mod(
        (i * size.bytes()) as nat,
        0x1_0000_0000_0000_0000,
    );
}

/// `access` makes the page at `vaddr` one that devices may write to: it can be read and
/// written, and is not cached. If the page is new it stands for the frame at `paddr`.
pub open spec fn uncaches(access: Access, vaddr: int, paddr: int, size: int) -> bool {
    match access {
        Access::UpdatePage { vaddr: v, flags, ok } => ok && v == vaddr && flags.read && flags.write
            && flags.cache == CachePolicy::UncachedDevice,
        Access::MapPage { vaddr: v, size: s, paddr: p, flags, ok } => ok && v == vaddr && s == size
            && p == paddr && flags.read && flags.write && flags.cache
            == CachePolicy::UncachedDevice,
        _ => false,
    }
}

proof fn lemma_marked(vaddr: u64, paddr: u64, size: PageSize, n: nat, trace: Seq<Access>, i: int)
    requires
        pages_marked(vaddr, paddr, size, n, trace),
        0 <= i < n,
        vaddr + n * size.bytes() <= u64::MAX,
        paddr + n * size.bytes() <= u64::MAX,
    ensures
        trace.len() == 2 * n,
        uncaches(
            trace[2 * i + 1],
            vaddr + i * size.bytes(),
            paddr + i * size.bytes(),
            size.bytes() as int,
        ),
    decreases n,
{
    let m = choose|m: int|
        {
            &&& 0 <= m <= trace.len()
            &&& #[trigger] marks_page(
                page(vaddr, n - 1, size),
                page(paddr, n - 1, size),
                size,
                trace.skip(m),
                true,
            )
            &&& pages_marked(vaddr, paddr, size, (n - 1) as nat, trace.take(m))
        };
    assert((n - 1) * size.bytes() <= n * size.bytes()) by (nonlinear_arith)
        requires
            size.bytes() > 0,
    ;
    if n > 1 {
        lemma_marked(
            vaddr,
            paddr,
            size,
            (n - 1) as nat,
            trace.take(m),
            if i < n - 1 {
                i
            } else {
                0
            },
        );
    }
    if i < n - 1 {
        assert(trace.take(m)[2 * i + 1] == trace[2 * i + 1]);
    } else {
        lemma_page(vaddr, n, size, i);
        lemma_page(paddr, n, size, i);
        assert(trace.skip(m)[1] == trace[m + 1]);
    }
}

/// When page frames were made uncached, every one of them was: each page of the direct
/// map that stands for one of them, up to the last. The translation buffers are flushed
/// after that.
pub proof fn law_every_page_is_uncached(
    offset: u64,
    paddr: u64,
    pages: nat,
    size: PageSize,
    trace: Seq<Access>,
    i: int,
)
    requires
        marks_uncached(offset, paddr, pages, size, trace, 0),
        paddr + offset + pages * size.bytes() <= u64::MAX,
        0 <= i < pages,
    ensures
        trace.len() == 2 * pages + 1,
        uncaches(
            trace[2 * i + 1],
            paddr + offset + i * size.bytes(),
            paddr + i * size.bytes(),
            size.bytes() as int,
        ),
        trace.last() is FlushTlb,
{
    lemma_marked(at(paddr, offset), paddr, size, pages, trace.drop_last(), i);
}

/// Page frames are said to be uncached only if every page that stands for one of them
/// was looked at and found to be so.
pub proof fn law_every_page_is_looked_at(
    offset: u64,
    paddr: u64,
    pages: nat,
    size: PageSize,
    trace: Seq<Access>,
    i: int,
)
    requires
        verifies_uncached(offset, paddr, pages, size, trace, 0),
        paddr + offset + pages * size.bytes() <= u64::MAX,
        0 <= i < pages,
    ensures
        trace.len() == pages,
        trace[i] matches Access::QueryPage { vaddr, found } && vaddr == paddr + offset + i
            * size.bytes() && (found matches Some((flags, _)) && (flags.cache
            == CachePolicy::Uncached || flags.cache == CachePolicy::UncachedDevice)),
{
    lemma_page(at(paddr, offset), pages, size, i);
    assert(found_uncached(trace[i], page(at(paddr, offset), i, size)));
}

} // verus!
