//! Starting further processors of a PC.

use vstd::prelude::*;

use crate::hw::{address, at};

verus! {

/// The page that a processor starts to execute, below one megabyte.
pub const START_PAGE: u8 = 6;
/// Where the started processor looks for its page table.
pub const AP_PAGE_TABLE: u64 = 0x6ff8;
/// Where the started processor looks for its entry point.
pub const AP_ENTRY: u64 = 0x6ff0;
/// Where the started processor looks for its stack.
pub const AP_STACK: u64 = 0x6fe8;
/// The code that the started processor executes.
pub const AP_CODE: u64 = 0x6000;
/// The registers of the local interrupt controller.
pub const XAPIC_BASE: u64 = 0xfee0_0000;

/// A step of starting further processors.
#[derive(Debug, Clone, Copy, PartialEq, Eq, Structural)]
pub enum ApStep {
    /// Stores the low half of the page table's address.
    StorePageTable(u64),
    /// Stores the address of the entry point.
    StoreEntry(u64),
    /// Copies the code that is executed first.
    CopyCode(u64),
    /// Takes over the local interrupt controller.
    OpenApic(u64),
    /// Stores the address of the stack for a processor.
    StoreStack { addr: u64, apic_id: u8 },
    Init(u8),
    InitDeassert,
    Startup { apic_id: u8, page: u8 },
    /// Waits so many microseconds.
    Delay(u64),
}

/// How one processor is started. The second startup is for processors that miss
/// the first.
pub open spec fn starting_one(apic_id: u8, offset: u64) -> Seq<ApStep> {
    seq![
        ApStep::StoreStack { addr: at(AP_STACK, offset), apic_id },
        ApStep::Init(apic_id),
        ApStep::Delay(200),
        ApStep::InitDeassert,
        ApStep::Delay(10000),
        ApStep::Startup { apic_id, page: START_PAGE },
        ApStep::Delay(200),
        ApStep::Startup { apic_id, page: START_PAGE },
        ApStep::Delay(200),
        ApStep::Delay(10000),
    ]
}

/// How several processors are started, one after the other.
pub open spec fn starting_each(ap_ids: Seq<u8>, offset: u64) -> Seq<ApStep>
    decreases ap_ids.len(),
{
    if ap_ids.len() == 0 {
        Seq::empty()
    } else {
        starting_each(ap_ids.drop_last(), offset) + starting_one(ap_ids.last(), offset)
    }
}

/// How the processors are started. `offset` is the distance between virtual and
/// physical addresses.
pub open spec fn starting(ap_ids: Seq<u8>, offset: u64) -> Seq<ApStep> {
    if ap_ids.len() == 0 {
        Seq::empty()
    } else {
        seq![
            ApStep::StorePageTable(at(AP_PAGE_TABLE, offset)),
            ApStep::StoreEntry(at(AP_ENTRY, offset)),
            ApStep::CopyCode(at(AP_CODE, offset)),
            ApStep::OpenApic(at(XAPIC_BASE, offset)),
        ] + starting_each(ap_ids, offset)
    }
}

/// How the processors `ap_ids` are started, in order.
pub fn start_application_processors(ap_ids: &[u8], offset: u64) -> (steps: Vec<ApStep>)
    ensures
        steps@ == starting(ap_ids@, offset),
{
    let mut steps: Vec<ApStep> = Vec::new();
    if ap_ids.len() == 0 {
        assert(steps@ =~= starting(ap_ids@, offset));
        return steps;
    }
    steps.push(ApStep::StorePageTable(address(AP_PAGE_TABLE, offset)));
    steps.push(ApStep::StoreEntry(address(AP_ENTRY, offset)));
    steps.push(ApStep::CopyCode(address(AP_CODE, offset)));
    steps.push(ApStep::OpenApic(address(XAPIC_BASE, offset)));
    let ghost head = steps@;
    let mut i: usize = 0;
    assert(steps@ =~= head + starting_each(ap_ids@.take(0), offset));
    while i < ap_ids.len()
        invariant
            i <= ap_ids@.len(),
            ap_ids@.len() == ap_ids.len(),
            steps@ == head + starting_each(ap_ids@.take(i as int), offset),
        decreases ap_ids.len() - i,
    {
        let apic_id: u8 = ap_ids[i];
        let ghost before = steps@;
        steps.push(ApStep::StoreStack { addr: address(AP_STACK, offset), apic_id });
        steps.push(ApStep::Init(apic_id));
        steps.push(ApStep::Delay(200));
        steps.push(ApStep::InitDeassert);
        steps.push(ApStep::Delay(10000));
        steps.push(ApStep::Startup { apic_id, page: START_PAGE });
        steps.push(ApStep::Delay(200));
        steps.push(ApStep::Startup { apic_id, page: START_PAGE });
        steps.push(ApStep::Delay(200));
        steps.push(ApStep::Delay(10000));
        proof {
            assert(steps@ =~= before + starting_one(apic_id, offset));
            assert(ap_ids@.take(i + 1).drop_last() =~= ap_ids@.take(i as int));
            assert(ap_ids@.take(i + 1).last() == apic_id);
            assert(steps@ =~= head + starting_each(ap_ids@.take(i + 1), offset));
        }
        i += 1;
    }
    assert(ap_ids@.take(i as int) =~= ap_ids@);
    assert(steps@ =~= starting(ap_ids@, offset));
    steps
}

/// What the time stamp counter shows when `us` microseconds are over, on a processor
/// that runs at `mhz` megahertz, if it shows `start` now.
pub fn delay_us(start: u64, mhz: u16, us: u64) -> (end: u64)
    requires
        start + mhz * us <= u64::MAX,
    ensures
        end == start + mhz * us,
{
    assert(0 <= mhz * us) by (nonlinear_arith);
    start + mhz as u64 * us
}

proof fn lemma_started(ap_ids: Seq<u8>, offset: u64, i: int)
    requires
        0 <= i < ap_ids.len(),
    ensures
        starting_each(ap_ids, offset).len() == 10 * ap_ids.len(),
        starting_each(ap_ids, offset).subrange(10 * i, 10 * i + 10) == starting_one(
            ap_ids[i],
            offset,
        ),
    decreases ap_ids.len(),
{
    let before = ap_ids.drop_last();
    let one = starting_one(ap_ids.last(), offset);
    let all = starting_each(ap_ids, offset);
    if before.len() == 0 {
        assert(starting_each(before, offset) =~= Seq::empty());
    } else {
        lemma_started(
            before,
            offset,
            if i < before.len() {
                i
            } else {
                0
            },
        );
    }
    if i < before.len() {
        assert(all.subrange(10 * i, 10 * i + 10) =~= starting_each(before, offset).subrange(
            10 * i,
            10 * i + 10,
        ));
    } else {
        assert(all.subrange(10 * i, 10 * i + 10) =~= one);
    }
}

/// Every processor is started, in order, and before the next one: it gets a stack, it is
/// reset, and it is told twice to start at the page to which the code was copied before. In
/// between it is given time.
pub proof fn law_every_processor_is_started(ap_ids: Seq<u8>, offset: u64, i: int)
    requires
        0 <= i < ap_ids.len(),
        offset + 0xfee0_0000 <= u64::MAX,
    ensures
        ({
            let steps = starting(ap_ids, offset);
            let id = ap_ids[i];
            let n = 4 + 10 * i;
            &&& steps.len() == 4 + 10 * ap_ids.len()
            &&& steps[2] matches ApStep::CopyCode(code) && {
                &&& steps[n] == ApStep::StoreStack { addr: (code + 0xfe8) as u64, apic_id: id }
                &&& steps[n + 1] == ApStep::Init(id)
                &&& steps[n + 3] == ApStep::InitDeassert
                &&& steps[n + 5] matches ApStep::Startup { apic_id, page } && apic_id == id
                    && page * 0x1000 + offset == code
                &&& steps[n + 7] == steps[n + 5]
                &&& steps[n + 2] is Delay && steps[n + 4] is Delay && steps[n + 6] is Delay
            }
            &&& steps[0] matches ApStep::StorePageTable(table) && steps[1] matches ApStep::StoreEntry(
                entry,
            ) && table == offset + 0x6ff8 && entry == offset + 0x6ff0
        }),
{
    let steps = starting(ap_ids, offset);
    lemma_started(ap_ids, offset, i);
    let one = starting_one(ap_ids[i], offset);
    let each = starting_each(ap_ids, offset);
    assert forall|k: int| 0 <= k < 10 implies steps[4 + 10 * i + k] == #[trigger] one[k] by {
        assert(each.subrange(10 * i, 10 * i + 10)[k] == one[k]);
        assert(steps[4 + 10 * i + k] == each[10 * i + k]);
    }
    assert(one[0] == steps[4 + 10 * i] && one[1] == steps[5 + 10 * i] && one[2] == steps[6 + 10
        * i] && one[3] == steps[7 + 10 * i] && one[4] == steps[8 + 10 * i] && one[5] == steps[9
        + 10 * i] && one[6] == steps[10 + 10 * i] && one[7] == steps[11 + 10 * i]);
}

} // verus!
