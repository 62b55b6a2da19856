//! Starting the kernel.

use vstd::prelude::*;

use crate::boot::entry::{early_print, EarlyConsole};
use crate::hal::early::crlf;
use crate::hw::{Bus, Hardware};
use crate::words::{split, split_on, strings};

verus! {

/// A step of starting the kernel on its first processor.
#[derive(Clone, Copy)]
pub enum MainStep {
    /// Reports progress.
    Stage(&'static str),
    /// Brings logging up.
    Logging,
    /// Brings the heap up.
    Memory,
    /// Takes over the configuration.
    InitEarly,
    /// Reads the boot options, and sets the log level to what they say.
    BootOptions,
    /// Hands free memory to the frame allocator.
    InsertRegions,
    /// Brings the machine up.
    Init,
    /// Lets the other processors go on.
    MarkStarted,
    /// Runs the first process and waits for its end.
    RunRoot,
}

/// How the kernel is started.
pub open spec fn main_steps() -> Seq<MainStep> {
    seq![
        MainStep::Stage("HVLOG: stage: logging\n"),
        MainStep::Logging,
        MainStep::Stage("HVLOG: stage: memory\n"),
        MainStep::Memory,
        MainStep::Stage("HVLOG: stage: primary_init_early\n"),
        MainStep::InitEarly,
        MainStep::Stage("HVLOG: stage: boot_options\n"),
        MainStep::BootOptions,
        MainStep::Stage("HVLOG: stage: insert_regions\n"),
        MainStep::InsertRegions,
        MainStep::Stage("HVLOG: stage: primary_init\n"),
        MainStep::Init,
        MainStep::Stage("HVLOG: stage: run root proc\n"),
        MainStep::MarkStarted,
        MainStep::RunRoot,
    ]
}

/// How the kernel is started, in order.
pub fn primary_main() -> (steps: [MainStep; 15])
    ensures
        steps@ == main_steps(),
{
    let steps: [MainStep; 15] = [
        MainStep::Stage("HVLOG: stage: logging\n"),
        MainStep::Logging,
        MainStep::Stage("HVLOG: stage: memory\n"),
        MainStep::Memory,
        MainStep::Stage("HVLOG: stage: primary_init_early\n"),
        MainStep::InitEarly,
        MainStep::Stage("HVLOG: stage: boot_options\n"),
        MainStep::BootOptions,
        MainStep::Stage("HVLOG: stage: insert_regions\n"),
        MainStep::InsertRegions,
        MainStep::Stage("HVLOG: stage: primary_init\n"),
        MainStep::Init,
        MainStep::Stage("HVLOG: stage: run root proc\n"),
        MainStep::MarkStarted,
        MainStep::RunRoot,
    ];
    assert(steps@ =~= main_steps());
    steps
}

/// Reports progress, on boards that can this early.
pub fn stage<H: Hardware>(bus: &mut Bus<H>, console: EarlyConsole, msg: &str)
    ensures
        final(bus).log() == old(bus).log() + console.says(crlf(vstd::utf8::encode_utf8(msg@))),
{
    early_print(bus, console, msg);
}

/// The arguments of the first process, which the boot options separate by question
/// marks.
pub fn root_args(root_proc: &str) -> (args: Vec<String>)
    ensures
        strings(args@) == split(root_proc@, '?'),
{
    split_on(root_proc, '?')
}

/// The environment of the first process.
pub fn root_envs() -> (envs: Vec<String>)
    ensures
        strings(envs@) == seq!["PATH=/usr/sbin:/usr/bin:/sbin:/bin"@],
{
    let mut envs: Vec<String> = Vec::new();
    envs.push(String::from_str("PATH=/usr/sbin:/usr/bin:/sbin:/bin"));
    assert(strings(envs@) =~= seq!["PATH=/usr/sbin:/usr/bin:/sbin:/bin"@]);
    envs
}

/// A step of starting a further processor.
#[derive(Debug, Clone, Copy, PartialEq, Eq, Structural)]
pub enum SecondaryStep {
    /// Spins until the first processor has come far enough.
    AwaitStarted,
    /// Brings the processor up.
    Init,
    /// Serves as a disk from now on.
    MockDisk,
    /// Runs tasks until the end.
    WaitForExit,
}

/// How a further processor is started. One of them plays the disk, where there is
/// to be one: `taken` says whether that part is taken.
pub open spec fn secondary_steps(mock_disk: bool, taken: bool) -> Seq<SecondaryStep> {
    if mock_disk && !taken {
        seq![
            SecondaryStep::AwaitStarted,
            SecondaryStep::Init,
            SecondaryStep::MockDisk,
            SecondaryStep::WaitForExit,
        ]
    } else {
        seq![SecondaryStep::AwaitStarted, SecondaryStep::Init, SecondaryStep::WaitForExit]
    }
}

/// How a further processor is started, in order.
pub fn secondary_main(mock_disk: bool, mock_core: &mut bool) -> (steps: Vec<SecondaryStep>)
    ensures
        steps@ == secondary_steps(mock_disk, *old(mock_core)),
        *final(mock_core) == (*old(mock_core) || mock_disk),
{
    let mut steps: Vec<SecondaryStep> = Vec::new();
    steps.push(SecondaryStep::AwaitStarted);
    steps.push(SecondaryStep::Init);
    if mock_disk && !*mock_core {
        *mock_core = true;
        steps.push(SecondaryStep::MockDisk);
    }
    steps.push(SecondaryStep::WaitForExit);
    assert(steps@ =~= secondary_steps(mock_disk, *old(mock_core)));
    steps
}

/// Whether `a` is a step of `steps` that comes before `b`, which is one too.
pub open spec fn comes_before(steps: Seq<MainStep>, a: MainStep, b: MainStep) -> bool {
    exists|i: int, j: int| 0 <= i < j < steps.len() && #[trigger] steps[i] == a && #[trigger] steps[j] == b
}

/// The kernel is started in an order in which every step has what it needs: there is a
/// heap before the configuration is taken over, the options are read before frames are
/// handed out, the machine is up before other processors go on, and they go on before
/// the first process runs, which is last.
pub proof fn law_kernel_is_started_in_order()
    ensures
        comes_before(main_steps(), MainStep::Logging, MainStep::Memory),
        comes_before(main_steps(), MainStep::Memory, MainStep::InitEarly),
        comes_before(main_steps(), MainStep::InitEarly, MainStep::BootOptions),
        comes_before(main_steps(), MainStep::BootOptions, MainStep::InsertRegions),
        comes_before(main_steps(), MainStep::InsertRegions, MainStep::Init),
        comes_before(main_steps(), MainStep::Init, MainStep::MarkStarted),
        comes_before(main_steps(), MainStep::MarkStarted, MainStep::RunRoot),
        main_steps().last() == MainStep::RunRoot,
        forall|i: int|
            0 <= i < 7 ==> #[trigger] main_steps()[2 * i] is Stage,
        forall|i: int|
            0 <= i < 7 ==> !(#[trigger] main_steps()[2 * i + 1] is Stage),
{
    let steps = main_steps();
    assert(steps[1] == MainStep::Logging);
    assert(steps[3] == MainStep::Memory);
    assert(steps[5] == MainStep::InitEarly);
    assert(steps[7] == MainStep::BootOptions);
    assert(steps[9] == MainStep::InsertRegions);
    assert(steps[11] == MainStep::Init);
    assert(steps[13] == MainStep::MarkStarted);
    assert(steps[14] == MainStep::RunRoot);
}

/// However many processors are started, one at most plays the disk: the first, where
/// there is to be one. `taken` holds whether that part was taken before each of them. All
/// of them wait for the first processor, and run tasks in the end.
pub proof fn law_one_processor_plays_the_disk(mock_disk: bool, taken: Seq<bool>, i: int)
    requires
        0 <= i < taken.len(),
        !taken[0],
        forall|k: int| 0 < k < taken.len() ==> #[trigger] taken[k] == (taken[k - 1] || mock_disk),
    ensures
        ({
            let steps = secondary_steps(mock_disk, taken[i]);
            &&& steps.contains(SecondaryStep::MockDisk) <==> mock_disk && i == 0
            &&& steps[0] == SecondaryStep::AwaitStarted
            &&& steps[1] == SecondaryStep::Init
            &&& steps.last() == SecondaryStep::WaitForExit
        }),
    decreases i,
{
    if i > 0 {
        law_one_processor_plays_the_disk(mock_disk, taken, i - 1);
        assert(taken[i] == (taken[i - 1] || mock_disk));
    }
    let steps = secondary_steps(mock_disk, taken[i]);
    if mock_disk && !taken[i] {
        assert(steps[2] == SecondaryStep::MockDisk);
    }
}

} // verus!
