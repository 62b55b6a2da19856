//! Getting files from the network.

use vstd::prelude::*;

use crate::words::{decimal, to_decimal};
use crate::xtask::plan::{
    attempt, join, must, path_join, Action, ActionView, ArgView, Base, BaseView, Cmd, CmdView, Plan,
    StepView,
};

verus! {

/// Calls `random` of the `rand` crate. Nothing is claimed of the number.
#[verifier::external_body]
fn random_number() -> (n: u64) {
    rand::random()
}

/// The name of a temporary place.
pub open spec fn temporary(n: nat) -> Seq<char> {
    path_join("/tmp"@, decimal(n))
}

/// A temporary place, named by a random number.
pub fn temporary_place() -> (path: String)
    ensures
        exists|n: u64| path@ == #[trigger] temporary(n as nat),
{
    let n: u64 = random_number();
    let path: String = join("/tmp", to_decimal(n).as_str());
    assert(path@ == temporary(n as nat));
    path
}

/// The command that downloads a file, with `wget` or, where that is missing, with
/// `curl`.
pub open spec fn download(has_wget: bool, url: Seq<char>, tmp: Seq<char>) -> CmdView {
    if has_wget {
        CmdView::new(BaseView::Program("wget"@)).arg(url).arg("-O"@).arg(tmp)
    } else {
        CmdView::new(BaseView::Program("curl"@)).arg("-fSL"@).arg(url).arg("-o"@).arg(tmp)
    }
}

/// Finds out how to download `url` to the temporary place `tmp`: the command to run, or
/// nothing if the file that it is for exists already.
pub fn wget(exists: bool, has_wget: bool, url: &str, tmp: &str) -> (cmd: Option<Cmd>)
    ensures
        match cmd {
            Some(cmd) => !exists && cmd@ == download(has_wget, url@, tmp@),
            None => exists,
        },
{
    if exists {
        return None;
    }
    let cmd: Cmd = if has_wget {
        Cmd::new(Base::Program(String::from_str("wget"))).arg(url).arg("-O").arg(tmp)
    } else {
        Cmd::new(Base::Program(String::from_str("curl"))).arg("-fSL").arg(url).arg("-o").arg(tmp)
    };
    Some(cmd)
}

/// The command that clones a repository.
pub fn clone_repo(repo: &str, tmp: &str) -> (cmd: Cmd)
    ensures
        cmd@ == CmdView::new(BaseView::GitClone { repo: repo@, dir: tmp@ }),
{
    Cmd::new(Base::GitClone { repo: String::from_str(repo), dir: String::from_str(tmp) })
}

/// What comes after the command that was to bring something to `tmp`. It is copied
/// to `dst` if the command succeeded, and the temporary place goes in any case.
pub open spec fn after_fetch(success: bool, is_dir: bool, dst: Seq<char>, tmp: Seq<char>) -> Seq<
    StepView,
> {
    if success {
        seq![
            must(ActionView::CreateParent(dst)),
            must(
                if is_dir {
                    ActionView::CopyDir { from: tmp, to: dst }
                } else {
                    ActionView::Copy { from: tmp, to: dst }
                },
            ),
            attempt(ActionView::Remove(tmp)),
        ]
    } else {
        seq![attempt(ActionView::Remove(tmp))]
    }
}

/// What comes before something is brought to `dst`: what was there goes.
pub fn before_fetch(dst: &str) -> (plan: Plan)
    ensures
        plan@ == seq![attempt(ActionView::Remove(dst@))],
{
    let mut plan: Plan = Plan::new();
    plan.attempt(Action::Remove(String::from_str(dst)));
    assert(plan@ =~= seq![attempt(ActionView::Remove(dst@))]);
    plan
}

/// What comes after the command that was to bring something to `tmp`.
pub fn finish_fetch(success: bool, is_dir: bool, dst: &str, tmp: &str) -> (plan: Plan)
    ensures
        plan@ == after_fetch(success, is_dir, dst@, tmp@),
{
    let mut plan: Plan = Plan::new();
    if success {
        plan.must(Action::CreateParent(String::from_str(dst)));
        let from: String = String::from_str(tmp);
        let to: String = String::from_str(dst);
        if is_dir {
            plan.must(Action::CopyDir { from, to });
        } else {
            plan.must(Action::Copy { from, to });
        }
    }
    plan.attempt(Action::Remove(String::from_str(tmp)));
    assert(plan@ =~= after_fetch(success, is_dir, dst@, tmp@));
    plan
}

/// Nothing stays at the temporary place, however the command ended.
pub proof fn law_temporary_goes(success: bool, is_dir: bool, dst: Seq<char>, tmp: Seq<char>)
    ensures
        after_fetch(success, is_dir, dst, tmp).last() == attempt(ActionView::Remove(tmp)),
{
}

/// A download goes to the temporary place, and from there to its destination, for which
/// there is room by then. Nothing comes to the destination when the command failed.
pub proof fn law_download_arrives(
    has_wget: bool,
    url: Seq<char>,
    success: bool,
    is_dir: bool,
    dst: Seq<char>,
    tmp: Seq<char>,
)
    ensures
        ({
            let cmd = download(has_wget, url, tmp);
            let plan = after_fetch(success, is_dir, dst, tmp);
            &&& cmd.args.contains(ArgView::Plain(url))
            &&& cmd.args.last() == ArgView::Plain(tmp)
            &&& !success ==> plan.len() == 1
            &&& success ==> plan.len() == 3 && plan[0].action == ActionView::CreateParent(dst)
                && plan[1].action == (if is_dir {
                ActionView::CopyDir { from: tmp, to: dst }
            } else {
                ActionView::Copy { from: tmp, to: dst }
            })
        }),
{
    let cmd = download(has_wget, url, tmp);
    assert(cmd.args[0] == ArgView::Plain(url) || cmd.args[1] == ArgView::Plain(url));
}

} // verus!
