//! Plans: what is to be done, in order.

use vstd::prelude::*;

use crate::words::strings;

use crate::xtask::arch::Arch;
use crate::xtask::suites::SuiteDir;

verus! {

/// What a command starts out as.
pub enum Base {
    Cargo(CargoSub),
    GitConfig { global: bool },
    GitSubmoduleUpdate { init: bool },
    /// Clones the newest state of the main branch of a repository.
    GitClone { repo: String, dir: String },
    Make,
    /// Unpacks an archive.
    Tar { from: String, to: String },
    QemuImg,
    /// An emulator for the given architecture.
    QemuSystem(String),
    Objcopy,
    Objdump,
    /// Any other program.
    Program(String),
}

#[derive(Debug, Clone, Copy, PartialEq, Eq, Structural)]
pub enum CargoSub {
    Build,
    Clippy,
    Doc,
    Fmt,
    Run,
    Update,
}

/// [`Base`], in the mathematical world.
pub enum BaseView {
    Cargo(CargoSub),
    GitConfig { global: bool },
    GitSubmoduleUpdate { init: bool },
    GitClone { repo: Seq<char>, dir: Seq<char> },
    Make,
    Tar { from: Seq<char>, to: Seq<char> },
    QemuImg,
    QemuSystem(Seq<char>),
    Objcopy,
    Objdump,
    Program(Seq<char>),
}

impl View for Base {
    type V = BaseView;

    open spec fn view(&self) -> BaseView {
        match *self {
            Base::Cargo(sub) => BaseView::Cargo(sub),
            Base::GitConfig { global } => BaseView::GitConfig { global },
            Base::GitSubmoduleUpdate { init } => BaseView::GitSubmoduleUpdate { init },
            Base::GitClone { repo, dir } => BaseView::GitClone { repo: repo@, dir: dir@ },
            Base::Make => BaseView::Make,
            Base::Tar { from, to } => BaseView::Tar { from: from@, to: to@ },
            Base::QemuImg => BaseView::QemuImg,
            Base::QemuSystem(arch) => BaseView::QemuSystem(arch@),
            Base::Objcopy => BaseView::Objcopy,
            Base::Objdump => BaseView::Objdump,
            Base::Program(name) => BaseView::Program(name@),
        }
    }
}

/// An argument of a command.
pub enum Arg {
    Plain(String),
    AllFeatures,
    /// The features to build with, and whether the default ones are among them.
    Features { default: bool, list: Vec<String> },
    Target(String),
    Package(String),
    Release,
    /// As many jobs at a time as there can be.
    AllJobs,
}

/// [`Arg`], in the mathematical world.
pub enum ArgView {
    Plain(Seq<char>),
    AllFeatures,
    Features { default: bool, list: Seq<Seq<char>> },
    Target(Seq<char>),
    Package(Seq<char>),
    Release,
    AllJobs,
}

impl View for Arg {
    type V = ArgView;

    open spec fn view(&self) -> ArgView {
        match *self {
            Arg::Plain(text) => ArgView::Plain(text@),
            Arg::AllFeatures => ArgView::AllFeatures,
            Arg::Features { default, list } => ArgView::Features { default, list: strings(list@) },
            Arg::Target(target) => ArgView::Target(target@),
            Arg::Package(name) => ArgView::Package(name@),
            Arg::Release => ArgView::Release,
            Arg::AllJobs => ArgView::AllJobs,
        }
    }
}

/// A command to run.
pub struct Cmd {
    pub base: Base,
    pub args: Vec<Arg>,
    /// Environment variables to set, by name and value.
    pub envs: Vec<(String, String)>,
    /// The directory to run in, if not the current one.
    pub dir: Option<String>,
}

/// [`Cmd`], in the mathematical world.
pub struct CmdView {
    pub base: BaseView,
    pub args: Seq<ArgView>,
    pub envs: Seq<(Seq<char>, Seq<char>)>,
    pub dir: Option<Seq<char>>,
}

impl View for Cmd {
    type V = CmdView;

    open spec fn view(&self) -> CmdView {
        CmdView {
            base: self.base@,
            args: Seq::new(self.args@.len(), |i: int| self.args@[i]@),
            envs: Seq::new(self.envs@.len(), |i: int| (self.envs@[i].0@, self.envs@[i].1@)),
            dir: match self.dir {
                Some(dir) => Some(dir@),
                None => None,
            },
        }
    }
}

impl CmdView {
    /// A command without arguments.
    pub open spec fn new(base: BaseView) -> Self {
        CmdView { base, args: Seq::empty(), envs: Seq::empty(), dir: None }
    }

    /// The command with one more argument.
    pub open spec fn add(self, arg: ArgView) -> Self {
        CmdView { args: self.args.push(arg), ..self }
    }

    /// The command with one more plain argument.
    pub open spec fn arg(self, text: Seq<char>) -> Self {
        self.add(ArgView::Plain(text))
    }

    /// The command with one more environment variable.
    pub open spec fn env(self, name: Seq<char>, value: Seq<char>) -> Self {
        CmdView { envs: self.envs.push((name, value)), ..self }
    }

    /// The command in a directory.
    pub open spec fn within(self, dir: Seq<char>) -> Self {
        CmdView { dir: Some(dir), ..self }
    }
}

impl Cmd {
    pub fn new(base: Base) -> (cmd: Self)
        ensures
            cmd@ == CmdView::new(base@),
    {
        let cmd: Cmd = Cmd { base, args: Vec::new(), envs: Vec::new(), dir: None };
        assert(cmd@.args =~= Seq::<ArgView>::empty());
        assert(cmd@.envs =~= Seq::<(Seq<char>, Seq<char>)>::empty());
        cmd
    }

    /// Adds an argument.
    pub fn add(self, arg: Arg) -> (cmd: Self)
        ensures
            cmd@ == self@.add(arg@),
    {
        let mut cmd: Cmd = self;
        cmd.args.push(arg);
        assert(cmd@.args =~= self@.args.push(arg@));
        assert(cmd@.envs =~= self@.envs);
        cmd
    }

    /// Adds a plain argument.
    pub fn arg(self, text: &str) -> (cmd: Self)
        ensures
            cmd@ == self@.arg(text@),
    {
        self.add(Arg::Plain(String::from_str(text)))
    }

    /// Sets an environment variable.
    pub fn env(self, name: &str, value: &str) -> (cmd: Self)
        ensures
            cmd@ == self@.env(name@, value@),
    {
        let mut cmd: Cmd = self;
        cmd.envs.push((String::from_str(name), String::from_str(value)));
        assert(cmd@.args =~= self@.args);
        assert(cmd@.envs =~= self@.envs.push((name@, value@)));
        cmd
    }

    /// Sets the directory to run in.
    pub fn within(self, dir: &str) -> (cmd: Self)
        ensures
            cmd@ == self@.within(dir@),
    {
        let mut cmd: Cmd = self;
        cmd.dir = Some(String::from_str(dir));
        assert(cmd@.args =~= self@.args);
        assert(cmd@.envs =~= self@.envs);
        cmd
    }
}

/// Something to do.
#[allow(inconsistent_fields)]
pub enum Action {
    Run(Cmd),
    /// Makes a directory that is there and empty.
    Clear(String),
    CreateDirs(String),
    CreateParent(String),
    Remove(String),
    Copy { from: String, to: String },
    CopyDir { from: String, to: String },
    Write { path: String, text: String },
    /// Makes `link` lead to `target`.
    Symlink { target: String, link: String },
    /// Makes `link` lead to where the link `like` leads.
    Relink { like: String, link: String },
    /// Runs a command and keeps its output in a file.
    RunInto { cmd: Cmd, path: String },
    /// Clones a repository.
    Clone { repo: String, to: String },
    /// Makes the file system image of a directory.
    Fuse { dir: String, image: String },
    /// Makes a file larger.
    Grow { path: String, bytes: u64 },
    /// Downloads a file, unless it is there.
    Fetch { url: String, to: String },
    Print(String),
    /// Says which variable a build is given.
    PrintVariable { name: String, value: String },
    /// Takes what is not kept out of a directory of the C library's test suite: see
    /// [`crate::xtask::suites::prune`].
    Prune { dir: SuiteDir, path: String },
    /// Makes the minimal root file system, unless it is there.
    MakeRootfs(Arch),
    /// Makes the image of the root file system.
    MakeImage(Arch),
    /// Puts the C library's test suite into the root file system.
    PutLibcTest(Arch),
}

/// [`Action`], in the mathematical world.
#[allow(inconsistent_fields)]
pub enum ActionView {
    Run(CmdView),
    Clear(Seq<char>),
    CreateDirs(Seq<char>),
    CreateParent(Seq<char>),
    Remove(Seq<char>),
    Copy { from: Seq<char>, to: Seq<char> },
    CopyDir { from: Seq<char>, to: Seq<char> },
    Write { path: Seq<char>, text: Seq<char> },
    Symlink { target: Seq<char>, link: Seq<char> },
    Relink { like: Seq<char>, link: Seq<char> },
    RunInto { cmd: CmdView, path: Seq<char> },
    Clone { repo: Seq<char>, to: Seq<char> },
    Fuse { dir: Seq<char>, image: Seq<char> },
    Grow { path: Seq<char>, bytes: u64 },
    Fetch { url: Seq<char>, to: Seq<char> },
    Print(Seq<char>),
    PrintVariable { name: Seq<char>, value: Seq<char> },
    Prune { dir: SuiteDir, path: Seq<char> },
    MakeRootfs(Arch),
    MakeImage(Arch),
    PutLibcTest(Arch),
}

impl View for Action {
    type V = ActionView;

    open spec fn view(&self) -> ActionView {
        match *self {
            Action::Run(cmd) => ActionView::Run(cmd@),
            Action::Clear(path) => ActionView::Clear(path@),
            Action::CreateDirs(path) => ActionView::CreateDirs(path@),
            Action::CreateParent(path) => ActionView::CreateParent(path@),
            Action::Remove(path) => ActionView::Remove(path@),
            Action::Copy { from, to } => ActionView::Copy { from: from@, to: to@ },
            Action::CopyDir { from, to } => ActionView::CopyDir { from: from@, to: to@ },
            Action::Write { path, text } => ActionView::Write { path: path@, text: text@ },
            Action::Symlink { target, link } => ActionView::Symlink {
                target: target@,
                link: link@,
            },
            Action::Relink { like, link } => ActionView::Relink { like: like@, link: link@ },
            Action::RunInto { cmd, path } => ActionView::RunInto { cmd: cmd@, path: path@ },
            Action::Clone { repo, to } => ActionView::Clone { repo: repo@, to: to@ },
            Action::Fuse { dir, image } => ActionView::Fuse { dir: dir@, image: image@ },
            Action::Grow { path, bytes } => ActionView::Grow { path: path@, bytes },
            Action::Fetch { url, to } => ActionView::Fetch { url: url@, to: to@ },
            Action::Print(text) => ActionView::Print(text@),
            Action::PrintVariable { name, value } => ActionView::PrintVariable {
                name: name@,
                value: value@,
            },
            Action::Prune { dir, path } => ActionView::Prune { dir, path: path@ },
            Action::MakeRootfs(arch) => ActionView::MakeRootfs(arch),
            Action::MakeImage(arch) => ActionView::MakeImage(arch),
            Action::PutLibcTest(arch) => ActionView::PutLibcTest(arch),
        }
    }
}

/// What becomes of a plan when one of its steps fails.
#[derive(Debug, Clone, Copy, PartialEq, Eq, Structural)]
pub enum OnError {
    /// The plan ends with an error.
    Report,
    /// The program ends.
    Panic,
    /// The plan goes on.
    Ignore,
}

/// A step of a plan.
pub struct Step {
    pub action: Action,
    pub on_error: OnError,
}

/// [`Step`], in the mathematical world.
pub struct StepView {
    pub action: ActionView,
    pub on_error: OnError,
}

impl View for Step {
    type V = StepView;

    open spec fn view(&self) -> StepView {
        StepView { action: self.action@, on_error: self.on_error }
    }
}

/// A step without which the plan has failed.
pub open spec fn must(action: ActionView) -> StepView {
    StepView { action, on_error: OnError::Report }
}

/// A step without which the program cannot go on.
pub open spec fn vital(action: ActionView) -> StepView {
    StepView { action, on_error: OnError::Panic }
}

/// A step that may fail.
pub open spec fn attempt(action: ActionView) -> StepView {
    StepView { action, on_error: OnError::Ignore }
}

/// Steps to take, in order.
pub struct Plan {
    pub steps: Vec<Step>,
}

impl View for Plan {
    type V = Seq<StepView>;

    open spec fn view(&self) -> Seq<StepView> {
        Seq::new(self.steps@.len(), |i: int| self.steps@[i]@)
    }
}

impl Plan {
    pub fn new() -> (plan: Self)
        ensures
            plan@ == Seq::<StepView>::empty(),
    {
        let plan: Plan = Plan { steps: Vec::new() };
        assert(plan@ =~= Seq::<StepView>::empty());
        plan
    }

    fn push(&mut self, action: Action, on_error: OnError)
        ensures
            final(self)@ == old(self)@.push(StepView { action: action@, on_error }),
    {
        let ghost before = self@;
        self.steps.push(Step { action, on_error });
        assert(self@ =~= before.push(StepView { action: action@, on_error }));
    }

    /// Adds a step without which the plan has failed.
    pub fn must(&mut self, action: Action)
        ensures
            final(self)@ == old(self)@.push(must(action@)),
    {
        self.push(action, OnError::Report);
    }

    /// Adds a step without which the program cannot go on.
    pub fn vital(&mut self, action: Action)
        ensures
            final(self)@ == old(self)@.push(vital(action@)),
    {
        self.push(action, OnError::Panic);
    }

    /// Adds a step that may fail.
    pub fn attempt(&mut self, action: Action)
        ensures
            final(self)@ == old(self)@.push(attempt(action@)),
    {
        self.push(action, OnError::Ignore);
    }

    /// Adds the steps of another plan.
    pub fn append(&mut self, more: Plan)
        ensures
            final(self)@ == old(self)@ + more@,
    {
        let ghost before = self@;
        let ghost added = more@;
        let mut more: Plan = more;
        self.steps.append(&mut more.steps);
        assert(self@ =~= before + added);
    }
}

/// A path with a component behind it. An absolute path stands for itself.
pub open spec fn path_join(dir: Seq<char>, name: Seq<char>) -> Seq<char> {
    if name.len() > 0 && name[0] == '/' {
        name
    } else if dir.len() == 0 || dir.last() == '/' {
        dir + name
    } else {
        dir.push('/') + name
    }
}

/// Puts a component behind a path.
pub fn join(dir: &str, name: &str) -> (path: String)
    ensures
        path@ == path_join(dir@, name@),
{
    let n: usize = dir.unicode_len();
    if name.unicode_len() > 0 && name.get_char(0) == '/' {
        return String::from_str(name);
    }
    let mut path: String = String::from_str(dir);
    if n > 0 && dir.get_char(n - 1) != '/' {
        path.append("/");
        proof {
            reveal_strlit("/");
            assert(path@ =~= dir@.push('/'));
        }
    }
    path.append(name);
    path
}

/// A path with two components behind it.
pub open spec fn path_join2(dir: Seq<char>, a: Seq<char>, b: Seq<char>) -> Seq<char> {
    path_join(path_join(dir, a), b)
}

/// Puts two components behind a path.
pub fn join2(dir: &str, a: &str, b: &str) -> (path: String)
    ensures
        path@ == path_join2(dir@, a@, b@),
{
    join(join(dir, a).as_str(), b)
}

/// A path with three components behind it.
pub open spec fn path_join3(dir: Seq<char>, a: Seq<char>, b: Seq<char>, c: Seq<char>) -> Seq<char> {
    path_join(path_join2(dir, a, b), c)
}

/// Puts three components behind a path.
pub fn join3(dir: &str, a: &str, b: &str, c: &str) -> (path: String)
    ensures
        path@ == path_join3(dir@, a@, b@, c@),
{
    join(join2(dir, a, b).as_str(), c)
}

/// An absolute path behind a path is what is left of it, and a relative path never
/// loses the path before it.
pub proof fn law_join(dir: Seq<char>, name: Seq<char>)
    requires
        name.len() > 0,
    ensures
        name[0] == '/' ==> path_join(dir, name) == name,
        name[0] != '/' ==> path_join(dir, name).take(dir.len() as int) == dir,
        path_join(dir, name).skip(path_join(dir, name).len() - name.len()) == name,
{
    let path = path_join(dir, name);
    assert(path.skip(path.len() - name.len()) =~= name);
    if name[0] != '/' {
        assert(path.take(dir.len() as int) =~= dir);
    }
}

} // verus!
