//! The root file system of the kernel's Linux personality.

use vstd::prelude::*;

use crate::words::{
    cat3, join_with, joined, law_joined_parts_come_back, same_text, split, split_on, strings,
};
use crate::xtask::arch::Arch;
use crate::xtask::plan::{
    attempt, join, join2, join3, must, path_join, path_join2, path_join3, Action, ActionView,
    ArgView, Base, BaseView, Cmd, CmdView, Plan, StepView,
};

verus! {

/// The root file system for an architecture.
#[derive(Debug, Clone, Copy, PartialEq, Eq, Structural)]
pub struct LinuxRootfs {
    pub arch: Arch,
}

pub const BUSYBOX_REPO: &'static str = "https://git.busybox.net/busybox.git";

/// The tools that `busybox` stands in for.
pub const SH: [&'static str; 28] = [
    "cat",
    "cp",
    "echo",
    "false",
    "grep",
    "gzip",
    "kill",
    "ln",
    "ls",
    "mkdir",
    "mv",
    "pidof",
    "ping",
    "ping6",
    "printenv",
    "ps",
    "pwd",
    "rm",
    "rmdir",
    "sh",
    "sleep",
    "stat",
    "tar",
    "touch",
    "true",
    "uname",
    "usleep",
    "watch",
];

/// The steps that make each of the first `n` tools a link in `bin`.
pub open spec fn linking(bin: Seq<char>, n: nat) -> Seq<StepView>
    decreases n,
{
    if n == 0 {
        Seq::empty()
    } else {
        let link = path_join(bin, SH@[n - 1]@);
        linking(bin, (n - 1) as nat).push(attempt(ActionView::Remove(link))).push(
            must(ActionView::Symlink { target: "busybox"@, link }),
        )
    }
}

/// The command that takes the symbols out of a file.
pub open spec fn stripping(strip: Seq<char>, file: Seq<char>) -> CmdView {
    CmdView::new(BaseView::Program(strip)).arg("-s"@).arg(file)
}

fn strip_cmd(strip: &str, file: &str) -> (cmd: Cmd)
    ensures
        cmd@ == stripping(strip@, file@),
{
    Cmd::new(Base::Program(String::from_str(strip))).arg("-s").arg(file)
}

/// A file of a library directory: its name, where it is, and what it is.
pub struct LibEntry {
    pub name: String,
    pub path: String,
    pub is_symlink: bool,
    pub is_file: bool,
}

/// Whether a text is made up of decimal digits, if of anything.
pub open spec fn all_digits(text: Seq<char>) -> bool {
    forall|i: int| 0 <= i < text.len() ==> '0' <= #[trigger] text[i] <= '9'
}

/// Whether a file name is that of a shared library: something, `so`, and numbers,
/// with dots in between.
pub open spec fn so_name(name: Seq<char>) -> bool {
    let seg = split(name, '.');
    &&& seg[0].len() > 0
    &&& seg.len() >= 2
    &&& seg[1] == "so"@
    &&& forall|i: int| 2 <= i < seg.len() ==> all_digits(#[trigger] seg[i])
}

fn is_digits(text: &str) -> (yes: bool)
    ensures
        yes == all_digits(text@),
{
    let n: usize = text.unicode_len();
    let mut i: usize = 0;
    while i < n
        invariant
            n == text@.len(),
            i <= n,
            forall|k: int| 0 <= k < i ==> '0' <= #[trigger] text@[k] <= '9',
        decreases n - i,
    {
        let c: char = text.get_char(i);
        if !('0' <= c && c <= '9') {
            assert(!('0' <= text@[i as int] <= '9'));
            return false;
        }
        i += 1;
    }
    true
}

/// Whether a file, or what a link leads to, is a shared library.
pub fn check_so(entry: &LibEntry) -> (yes: bool)
    ensures
        yes == ((entry.is_symlink || entry.is_file) && so_name(entry.name@)),
{
    if !entry.is_symlink && !entry.is_file {
        return false;
    }
    let seg: Vec<String> = split_on(entry.name.as_str(), '.');
    let ghost all = split(entry.name@, '.');
    proof {
        crate::words::law_parts_join_back(entry.name@, '.');
        assert(strings(seg@).len() == seg.len());
        assert(forall|i: int| 0 <= i < seg.len() ==> (#[trigger] seg@[i])@ == strings(seg@)[i]);
    }
    if seg[0].as_str().unicode_len() == 0 {
        return false;
    }
    if seg.len() < 2 || !same_text(seg[1].as_str(), "so") {
        return false;
    }
    let mut i: usize = 2;
    while i < seg.len()
        invariant
            2 <= i <= seg.len(),
            all == strings(seg@),
            all == split(entry.name@, '.'),
            forall|k: int| 2 <= k < i ==> all_digits(#[trigger] all[k]),
        decreases seg.len() - i,
    {
        assert(seg@[i as int]@ == all[i as int]);
        if !is_digits(seg[i].as_str()) {
            assert(!all_digits(all[i as int]));
            return false;
        }
        i += 1;
    }
    true
}

/// What `PATH` is set to: what it is, and further directories.
pub open spec fn path_env(current: Option<Seq<char>>, paths: Seq<Seq<char>>) -> Seq<char> {
    joined(
        match current {
            Some(path) => seq![path] + paths,
            None => paths,
        },
        ':',
    )
}

/// Adds directories to `PATH`.
pub fn join_path_env(current: Option<&str>, paths: &Vec<String>) -> (path: String)
    ensures
        path@ == path_env(
            match current {
                Some(path) => Some(path@),
                None => None,
            },
            strings(paths@),
        ),
{
    let mut list: Vec<String> = Vec::new();
    if let Some(path) = current {
        list.push(String::from_str(path));
    }
    let ghost head = strings(list@);
    let mut i: usize = 0;
    assert(strings(list@) =~= head + strings(paths@).take(0));
    while i < paths.len()
        invariant
            i <= paths.len(),
            strings(list@) == head + strings(paths@).take(i as int),
        decreases paths.len() - i,
    {
        let ghost had = strings(list@);
        list.push(paths[i].clone());
        assert(strings(list@) =~= had.push(paths@[i as int]@));
        assert(strings(list@) =~= head + strings(paths@).take(i + 1));
        i += 1;
    }
    proof {
        assert(strings(paths@).take(i as int) =~= strings(paths@));
        reveal_strlit(":");
        if current is None {
            assert(strings(list@) =~= strings(paths@));
        } else {
            assert(head =~= seq![current->0@]);
        }
    }
    join_with(&list, ":")
}

/// What is known of the machine that builds.
#[derive(Debug, Clone, Copy, PartialEq, Eq, Structural)]
pub struct HostTools {
    pub is_linux: bool,
    /// `llvm-strip` can be run.
    pub has_llvm_strip: bool,
    /// The cross compiler holds its own `strip`.
    pub has_musl_strip: bool,
    /// The cross compiler holds its own `gcc`.
    pub has_musl_gcc: bool,
}

impl HostTools {
    /// Whether `clang` has to stand in for the cross compiler.
    pub open spec fn spec_uses_clang(self) -> bool {
        !self.is_linux || !self.has_musl_gcc
    }

    #[verifier::when_used_as_spec(spec_uses_clang)]
    pub fn uses_clang(self) -> (yes: bool)
        ensures
            yes == self.spec_uses_clang(),
    {
        !self.is_linux || !self.has_musl_gcc
    }
}

impl LinuxRootfs {
    pub fn new(arch: Arch) -> (rootfs: Self)
        ensures
            rootfs.arch == arch,
    {
        LinuxRootfs { arch }
    }

    /// Where the root file system is.
    pub open spec fn spec_path(self, project: Seq<char>) -> Seq<char> {
        path_join2(project, "rootfs"@, self.arch.spec_name())
    }

    pub fn path(&self, project: &str) -> (path: String)
        ensures
            path@ == self.spec_path(project@),
    {
        join2(project, "rootfs", self.arch.name())
    }

    /// The dynamic linker of the root file system.
    pub open spec fn linker(self) -> Seq<char> {
        "ld-musl-"@ + self.arch.spec_name() + ".so.1"@
    }

    /// Whether the root file system has to be made.
    pub fn needs_make(&self, is_dir: bool, clear: bool) -> (yes: bool)
        ensures
            yes == (!is_dir || clear),
    {
        !is_dir || clear
    }

    /// How the minimal root file system is made.
    pub open spec fn making(
        self,
        project: Seq<char>,
        musl: Seq<char>,
        busybox: Seq<char>,
        strip: Seq<char>,
    ) -> Seq<StepView> {
        let dir = self.spec_path(project);
        let bin = path_join(dir, "bin"@);
        let lib = path_join(dir, "lib"@);
        let libc = path_join(lib, self.linker());
        seq![
            must(ActionView::Clear(dir)),
            must(ActionView::CreateDirs(bin)),
            must(ActionView::CreateDirs(lib)),
            must(ActionView::Copy { from: busybox, to: path_join(bin, "busybox"@) }),
            must(
                ActionView::Copy {
                    from: path_join3(musl, self.arch.musl(), "lib"@, "libc.so"@),
                    to: libc,
                },
            ),
            must(ActionView::Run(stripping(strip, libc))),
        ] + linking(bin, SH@.len())
    }

    /// Makes the minimal root file system out of a C library and `busybox`. One that
    /// is there stays, unless it is to be cleared.
    pub fn make(
        &self,
        project: &str,
        is_dir: bool,
        clear: bool,
        musl: &str,
        busybox: &str,
        strip: &str,
    ) -> (plan: Plan)
        ensures
            plan@ == (if is_dir && !clear {
                Seq::empty()
            } else {
                self.making(project@, musl@, busybox@, strip@)
            }),
    {
        let mut plan: Plan = Plan::new();
        if !self.needs_make(is_dir, clear) {
            return plan;
        }
        let dir: String = self.path(project);
        let bin: String = join(dir.as_str(), "bin");
        let lib: String = join(dir.as_str(), "lib");
        let linker: String = cat3("ld-musl-", self.arch.name(), ".so.1");
        let libc: String = join(lib.as_str(), linker.as_str());
        let musl_dir: String = self.arch.musl_name("");
        proof {
            reveal_strlit("");
            assert(self.arch.musl() + ""@ =~= self.arch.musl());
        }
        plan.must(Action::Clear(dir));
        plan.must(Action::CreateDirs(bin.clone()));
        plan.must(Action::CreateDirs(lib));
        plan.must(
            Action::Copy { from: String::from_str(busybox), to: join(bin.as_str(), "busybox") },
        );
        plan.must(
            Action::Copy { from: join3(musl, musl_dir.as_str(), "lib", "libc.so"), to: libc.clone() },
        );
        plan.must(Action::Run(strip_cmd(strip, libc.as_str())));
        let ghost head = plan@;
        let names: [&'static str; 28] = SH;
        let mut i: usize = 0;
        assert(plan@ =~= head + linking(bin@, 0));
        while i < 28
            invariant
                i <= 28,
                names == SH,
                plan@ == head + linking(bin@, i as nat),
            decreases 28 - i,
        {
            let link: String = join(bin.as_str(), names[i]);
            plan.attempt(Action::Remove(link.clone()));
            plan.must(Action::Symlink { target: String::from_str("busybox"), link });
            assert(plan@ =~= head + linking(bin@, (i + 1) as nat));
            i += 1;
        }
        assert(plan@ =~= self.making(project@, musl@, busybox@, strip@));
        plan
    }

    /// The program that takes symbols out: that of the cross compiler where it can
    /// be used, else that of LLVM, else whatever is called like the former.
    pub open spec fn stripper(self, musl: Seq<char>, tools: HostTools) -> Seq<char> {
        if tools.has_llvm_strip && !(tools.is_linux && tools.has_musl_strip) {
            "llvm-strip"@
        } else if tools.has_musl_strip {
            path_join2(musl, "bin"@, self.arch.musl() + "-strip"@)
        } else {
            self.arch.musl() + "-strip"@
        }
    }

    pub fn strip(&self, musl: &str, tools: HostTools) -> (program: String)
        ensures
            program@ == self.stripper(musl@, tools),
    {
        let name: String = self.arch.musl_name("-strip");
        if !tools.is_linux && tools.has_llvm_strip {
            return String::from_str("llvm-strip");
        }
        if tools.has_musl_strip {
            join2(musl, "bin", name.as_str())
        } else if tools.has_llvm_strip {
            String::from_str("llvm-strip")
        } else {
            name
        }
    }

    /// Where `busybox` is built, and the program in there.
    pub open spec fn busybox_program(target: Seq<char>) -> Seq<char> {
        path_join2(target, "busybox"@, "busybox"@)
    }

    /// The command that builds `busybox`.
    pub open spec fn busybox_make(
        self,
        dir: Seq<char>,
        musl: Seq<char>,
        tools: HostTools,
    ) -> CmdView {
        let make = CmdView::new(BaseView::Make).within(dir);
        if tools.uses_clang() {
            make.arg(
                "CC=clang --target="@ + self.arch.spec_name() + "-linux-musl --sysroot="@
                    + path_join(musl, self.arch.musl()) + " --gcc-toolchain="@ + musl
                    + " -fuse-ld=lld"@,
            ).arg("AR=llvm-ar"@).arg("STRIP=llvm-strip"@).arg("HOSTCC=clang"@)
        } else {
            make.arg(
                "CROSS_COMPILE="@ + path_join(musl, "bin"@) + "/"@ + self.arch.spec_name()
                    + "-linux-musl-"@,
            ).arg("EXTRA_CFLAGS=-Wl,-z,max-page-size=65536"@).arg(
                "EXTRA_LDFLAGS=-Wl,-z,max-page-size=65536"@,
            )
        }
    }

    /// How `busybox` is built. `musl` is the canonical path of the cross compiler.
    pub open spec fn busybox_building(
        self,
        target: Seq<char>,
        repos: Seq<char>,
        has_source: bool,
        musl: Seq<char>,
        tools: HostTools,
        strip: Seq<char>,
    ) -> Seq<StepView> {
        let dir = path_join(target, "busybox"@);
        let source = path_join(repos, "busybox"@);
        (if has_source {
            Seq::empty()
        } else {
            seq![must(ActionView::Clone { repo: BUSYBOX_REPO@, to: source })]
        }) + seq![
            attempt(ActionView::Remove(dir)),
            must(ActionView::CopyDir { from: source, to: dir }),
            must(
                ActionView::Run(CmdView::new(BaseView::Make).within(dir).arg("defconfig"@)),
            ),
            must(ActionView::Run(self.busybox_make(dir, musl, tools))),
            must(ActionView::Run(stripping(strip, Self::busybox_program(target)))),
        ]
    }

    /// Builds `busybox`, unless it is there. The program is at the path that is
    /// returned.
    pub fn busybox(
        &self,
        target: &str,
        repos: &str,
        has_program: bool,
        has_source: bool,
        musl: &str,
        tools: HostTools,
        strip: &str,
    ) -> (built: (Plan, String))
        ensures
            built.1@ == Self::busybox_program(target@),
            built.0@ == (if has_program {
                Seq::empty()
            } else {
                self.busybox_building(target@, repos@, has_source, musl@, tools, strip@)
            }),
    {
        let mut plan: Plan = Plan::new();
        let program: String = join2(target, "busybox", "busybox");
        if has_program {
            return (plan, program);
        }
        let dir: String = join(target, "busybox");
        let source: String = join(repos, "busybox");
        if !has_source {
            plan.must(Action::Clone { repo: String::from_str(BUSYBOX_REPO), to: source.clone() });
        }
        let ghost head = plan@;
        plan.attempt(Action::Remove(dir.clone()));
        plan.must(Action::CopyDir { from: source, to: dir.clone() });
        plan.must(Action::Run(Cmd::new(Base::Make).within(dir.as_str()).arg("defconfig")));
        let make: Cmd = Cmd::new(Base::Make).within(dir.as_str());
        let name: &str = self.arch.name();
        let cmd: Cmd = if tools.uses_clang() {
            let musl_dir: String = self.arch.musl_name("");
            proof {
                reveal_strlit("");
                assert(self.arch.musl() + ""@ =~= self.arch.musl());
            }
            let mut cc: String = cat3("CC=clang --target=", name, "-linux-musl --sysroot=");
            cc.append(join(musl, musl_dir.as_str()).as_str());
            cc.append(" --gcc-toolchain=");
            cc.append(musl);
            cc.append(" -fuse-ld=lld");
            make.arg(cc.as_str()).arg("AR=llvm-ar").arg("STRIP=llvm-strip").arg("HOSTCC=clang")
        } else {
            let mut cross: String = cat3("CROSS_COMPILE=", join(musl, "bin").as_str(), "/");
            cross.append(name);
            cross.append("-linux-musl-");
            make.arg(cross.as_str()).arg("EXTRA_CFLAGS=-Wl,-z,max-page-size=65536").arg(
                "EXTRA_LDFLAGS=-Wl,-z,max-page-size=65536",
            )
        };
        plan.must(Action::Run(cmd));
        plan.must(Action::Run(strip_cmd(strip, program.as_str())));
        assert(plan@ =~= self.busybox_building(
            target@,
            repos@,
            has_source,
            musl@,
            tools,
            strip@,
        ));
        (plan, program)
    }

    /// What is done about one file of a library directory. The C library itself is
    /// the dynamic linker, and stays as it is.
    pub open spec fn putting_lib(self, lib: Seq<char>, strip: Seq<char>, entry: LibEntry) -> Seq<
        StepView,
    > {
        let to = path_join(lib, entry.name@);
        if !((entry.is_symlink || entry.is_file) && so_name(entry.name@)) {
            Seq::empty()
        } else if entry.is_symlink {
            if entry.name@ == self.linker() {
                Seq::empty()
            } else {
                seq![
                    attempt(ActionView::Remove(to)),
                    must(ActionView::Relink { like: entry.path@, link: to }),
                ]
            }
        } else if entry.name@ == "libc.so"@ {
            Seq::empty()
        } else {
            seq![
                attempt(ActionView::Remove(to)),
                must(ActionView::Copy { from: entry.path@, to }),
                attempt(ActionView::Run(stripping(strip, to))),
            ]
        }
    }

    /// What is done about the first `n` files of a library directory.
    pub open spec fn putting_libs(
        self,
        lib: Seq<char>,
        strip: Seq<char>,
        entries: Seq<LibEntry>,
        n: nat,
    ) -> Seq<StepView>
        decreases n,
    {
        if n == 0 {
            Seq::empty()
        } else {
            self.putting_libs(lib, strip, entries, (n - 1) as nat) + self.putting_lib(
                lib,
                strip,
                entries[n - 1],
            )
        }
    }

    /// Copies the shared libraries of a directory.
    pub fn put_libs(&self, project: &str, strip: &str, entries: &Vec<LibEntry>) -> (plan: Plan)
        ensures
            plan@ == self.putting_libs(
                path_join(self.spec_path(project@), "lib"@),
                strip@,
                entries@,
                entries@.len(),
            ),
    {
        let lib: String = join(self.path(project).as_str(), "lib");
        let linker: String = cat3("ld-musl-", self.arch.name(), ".so.1");
        let mut plan: Plan = Plan::new();
        let mut i: usize = 0;
        while i < entries.len()
            invariant
                i <= entries.len(),
                linker@ == self.linker(),
                plan@ == self.putting_libs(lib@, strip@, entries@, i as nat),
            decreases entries.len() - i,
        {
            let ghost before = plan@;
            let entry: &LibEntry = &entries[i];
            if check_so(entry) {
                let to: String = join(lib.as_str(), entry.name.as_str());
                if entry.is_symlink {
                    if !same_text(entry.name.as_str(), linker.as_str()) {
                        plan.attempt(Action::Remove(to.clone()));
                        plan.must(Action::Relink { like: entry.path.clone(), link: to });
                    }
                } else if !same_text(entry.name.as_str(), "libc.so") {
                    plan.attempt(Action::Remove(to.clone()));
                    plan.must(Action::Copy { from: entry.path.clone(), to: to.clone() });
                    plan.attempt(Action::Run(strip_cmd(strip, to.as_str())));
                }
            }
            assert(plan@ =~= before + self.putting_lib(lib@, strip@, entries@[i as int]));
            i += 1;
        }
        plan
    }

    /// The directory of the cross compiler that holds its libraries.
    pub fn musl_libs(&self, musl: &str) -> (dir: String)
        ensures
            dir@ == path_join2(musl@, self.arch.musl(), "lib"@),
    {
        let musl_dir: String = self.arch.musl_name("");
        proof {
            reveal_strlit("");
            assert(self.arch.musl() + ""@ =~= self.arch.musl());
        }
        join2(musl, musl_dir.as_str(), "lib")
    }

    /// Copies the shared libraries of the cross compiler, which are `entries`.
    pub fn put_musl_libs(&self, project: &str, strip: &str, entries: &Vec<LibEntry>) -> (plan: Plan)
        ensures
            plan@ == seq![must(ActionView::MakeRootfs(self.arch))] + self.putting_libs(
                path_join(self.spec_path(project@), "lib"@),
                strip@,
                entries@,
                entries@.len(),
            ),
    {
        let mut plan: Plan = Plan::new();
        plan.must(Action::MakeRootfs(self.arch));
        assert(plan@ =~= seq![must(ActionView::MakeRootfs(self.arch))]);
        plan.append(self.put_libs(project, strip, entries));
        plan
    }
}

/// Copying libraries never touches the dynamic linker that was put in place with
/// the root file system, neither by a link of that name nor by the C library.
pub proof fn law_linker_stays(rootfs: LinuxRootfs, lib: Seq<char>, strip: Seq<char>, entry: LibEntry)
    requires
        entry.is_symlink && entry.name@ == rootfs.linker() || !entry.is_symlink && entry.name@
            == "libc.so"@,
    ensures
        rootfs.putting_lib(lib, strip, entry).len() == 0,
{
}

proof fn lemma_linking(bin: Seq<char>, n: nat, i: int)
    requires
        0 <= i < n,
    ensures
        linking(bin, n).len() == 2 * n,
        linking(bin, n)[2 * i] == attempt(ActionView::Remove(path_join(bin, SH@[i]@))),
        linking(bin, n)[2 * i + 1] == must(
            ActionView::Symlink { target: "busybox"@, link: path_join(bin, SH@[i]@) },
        ),
    decreases n,
{
    if n > 1 {
        lemma_linking(
            bin,
            (n - 1) as nat,
            if i < n - 1 {
                i
            } else {
                0
            },
        );
    } else {
        assert(linking(bin, 0).len() == 0);
    }
}

/// A root file system that is made has all its tools: `busybox` itself, out of which
/// they come, and a link to it under the name of each. It has a dynamic linker, which is
/// the C library of the cross compiler for the architecture, without its symbols. What
/// was there before goes first.
pub proof fn law_root_file_system_has_its_tools(
    rootfs: LinuxRootfs,
    project: Seq<char>,
    musl: Seq<char>,
    busybox: Seq<char>,
    strip: Seq<char>,
    i: int,
)
    requires
        0 <= i < 28,
    ensures
        ({
            let plan = rootfs.making(project, musl, busybox, strip);
            plan[0].action matches ActionView::Clear(dir) && {
                let bin = path_join(dir, "bin"@);
                let lib = path_join(dir, "lib"@);
                &&& dir == path_join(path_join(project, "rootfs"@), rootfs.arch.spec_name())
                &&& plan.take(3).contains(must(ActionView::CreateDirs(bin)))
                &&& plan.take(3).contains(must(ActionView::CreateDirs(lib)))
                &&& plan[3] == must(
                    ActionView::Copy { from: busybox, to: path_join(bin, "busybox"@) },
                )
                &&& plan[4].action matches ActionView::Copy { from, to } && {
                    &&& from == path_join(
                        path_join(path_join(musl, rootfs.arch.spec_name() + "-linux-musl"@), "lib"@),
                        "libc.so"@,
                    )
                    &&& to == path_join(lib, "ld-musl-"@ + rootfs.arch.spec_name() + ".so.1"@)
                    &&& plan[5].action matches ActionView::Run(cmd) && cmd.base
                        == BaseView::Program(strip) && cmd.args.last() == ArgView::Plain(to)
                }
                &&& plan.len() == 6 + 2 * 28
                &&& plan[6 + 2 * i] == attempt(ActionView::Remove(path_join(bin, SH@[i]@)))
                &&& plan[7 + 2 * i] == must(
                    ActionView::Symlink { target: "busybox"@, link: path_join(bin, SH@[i]@) },
                )
            }
        }),
{
    let plan = rootfs.making(project, musl, busybox, strip);
    let dir = rootfs.spec_path(project);
    let bin = path_join(dir, "bin"@);
    lemma_linking(bin, 28, i);
    assert(SH@.len() == 28);
    assert(plan.take(3)[1] == must(ActionView::CreateDirs(bin)));
    assert(plan.take(3)[2] == must(ActionView::CreateDirs(path_join(dir, "lib"@))));
    assert(plan[6 + 2 * i] == linking(bin, 28)[2 * i]);
    assert(plan[7 + 2 * i] == linking(bin, 28)[2 * i + 1]);
}

/// `busybox` is built in a fresh copy of its source, which is fetched to where the copy
/// is made from if it is missing. The program is where the build leaves it, and loses its
/// symbols last.
pub proof fn law_busybox_is_built_in_its_copy(
    rootfs: LinuxRootfs,
    target: Seq<char>,
    repos: Seq<char>,
    has_source: bool,
    musl: Seq<char>,
    tools: HostTools,
    strip: Seq<char>,
)
    ensures
        ({
            let plan = rootfs.busybox_building(target, repos, has_source, musl, tools, strip);
            let n = plan.len() - 5;
            &&& has_source ==> n == 0
            &&& !has_source ==> n == 1
            &&& plan[n].action matches ActionView::Remove(dir) && (
            plan[n + 1].action matches ActionView::CopyDir { from, to } && {
                &&& to == dir
                &&& !has_source ==> (plan[0].action matches ActionView::Clone { repo, to: source }
                    && source == from && repo == BUSYBOX_REPO@)
                &&& plan[n + 2].action matches ActionView::Run(config) && config.base
                    == BaseView::Make && config.dir == Some(dir) && config.args == seq![
                    ArgView::Plain("defconfig"@),
                ]
                &&& plan[n + 3].action matches ActionView::Run(make) && make.base == BaseView::Make
                    && make.dir == Some(dir)
                &&& plan[n + 4].action matches ActionView::Run(cmd) && cmd.base
                    == BaseView::Program(strip) && cmd.args.last() == ArgView::Plain(
                    path_join(dir, "busybox"@),
                )
                &&& LinuxRootfs::busybox_program(target) == path_join(dir, "busybox"@)
            })
        }),
{
    let plan = rootfs.busybox_building(target, repos, has_source, musl, tools, strip);
    let n = plan.len() - 5;
    let config = plan[n + 2].action->Run_0;
    assert(config.args =~= seq![ArgView::Plain("defconfig"@)]);
}

proof fn lemma_putting(
    rootfs: LinuxRootfs,
    lib: Seq<char>,
    strip: Seq<char>,
    entries: Seq<LibEntry>,
    n: nat,
    i: int,
    step: StepView,
)
    requires
        0 <= i < n <= entries.len(),
        rootfs.putting_lib(lib, strip, entries[i]).contains(step),
    ensures
        rootfs.putting_libs(lib, strip, entries, n).contains(step),
    decreases n,
{
    let before = rootfs.putting_libs(lib, strip, entries, (n - 1) as nat);
    let one = rootfs.putting_lib(lib, strip, entries[n - 1]);
    let all = rootfs.putting_libs(lib, strip, entries, n);
    if i < n - 1 {
        lemma_putting(rootfs, lib, strip, entries, (n - 1) as nat, i, step);
        let k = before.index_of(step);
        assert(all[k] == step);
    } else {
        let k = one.index_of(step);
        assert(all[before.len() + k] == step);
    }
}

/// Every shared library of a directory is copied under its own name, but for the C
/// library, and every link to one is made anew, but for that of the dynamic linker.
pub proof fn law_every_library_is_put(
    rootfs: LinuxRootfs,
    lib: Seq<char>,
    strip: Seq<char>,
    entries: Seq<LibEntry>,
    i: int,
)
    requires
        0 <= i < entries.len(),
        so_name(entries[i].name@),
    ensures
        ({
            let plan = rootfs.putting_libs(lib, strip, entries, entries.len());
            let entry = entries[i];
            let to = path_join(lib, entry.name@);
            &&& entry.is_symlink && entry.name@ != "ld-musl-"@ + rootfs.arch.spec_name() + ".so.1"@
                ==> plan.contains(must(ActionView::Relink { like: entry.path@, link: to }))
            &&& !entry.is_symlink && entry.is_file && entry.name@ != "libc.so"@ ==> plan.contains(
                must(ActionView::Copy { from: entry.path@, to }),
            )
        }),
{
    let entry = entries[i];
    let to = path_join(lib, entry.name@);
    let one = rootfs.putting_lib(lib, strip, entry);
    if entry.is_symlink && entry.name@ != rootfs.linker() {
        assert(one[1] == must(ActionView::Relink { like: entry.path@, link: to }));
        lemma_putting(rootfs, lib, strip, entries, entries.len(), i, one[1]);
    }
    if !entry.is_symlink && entry.is_file && entry.name@ != "libc.so"@ {
        assert(one[1] == must(ActionView::Copy { from: entry.path@, to }));
        lemma_putting(rootfs, lib, strip, entries, entries.len(), i, one[1]);
    }
}

/// Nothing is copied or linked that is not a shared library of the directory, and nothing
/// under another name than its own.
pub proof fn law_nothing_else_is_put(
    rootfs: LinuxRootfs,
    lib: Seq<char>,
    strip: Seq<char>,
    entries: Seq<LibEntry>,
    n: nat,
    k: int,
)
    requires
        n <= entries.len(),
        0 <= k < rootfs.putting_libs(lib, strip, entries, n).len(),
    ensures
        exists|i: int|
            0 <= i < n && so_name((#[trigger] entries[i]).name@) && match rootfs.putting_libs(
                lib,
                strip,
                entries,
                n,
            )[k].action {
                ActionView::Copy { from, to } => from == entries[i].path@ && to == path_join(
                    lib,
                    entries[i].name@,
                ),
                ActionView::Relink { like, link } => like == entries[i].path@ && link == path_join(
                    lib,
                    entries[i].name@,
                ),
                ActionView::Remove(path) => path == path_join(lib, entries[i].name@),
                ActionView::Run(cmd) => cmd.args.last() == ArgView::Plain(
                    path_join(lib, entries[i].name@),
                ),
                _ => false,
            },
    decreases n,
{
    let before = rootfs.putting_libs(lib, strip, entries, (n - 1) as nat);
    if n > 0 {
        if k < before.len() {
            law_nothing_else_is_put(rootfs, lib, strip, entries, (n - 1) as nat, k);
        } else {
            let one = rootfs.putting_lib(lib, strip, entries[n - 1]);
            assert(rootfs.putting_libs(lib, strip, entries, n)[k] == one[k - before.len()]);
            assert(so_name(entries[n - 1].name@));
        }
    }
}

/// Every directory that is added to `PATH` can be found in it, behind those that were
/// there.
pub proof fn law_path_holds_its_directories(
    before: Seq<Seq<char>>,
    paths: Seq<Seq<char>>,
)
    requires
        before.len() > 0,
        forall|i: int| 0 <= i < before.len() ==> !(#[trigger] before[i]).contains(':'),
        forall|i: int| 0 <= i < paths.len() ==> !(#[trigger] paths[i]).contains(':'),
    ensures
        split(path_env(Some(joined(before, ':')), paths), ':') == before + paths,
        paths.len() > 0 ==> split(path_env(None, paths), ':') == paths,
{
    if paths.len() > 0 {
        law_joined_parts_come_back(paths, ':');
    }
    let all = before + paths;
    assert forall|i: int| 0 <= i < all.len() implies !(#[trigger] all[i]).contains(':') by {
        if i < before.len() {
            assert(all[i] == before[i]);
        } else {
            assert(all[i] == paths[i - before.len()]);
        }
    }
    law_joined_parts_come_back(all, ':');
    lemma_join_groups(before, paths);
}

proof fn lemma_join_groups(before: Seq<Seq<char>>, paths: Seq<Seq<char>>)
    requires
        before.len() > 0,
    ensures
        joined(seq![joined(before, ':')] + paths, ':') == joined(before + paths, ':'),
    decreases paths.len(),
{
    let head = seq![joined(before, ':')];
    if paths.len() == 0 {
        assert(head + paths =~= head);
        assert(before + paths =~= before);
    } else {
        lemma_join_groups(before, paths.drop_last());
        assert((head + paths).drop_last() =~= head + paths.drop_last());
        assert((before + paths).drop_last() =~= before + paths.drop_last());
        assert((head + paths).last() == paths.last());
        assert((before + paths).last() == paths.last());
    }
}

/// Symbols are taken out by a tool for the architecture: that of the cross compiler where
/// it is there and can run, else one that serves all of them if it is there.
pub proof fn law_symbols_are_taken_out_by_the_right_tool(
    rootfs: LinuxRootfs,
    musl: Seq<char>,
    tools: HostTools,
)
    ensures
        ({
            let own = rootfs.arch.spec_name() + "-linux-musl"@ + "-strip"@;
            let tool = rootfs.stripper(musl, tools);
            &&& tools.is_linux && tools.has_musl_strip ==> tool == path_join(
                path_join(musl, "bin"@),
                own,
            )
            &&& !tools.is_linux && tools.has_llvm_strip ==> tool == "llvm-strip"@
            &&& !tools.has_musl_strip && tools.has_llvm_strip ==> tool == "llvm-strip"@
            &&& !tools.has_musl_strip && !tools.has_llvm_strip ==> tool == own
        }),
{
}

} // verus!
