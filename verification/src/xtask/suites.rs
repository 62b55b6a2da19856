//! Test suites in the root file system.

use vstd::prelude::*;

use crate::words::{cat, ended_by, has_ending, same_text, strings};
use crate::xtask::arch::Arch;
use crate::xtask::plan::{
    attempt, join, join2, must, path_join, path_join2, Action, ActionView, Arg, ArgView, Base, BaseView, Cmd, CmdView, Plan, StepView,
};
use crate::xtask::rootfs::{join_path_env, path_env, HostTools, LinuxRootfs};

verus! {

pub const PREBUILD_URL: &'static str =
    "https://github.com/rcore-os/libc-test-prebuilt/releases/download/0.1/prebuild.tar.xz";

/// Where the directories for an architecture are.
#[derive(Clone, Copy)]
pub struct Dirs<'a> {
    pub project: &'a str,
    /// Files from the network.
    pub origin: &'a str,
    /// Generated files.
    pub target: &'a str,
}

/// How prebuilt files for RISC-V are unpacked.
pub open spec fn unpacking_special(origin: Seq<char>, target: Seq<char>) -> Seq<StepView> {
    let tar = path_join(origin, "prebuild.tar.xz"@);
    seq![
        must(ActionView::Fetch { url: PREBUILD_URL@, to: tar }),
        must(ActionView::Clear(target)),
        must(ActionView::Run(CmdView::new(BaseView::Tar { from: tar, to: target }))),
    ]
}

/// Unpacks prebuilt files for RISC-V. They are at the path that is returned.
pub fn riscv64_special(origin: &str, target: &str) -> (unpacked: (Plan, String))
    ensures
        unpacked.0@ == unpacking_special(origin@, target@),
        unpacked.1@ == path_join(target@, "prebuild"@),
{
    let tar: String = join(origin, "prebuild.tar.xz");
    let mut plan: Plan = Plan::new();
    plan.must(Action::Fetch { url: String::from_str(PREBUILD_URL), to: tar.clone() });
    plan.must(Action::Clear(String::from_str(target)));
    plan.must(Action::Run(Cmd::new(Base::Tar { from: tar, to: String::from_str(target) })));
    assert(plan@ =~= unpacking_special(origin@, target@));
    (plan, join(target, "prebuild"))
}

/// The directories of the C library's test suite that are kept.
pub const TEST_SET: [&'static str; 6] = ["api", "common", "math", "musl", "functional", "regression"];

/// A directory of the test suite out of which files are taken.
#[derive(Debug, Clone, Copy, PartialEq, Eq, Structural)]
pub enum SuiteDir {
    /// The suite itself: only the sources are kept.
    Top,
    /// The sources: only the tests are kept.
    Src,
    /// Tests: only what can be run is kept.
    Tests,
}

/// Whether an entry of a directory is kept.
pub open spec fn kept(dir: SuiteDir, name: Seq<char>) -> bool {
    match dir {
        SuiteDir::Top => name == "src"@,
        SuiteDir::Src => exists|i: int| 0 <= i < TEST_SET@.len() && #[trigger] TEST_SET@[i]@ == name,
        SuiteDir::Tests => ended_by(name, ".exe"@) || ended_by(name, ".so"@),
    }
}

/// Whether an entry of a directory is kept.
pub fn keeps(dir: SuiteDir, name: &str) -> (yes: bool)
    ensures
        yes == kept(dir, name@),
{
    match dir {
        SuiteDir::Top => same_text(name, "src"),
        SuiteDir::Src => {
            let set: [&'static str; 6] = TEST_SET;
            let mut i: usize = 0;
            while i < 6
                invariant
                    i <= 6,
                    dir is Src,
                    set == TEST_SET,
                    forall|k: int| 0 <= k < i ==> #[trigger] TEST_SET@[k]@ != name@,
                decreases 6 - i,
            {
                if same_text(name, set[i]) {
                    assert(TEST_SET@[i as int]@ == name@);
                    return true;
                }
                i += 1;
            }
            false
        },
        SuiteDir::Tests => has_ending(name, ".exe") || has_ending(name, ".so"),
    }
}

/// The steps that take the first `n` entries out of the directory at `path`, but for
/// those that are kept.
pub open spec fn pruning(dir: SuiteDir, path: Seq<char>, names: Seq<Seq<char>>, n: nat) -> Seq<
    StepView,
>
    decreases n,
{
    if n == 0 {
        Seq::empty()
    } else {
        let before = pruning(dir, path, names, (n - 1) as nat);
        if kept(dir, names[n - 1]) {
            before
        } else {
            before.push(attempt(ActionView::Remove(path_join(path, names[n - 1]))))
        }
    }
}

/// Takes what is not kept out of the directory at `path`, whose entries are `names`.
pub fn prune(dir: SuiteDir, path: &str, names: &Vec<String>) -> (plan: Plan)
    ensures
        plan@ == pruning(dir, path@, strings(names@), names@.len()),
{
    let mut plan: Plan = Plan::new();
    let mut i: usize = 0;
    while i < names.len()
        invariant
            i <= names.len(),
            plan@ == pruning(dir, path@, strings(names@), i as nat),
        decreases names.len() - i,
    {
        assert(strings(names@)[i as int] == names@[i as int]@);
        if !keeps(dir, names[i].as_str()) {
            plan.attempt(Action::Remove(join(path, names[i].as_str())));
        }
        i += 1;
    }
    plan
}

/// Whatever is not kept is taken out.
pub proof fn law_pruning_takes_out_the_rest(
    dir: SuiteDir,
    path: Seq<char>,
    names: Seq<Seq<char>>,
    n: nat,
    i: int,
)
    requires
        0 <= i < n <= names.len(),
        !kept(dir, names[i]),
    ensures
        pruning(dir, path, names, n).contains(
            attempt(ActionView::Remove(path_join(path, names[i]))),
        ),
    decreases n,
{
    let step = attempt(ActionView::Remove(path_join(path, names[i])));
    let now = pruning(dir, path, names, n);
    if i == n - 1 {
        assert(now[now.len() - 1] == step);
    } else {
        law_pruning_takes_out_the_rest(dir, path, names, (n - 1) as nat, i);
        let before = pruning(dir, path, names, (n - 1) as nat);
        let k = choose|k: int| 0 <= k < before.len() && before[k] == step;
        assert(now[k] == step);
    }
}

/// Every step of pruning takes out an entry that is not kept.
pub proof fn law_pruning_spares_what_is_kept(
    dir: SuiteDir,
    path: Seq<char>,
    names: Seq<Seq<char>>,
    n: nat,
    k: int,
)
    requires
        n <= names.len(),
        0 <= k < pruning(dir, path, names, n).len(),
    ensures
        exists|i: int|
            0 <= i < n && !kept(dir, #[trigger] names[i]) && pruning(dir, path, names, n)[k]
                == attempt(ActionView::Remove(path_join(path, names[i]))),
    decreases n,
{
    let before = pruning(dir, path, names, (n - 1) as nat);
    if k < before.len() {
        law_pruning_spares_what_is_kept(dir, path, names, (n - 1) as nat, k);
        let i = choose|i: int|
            0 <= i < n - 1 && !kept(dir, #[trigger] names[i]) && before[k] == attempt(
                ActionView::Remove(path_join(path, names[i])),
            );
        assert(!kept(dir, names[i]));
    } else {
        assert(!kept(dir, names[n - 1]));
    }
}

/// A source file of a test: its path, and the name of the file.
pub struct Source {
    pub path: String,
    pub name: String,
}

/// The name of a C source file without its extension.
pub open spec fn c_stem(name: Seq<char>) -> Option<Seq<char>> {
    if name.len() > 2 && ended_by(name, ".c"@) {
        Some(name.take(name.len() - 2))
    } else {
        None
    }
}

fn stem_of(name: &str) -> (stem: Option<&str>)
    ensures
        match stem {
            Some(s) => c_stem(name@) == Some(s@),
            None => c_stem(name@) is None,
        },
{
    let n: usize = name.unicode_len();
    if n > 2 && has_ending(name, ".c") {
        assert(name@.subrange(0, n - 2) =~= name@.take(n - 2));
        Some(name.substring_char(0, n - 2))
    } else {
        None
    }
}

/// The directories of the test suite at `top` out of which files are taken, in order. One
/// that cannot be listed is left as it is.
pub open spec fn pruned_dirs(top: Seq<char>) -> Seq<StepView> {
    let src = path_join(top, "src"@);
    seq![
        attempt(ActionView::Prune { dir: SuiteDir::Top, path: top }),
        attempt(ActionView::Prune { dir: SuiteDir::Src, path: src }),
    ] + Seq::new(
        TEST_SET@.len(),
        |i: int| attempt(
            ActionView::Prune { dir: SuiteDir::Tests, path: path_join(src, TEST_SET@[i]@) },
        ),
    )
}

/// Takes what is not needed out of the test suite at `top`, directory by directory:
/// [`prune`] says what that is once the entries of a directory are known.
pub fn prune_suite(top: &str) -> (plan: Plan)
    ensures
        plan@ == pruned_dirs(top@),
{
    let src: String = join(top, "src");
    let mut plan: Plan = Plan::new();
    plan.attempt(Action::Prune { dir: SuiteDir::Top, path: String::from_str(top) });
    plan.attempt(Action::Prune { dir: SuiteDir::Src, path: src.clone() });
    let set: [&'static str; 6] = TEST_SET;
    let mut i: usize = 0;
    assert(plan@ =~= pruned_dirs(top@).take(2));
    while i < 6
        invariant
            i <= 6,
            set == TEST_SET,
            src@ == path_join(top@, "src"@),
            plan@ == pruned_dirs(top@).take(2 + i),
        decreases 6 - i,
    {
        plan.attempt(Action::Prune { dir: SuiteDir::Tests, path: join(src.as_str(), set[i]) });
        assert(plan@ =~= pruned_dirs(top@).take(2 + i + 1));
        i += 1;
    }
    assert(plan@ =~= pruned_dirs(top@));
    plan
}

impl LinuxRootfs {
    /// Where the C library's test suite is put.
    pub open spec fn suite(self, project: Seq<char>) -> Seq<char> {
        path_join(self.spec_path(project), "libc-test"@)
    }

    /// The command that builds the C library's test suite.
    pub open spec fn building_suite(self, dir: Seq<char>, path: Seq<char>) -> CmdView {
        CmdView::new(BaseView::Make).add(ArgView::AllJobs).env("ARCH"@, self.arch.spec_name()).env(
            "CROSS_COMPILE"@,
            self.arch.musl() + "-"@,
        ).env("PATH"@, path).within(dir)
    }

    /// How the C library's test suite is put in place, built, and rid of what is not
    /// needed to run it.
    pub open spec fn putting_libc_test(
        self,
        project: Seq<char>,
        origin: Seq<char>,
        target: Seq<char>,
        path: Seq<char>,
    ) -> Seq<StepView> {
        let dir = self.suite(project);
        seq![
            must(ActionView::MakeRootfs(self.arch)),
            attempt(ActionView::Remove(dir)),
            must(ActionView::CopyDir { from: "libc-test"@, to: dir }),
            must(
                ActionView::Copy {
                    from: path_join(dir, "config.mak.def"@),
                    to: path_join(dir, "config.mak"@),
                },
            ),
            must(ActionView::Run(self.building_suite(dir, path))),
        ] + (if self.arch is Riscv64 {
            unpacking_special(origin, target).push(
                must(
                    ActionView::Copy {
                        from: path_join2(
                            target,
                            "prebuild"@,
                            "libc-test/functional/tls_align-static.exe"@,
                        ),
                        to: path_join(dir, "src/functional/tls_align-static.exe"@),
                    },
                ),
            )
        } else {
            Seq::empty()
        }) + pruned_dirs(dir)
    }

    /// Puts the C library's test suite in place, builds it with the cross compiler in
    /// `musl_bin`, which is a canonical path, and takes out what is not needed.
    pub fn put_libc_test(&self, dirs: Dirs<'_>, current_path: Option<&str>, musl_bin: &str) -> (plan:
        Plan)
        ensures
            plan@ == self.putting_libc_test(
                dirs.project@,
                dirs.origin@,
                dirs.target@,
                path_env(
                    match current_path {
                        Some(path) => Some(path@),
                        None => None,
                    },
                    seq![musl_bin@],
                ),
            ),
    {
        let dir: String = join(self.path(dirs.project).as_str(), "libc-test");
        let mut paths: Vec<String> = Vec::new();
        paths.push(String::from_str(musl_bin));
        assert(strings(paths@) =~= seq![musl_bin@]);
        let path: String = join_path_env(current_path, &paths);
        let mut plan: Plan = Plan::new();
        plan.must(Action::MakeRootfs(self.arch));
        plan.attempt(Action::Remove(dir.clone()));
        plan.must(Action::CopyDir { from: String::from_str("libc-test"), to: dir.clone() });
        plan.must(
            Action::Copy {
                from: join(dir.as_str(), "config.mak.def"),
                to: join(dir.as_str(), "config.mak"),
            },
        );
        let cross: String = self.arch.musl_name("-");
        plan.must(
            Action::Run(
                Cmd::new(Base::Make).add(Arg::AllJobs).env("ARCH", self.arch.name()).env(
                    "CROSS_COMPILE",
                    cross.as_str(),
                ).env("PATH", path.as_str()).within(dir.as_str()),
            ),
        );
        if let Arch::Riscv64 = self.arch {
            let (unpack, special) = riscv64_special(dirs.origin, dirs.target);
            plan.append(unpack);
            plan.must(
                Action::Copy {
                    from: join(special.as_str(), "libc-test/functional/tls_align-static.exe"),
                    to: join(dir.as_str(), "src/functional/tls_align-static.exe"),
                },
            );
        }
        plan.append(prune_suite(dir.as_str()));
        assert(plan@ =~= self.putting_libc_test(dirs.project@, dirs.origin@, dirs.target@, path@));
        plan
    }

    /// The command that builds a test.
    pub open spec fn compiling(
        self,
        musl: Seq<char>,
        tools: HostTools,
        source: Seq<char>,
        output: Seq<char>,
    ) -> CmdView {
        if tools.uses_clang() {
            CmdView::new(BaseView::Program("clang"@)).arg("--target="@ + self.arch.musl()).arg(
                "--sysroot="@ + path_join(musl, self.arch.musl()),
            ).arg("--gcc-toolchain="@ + musl).arg("-fuse-ld=lld"@).arg("-D_GNU_SOURCE"@).arg(
                "-Wno-implicit-function-declaration"@,
            ).arg(source).arg("-o"@).arg(output)
        } else {
            CmdView::new(
                BaseView::Program(path_join2(musl, "bin"@, self.arch.musl() + "-gcc"@)),
            ).arg(source).arg("-o"@).arg(output)
        }
    }

    fn compile(&self, musl: &str, tools: HostTools, source: &str, output: &str) -> (cmd: Cmd)
        ensures
            cmd@ == self.compiling(musl@, tools, source@, output@),
    {
        if tools.uses_clang() {
            let name: String = self.arch.musl_name("");
            proof {
                reveal_strlit("");
                assert(self.arch.musl() + ""@ =~= self.arch.musl());
            }
            let target: String = cat("--target=", name.as_str());
            let sysroot: String = cat(
                "--sysroot=",
                join(musl, name.as_str()).as_str(),
            );
            let toolchain: String = cat("--gcc-toolchain=", musl);
            Cmd::new(Base::Program(String::from_str("clang"))).arg(target.as_str()).arg(
                sysroot.as_str(),
            ).arg(toolchain.as_str()).arg("-fuse-ld=lld").arg("-D_GNU_SOURCE").arg(
                "-Wno-implicit-function-declaration",
            ).arg(source).arg("-o").arg(output)
        } else {
            let gcc: String = self.arch.musl_name("-gcc");
            Cmd::new(Base::Program(join2(musl, "bin", gcc.as_str()))).arg(source).arg("-o").arg(
                output,
            )
        }
    }

    /// How the tests among the first `n` files are built.
    pub open spec fn compiling_all(
        self,
        bin: Seq<char>,
        musl: Seq<char>,
        tools: HostTools,
        sources: Seq<Source>,
        n: nat,
    ) -> Seq<StepView>
        decreases n,
    {
        if n == 0 {
            Seq::empty()
        } else {
            let before = self.compiling_all(bin, musl, tools, sources, (n - 1) as nat);
            match c_stem(sources[n - 1].name@) {
                Some(stem) => before.push(
                    must(
                        ActionView::Run(
                            self.compiling(
                                musl,
                                tools,
                                sources[n - 1].path@,
                                path_join(bin, stem),
                            ),
                        ),
                    ),
                ),
                None => before,
            }
        }
    }

    /// How the other tests are put in place.
    pub open spec fn putting_other_test(
        self,
        project: Seq<char>,
        origin: Seq<char>,
        target: Seq<char>,
        musl: Seq<char>,
        tools: HostTools,
        sources: Seq<Source>,
    ) -> Seq<StepView> {
        let dir = self.spec_path(project);
        seq![must(ActionView::MakeRootfs(self.arch))] + self.compiling_all(
            path_join(dir, "bin"@),
            musl,
            tools,
            sources,
            sources.len(),
        ) + (if self.arch is Riscv64 {
            unpacking_special(origin, target).push(
                must(
                    ActionView::CopyDir {
                        from: path_join2(target, "prebuild"@, "oscomp"@),
                        to: path_join(dir, "oscomp"@),
                    },
                ),
            )
        } else {
            Seq::empty()
        })
    }

    /// Builds the other tests, which are the C files among `sources`, with the cross
    /// compiler at the canonical path `musl`.
    pub fn put_other_test(
        &self,
        dirs: Dirs<'_>,
        musl: &str,
        tools: HostTools,
        sources: &Vec<Source>,
    ) -> (plan: Plan)
        ensures
            plan@ == self.putting_other_test(
                dirs.project@,
                dirs.origin@,
                dirs.target@,
                musl@,
                tools,
                sources@,
            ),
    {
        let dir: String = self.path(dirs.project);
        let bin: String = join(dir.as_str(), "bin");
        let mut plan: Plan = Plan::new();
        plan.must(Action::MakeRootfs(self.arch));
        let ghost head = seq![must(ActionView::MakeRootfs(self.arch))];
        let mut i: usize = 0;
        assert(plan@ =~= head + self.compiling_all(bin@, musl@, tools, sources@, 0));
        while i < sources.len()
            invariant
                i <= sources.len(),
                plan@ == head + self.compiling_all(bin@, musl@, tools, sources@, i as nat),
            decreases sources.len() - i,
        {
            let source: &Source = &sources[i];
            if let Some(stem) = stem_of(source.name.as_str()) {
                let output: String = join(bin.as_str(), stem);
                plan.must(
                    Action::Run(self.compile(musl, tools, source.path.as_str(), output.as_str())),
                );
            }
            assert(plan@ =~= head + self.compiling_all(
                bin@,
                musl@,
                tools,
                sources@,
                (i + 1) as nat,
            ));
            i += 1;
        }
        if let Arch::Riscv64 = self.arch {
            let (unpack, special) = riscv64_special(dirs.origin, dirs.target);
            plan.append(unpack);
            plan.must(
                Action::CopyDir {
                    from: join(special.as_str(), "oscomp"),
                    to: join(dir.as_str(), "oscomp"),
                },
            );
        }
        assert(plan@ =~= self.putting_other_test(
            dirs.project@,
            dirs.origin@,
            dirs.target@,
            musl@,
            tools,
            sources@,
        ));
        plan
    }
}

/// What is fetched is what is unpacked, into a directory that was cleared.
pub proof fn law_special_files_are_unpacked(origin: Seq<char>, target: Seq<char>)
    ensures
        ({
            let plan = unpacking_special(origin, target);
            plan[0].action matches ActionView::Fetch { url, to: archive } && (
            plan[2].action matches ActionView::Run(cmd) && cmd.base == (BaseView::Tar {
                from: archive,
                to: target,
            })) && plan[1].action == ActionView::Clear(target) && plan.len() == 3
        }),
{
}

/// The test suite is built where it was copied to, for the architecture, and configured
/// before. Every directory of it that is kept is pruned, and only after it was built. On
/// RISC-V what was built elsewhere is unpacked before it is put in its place.
pub proof fn law_suite_is_built_in_its_copy(
    rootfs: LinuxRootfs,
    project: Seq<char>,
    origin: Seq<char>,
    target: Seq<char>,
    path: Seq<char>,
    i: int,
)
    requires
        0 <= i < 6,
    ensures
        ({
            let plan = rootfs.putting_libc_test(project, origin, target, path);
            let n = plan.len() - 8;
            &&& plan[0].action == ActionView::MakeRootfs(rootfs.arch)
            &&& plan[1].action matches ActionView::Remove(dir) && {
                &&& dir == path_join(
                    path_join(path_join(project, "rootfs"@), rootfs.arch.spec_name()),
                    "libc-test"@,
                )
                &&& plan[2].action == (ActionView::CopyDir { from: "libc-test"@, to: dir })
                &&& plan[3].action == (ActionView::Copy {
                    from: path_join(dir, "config.mak.def"@),
                    to: path_join(dir, "config.mak"@),
                })
                &&& plan[4].action matches ActionView::Run(make) && {
                    &&& make.base == BaseView::Make
                    &&& make.dir == Some(dir)
                    &&& make.envs.contains(("ARCH"@, rootfs.arch.spec_name()))
                    &&& make.envs.contains(
                        ("CROSS_COMPILE"@, rootfs.arch.spec_name() + "-linux-musl"@ + "-"@),
                    )
                    &&& make.envs.contains(("PATH"@, path))
                }
                &&& !(rootfs.arch is Riscv64) ==> n == 5
                &&& rootfs.arch is Riscv64 ==> {
                    &&& n == 9
                    &&& plan.subrange(5, 8) == unpacking_special(origin, target)
                    &&& plan[8].action == (ActionView::Copy {
                        from: path_join(
                            path_join(target, "prebuild"@),
                            "libc-test/functional/tls_align-static.exe"@,
                        ),
                        to: path_join(dir, "src/functional/tls_align-static.exe"@),
                    })
                }
                &&& plan[n].action == (ActionView::Prune { dir: SuiteDir::Top, path: dir })
                &&& plan[n + 1].action == (ActionView::Prune {
                    dir: SuiteDir::Src,
                    path: path_join(dir, "src"@),
                })
                &&& plan[n + 2 + i].action == (ActionView::Prune {
                    dir: SuiteDir::Tests,
                    path: path_join(path_join(dir, "src"@), TEST_SET@[i]@),
                })
            }
        }),
{
    let plan = rootfs.putting_libc_test(project, origin, target, path);
    let n = plan.len() - 8;
    let dir = rootfs.suite(project);
    let dirs = pruned_dirs(dir);
    assert(dirs.len() == 8);
    let make = plan[4].action->Run_0;
    assert(make.envs[0] == ("ARCH"@, rootfs.arch.spec_name()));
    assert(make.envs[1] == ("CROSS_COMPILE"@, rootfs.arch.spec_name() + "-linux-musl"@ + "-"@));
    assert(make.envs[2] == ("PATH"@, path));
    assert(plan[n] == dirs[0]);
    assert(plan[n + 1] == dirs[1]);
    assert(plan[n + 2 + i] == dirs[2 + i]);
    if rootfs.arch is Riscv64 {
        assert(plan.subrange(5, 8) =~= unpacking_special(origin, target));
    }
}

/// Whether `step` makes the program `output` out of `source`: with the cross compiler of
/// the architecture where it can be used, and else with `clang` for the architecture.
pub open spec fn compiles(
    step: StepView,
    rootfs: LinuxRootfs,
    musl: Seq<char>,
    tools: HostTools,
    source: Seq<char>,
    output: Seq<char>,
) -> bool {
    let triple = rootfs.arch.spec_name() + "-linux-musl"@;
    step.action matches ActionView::Run(cmd) && {
        let m = cmd.args.len() as int;
        &&& m >= 3
        &&& cmd.args[m - 3] == ArgView::Plain(source)
        &&& cmd.args[m - 2] == ArgView::Plain("-o"@)
        &&& cmd.args[m - 1] == ArgView::Plain(output)
        &&& if tools.is_linux && tools.has_musl_gcc {
            cmd.base == BaseView::Program(path_join(path_join(musl, "bin"@), triple + "-gcc"@))
        } else {
            cmd.base == BaseView::Program("clang"@) && cmd.args[0] == ArgView::Plain(
                "--target="@ + triple,
            )
        }
    }
}

/// Every C source is compiled, and the program comes to the directory for programs, under
/// the name of the source without its ending.
pub proof fn law_every_source_is_compiled(
    rootfs: LinuxRootfs,
    bin: Seq<char>,
    musl: Seq<char>,
    tools: HostTools,
    sources: Seq<Source>,
    n: nat,
    i: int,
    stem: Seq<char>,
)
    requires
        0 <= i < n <= sources.len(),
        sources[i].name@ == stem + ".c"@,
        stem.len() > 0,
    ensures
        exists|k: int|
            0 <= k < rootfs.compiling_all(bin, musl, tools, sources, n).len()
                && #[trigger] compiles(
                rootfs.compiling_all(bin, musl, tools, sources, n)[k],
                rootfs,
                musl,
                tools,
                sources[i].path@,
                path_join(bin, stem),
            ),
    decreases n,
{
    let plan = rootfs.compiling_all(bin, musl, tools, sources, n);
    let before = rootfs.compiling_all(bin, musl, tools, sources, (n - 1) as nat);
    let source = sources[i].path@;
    let output = path_join(bin, stem);
    if i < n - 1 {
        law_every_source_is_compiled(
            rootfs,
            bin,
            musl,
            tools,
            sources,
            (n - 1) as nat,
            i,
            stem,
        );
        let k = choose|k: int|
            0 <= k < before.len() && #[trigger] compiles(
                before[k],
                rootfs,
                musl,
                tools,
                source,
                output,
            );
        assert(plan[k] == before[k]);
        assert(compiles(plan[k], rootfs, musl, tools, source, output));
    } else {
        reveal_strlit(".c");
        let name = sources[i].name@;
        assert(name.take(name.len() - 2) =~= stem);
        assert(name.skip(name.len() - 2) =~= ".c"@);
        let k = before.len() as int;
        assert(plan[k].action is Run);
        assert(compiles(plan[k], rootfs, musl, tools, source, output));
    }
}

/// On RISC-V further tests come out of what was unpacked; elsewhere there are none.
pub proof fn law_further_tests_are_unpacked(
    rootfs: LinuxRootfs,
    project: Seq<char>,
    origin: Seq<char>,
    target: Seq<char>,
    musl: Seq<char>,
    tools: HostTools,
    sources: Seq<Source>,
)
    ensures
        ({
            let plan = rootfs.putting_other_test(project, origin, target, musl, tools, sources);
            let compiled = rootfs.compiling_all(
                path_join(
                    path_join(path_join(project, "rootfs"@), rootfs.arch.spec_name()),
                    "bin"@,
                ),
                musl,
                tools,
                sources,
                sources.len(),
            );
            let n = 1 + compiled.len() as int;
            &&& plan[0].action == ActionView::MakeRootfs(rootfs.arch)
            &&& plan.subrange(1, n) == compiled
            &&& !(rootfs.arch is Riscv64) ==> plan.len() == n
            &&& rootfs.arch is Riscv64 ==> {
                &&& plan.len() == n + 4
                &&& plan.subrange(n, n + 3) == unpacking_special(origin, target)
                &&& plan.last().action == (ActionView::CopyDir {
                    from: path_join(path_join(target, "prebuild"@), "oscomp"@),
                    to: path_join(
                        path_join(path_join(project, "rootfs"@), rootfs.arch.spec_name()),
                        "oscomp"@,
                    ),
                })
            }
        }),
{
    let plan = rootfs.putting_other_test(project, origin, target, musl, tools, sources);
    let compiled = rootfs.compiling_all(
        path_join(rootfs.spec_path(project), "bin"@),
        musl,
        tools,
        sources,
        sources.len(),
    );
    let n = 1 + compiled.len() as int;
    assert(plan.subrange(1, n) =~= compiled);
    if rootfs.arch is Riscv64 {
        assert(plan.subrange(n, n + 3) =~= unpacking_special(origin, target));
    }
}

} // verus!
