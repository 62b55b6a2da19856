//! Tasks around the kernel: tools, styles, and running it as a program.

use vstd::prelude::*;

use crate::words::{
    cat, cat3, decimal, is_solid, joined, law_joined_parts_come_back, law_words_come_back,
    lines, split, split_lines, split_on, split_words, strings, strip_prefix, stripped,
    to_decimal, words,
};
use crate::xtask::arch::Arch;
use crate::xtask::kernel::BuildConfig;
use crate::xtask::plan::{
    attempt, join, join2, join3, must, path_join, path_join2, path_join3, Action, ActionView, Arg,
    ArgView, Base, BaseView, CargoSub, Cmd, CmdView, Plan, StepView,
};
use crate::xtask::rootfs::{all_digits, LinuxRootfs};

verus! {

pub const ZIRCON_URL: &'static str =
    "https://github.com/rcore-os/zCore/releases/download/prebuilt-2208/prebuilt.tar.xz";

pub const LIBOS_URL: &'static str =
    "https://github.com/YdrMaster/zCore/releases/download/musl-cache/rootfs-libos.tar.gz";

/// Where files from the network are kept, by architecture.
pub fn archs_dir(project: &str) -> (path: String)
    ensures
        path@ == path_join3(project@, "ignored"@, "origin"@, "archs"@),
{
    join3(project, "ignored", "origin", "archs")
}

/// Where repositories from the network are kept.
pub fn repos_dir(project: &str) -> (path: String)
    ensures
        path@ == path_join3(project@, "ignored"@, "origin"@, "repos"@),
{
    join3(project, "ignored", "origin", "repos")
}

/// Where generated files are kept.
pub fn target_dir(project: &str) -> (path: String)
    ensures
        path@ == path_join2(project@, "ignored"@, "target"@),
{
    join2(project, "ignored", "target")
}

/// The number that digits stand for.
pub open spec fn number(digits: Seq<char>) -> nat
    decreases digits.len(),
{
    if digits.len() == 0 {
        0
    } else {
        number(digits.drop_last()) * 10 + (digits.last() as int - 48) as nat
    }
}

/// Whether a text is a number up to 255, without leading zeroes.
pub open spec fn is_octet(text: Seq<char>) -> bool {
    &&& 1 <= text.len() <= 3
    &&& all_digits(text)
    &&& text.len() > 1 ==> text[0] != '0'
    &&& number(text) <= 255
}

/// Whether a text is an IPv4 address: four numbers up to 255 with dots in between.
pub open spec fn is_ipv4(text: Seq<char>) -> bool {
    let parts = split(text, '.');
    parts.len() == 4 && is_octet(parts[0]) && is_octet(parts[1]) && is_octet(parts[2]) && is_octet(
        parts[3],
    )
}

fn digit_of(c: char) -> (d: u16)
    requires
        '0' <= c <= '9',
    ensures
        d == c as int - 48,
{
    (c as u32 - 48) as u16
}

fn check_octet(text: &str) -> (yes: bool)
    ensures
        yes == is_octet(text@),
{
    let n: usize = text.unicode_len();
    if n < 1 || n > 3 {
        return false;
    }
    let mut value: u16 = 0;
    let mut i: usize = 0;
    assert(text@.take(0) =~= Seq::<char>::empty());
    while i < n
        invariant
            n == text@.len(),
            n <= 3,
            i <= n,
            forall|k: int| 0 <= k < i ==> '0' <= #[trigger] text@[k] <= '9',
            value == number(text@.take(i as int)),
            i == 0 ==> value == 0,
            i == 1 ==> value < 10,
            i == 2 ==> value < 100,
            i == 3 ==> value < 1000,
        decreases n - i,
    {
        let c: char = text.get_char(i);
        if !('0' <= c && c <= '9') {
            assert(!('0' <= text@[i as int] <= '9'));
            return false;
        }
        proof {
            assert(text@.take(i + 1).drop_last() =~= text@.take(i as int));
            assert(text@.take(i + 1).last() == c);
        }
        value = value * 10 + digit_of(c);
        i += 1;
    }
    assert(text@.take(n as int) =~= text@);
    if n > 1 && text.get_char(0) == '0' {
        return false;
    }
    value <= 255
}

/// Whether a text is an IPv4 address.
pub fn check_ipv4(text: &str) -> (yes: bool)
    ensures
        yes == is_ipv4(text@),
{
    let parts: Vec<String> = split_on(text, '.');
    assert(strings(parts@).len() == parts.len());
    if parts.len() != 4 {
        return false;
    }
    proof {
        assert(strings(parts@)[0] == parts@[0]@);
        assert(strings(parts@)[1] == parts@[1]@);
        assert(strings(parts@)[2] == parts@[2]@);
        assert(strings(parts@)[3] == parts@[3]@);
    }
    check_octet(parts[0].as_str()) && check_octet(parts[1].as_str()) && check_octet(
        parts[2].as_str(),
    ) && check_octet(parts[3].as_str())
}

/// The name server that a line of the resolver's configuration gives.
pub open spec fn server_in(line: Seq<char>) -> Option<Seq<char>> {
    match stripped(line, "nameserver "@) {
        Some(rest) => if is_ipv4(rest) {
            Some(rest)
        } else {
            None
        },
        None => None,
    }
}

/// The first name server that one of the first `n` lines gives.
pub open spec fn first_server(list: Seq<Seq<char>>, n: nat) -> Option<Seq<char>>
    decreases n,
{
    if n == 0 {
        None
    } else {
        match first_server(list, (n - 1) as nat) {
            Some(server) => Some(server),
            None => server_in(list[n - 1]),
        }
    }
}

/// The first name server in the resolver's configuration.
pub fn detect_dns(resolv: &str) -> (dns: Option<String>)
    ensures
        match dns {
            Some(dns) => first_server(lines(resolv@), lines(resolv@).len()) == Some(dns@),
            None => first_server(lines(resolv@), lines(resolv@).len()) is None,
        },
{
    let list: Vec<String> = split_lines(resolv);
    let ghost all = lines(resolv@);
    assert(strings(list@).len() == list.len());
    let mut found: Option<String> = None;
    let mut i: usize = 0;
    while i < list.len()
        invariant
            i <= list.len(),
            all == strings(list@),
            match found {
                Some(dns) => first_server(all, i as nat) == Some(dns@),
                None => first_server(all, i as nat) is None,
            },
        decreases list.len() - i,
    {
        assert(all[i as int] == list@[i as int]@);
        if found.is_none() {
            if let Some(rest) = strip_prefix(list[i].as_str(), "nameserver ") {
                if check_ipv4(rest) {
                    found = Some(String::from_str(rest));
                }
            }
        }
        i += 1;
    }
    found
}

/// How `git` is told to use a proxy.
pub open spec fn setting_proxy(global: bool, dns: Seq<char>, port: u16) -> Seq<StepView> {
    let proxy = "socks5://"@ + dns + ":"@ + decimal(port as nat);
    let git = CmdView::new(BaseView::GitConfig { global });
    seq![
        must(ActionView::Run(git.arg("http.proxy"@).arg(proxy))),
        must(ActionView::Run(git.arg("https.proxy"@).arg(proxy))),
        must(ActionView::Print("git proxy = "@ + proxy)),
    ]
}

/// Tells `git` to use the proxy at `port` of the machine that the resolver's
/// configuration names first.
pub fn set_git_proxy(global: bool, port: u16, resolv: &str) -> (plan: Option<Plan>)
    ensures
        ({
            let dns = first_server(lines(resolv@), lines(resolv@).len());
            match plan {
                Some(plan) => dns is Some && plan@ == setting_proxy(global, dns->0, port),
                None => dns is None,
            }
        }),
{
    match detect_dns(resolv) {
        None => None,
        Some(dns) => {
            let mut proxy: String = cat3("socks5://", dns.as_str(), ":");
            proxy.append(to_decimal(port as u64).as_str());
            let mut plan: Plan = Plan::new();
            plan.must(
                Action::Run(
                    Cmd::new(Base::GitConfig { global }).arg("http.proxy").arg(proxy.as_str()),
                ),
            );
            plan.must(
                Action::Run(
                    Cmd::new(Base::GitConfig { global }).arg("https.proxy").arg(proxy.as_str()),
                ),
            );
            plan.must(Action::Print(cat("git proxy = ", proxy.as_str())));
            assert(plan@ =~= setting_proxy(global, dns@, port));
            Some(plan)
        },
    }
}

/// How `git` is told to use no proxy.
pub open spec fn unsetting_proxy(global: bool) -> Seq<StepView> {
    let git = CmdView::new(BaseView::GitConfig { global });
    seq![
        must(ActionView::Run(git.arg("--unset"@).arg("http.proxy"@))),
        must(ActionView::Run(git.arg("--unset"@).arg("https.proxy"@))),
        must(ActionView::Print("git proxy ="@)),
    ]
}

/// Tells `git` to use no proxy.
pub fn unset_git_proxy(global: bool) -> (plan: Plan)
    ensures
        plan@ == unsetting_proxy(global),
{
    let mut plan: Plan = Plan::new();
    plan.must(Action::Run(Cmd::new(Base::GitConfig { global }).arg("--unset").arg("http.proxy")));
    plan.must(Action::Run(Cmd::new(Base::GitConfig { global }).arg("--unset").arg("https.proxy")));
    plan.must(Action::Print(String::from_str("git proxy =")));
    assert(plan@ =~= unsetting_proxy(global));
    plan
}

/// How prebuilt files for the other personality of the kernel are unpacked.
pub open spec fn installing_prebuilt(project: Seq<char>, origin: Seq<char>) -> Seq<StepView> {
    let tar = path_join(origin, "prebuilt.tar.xz"@);
    let dir = path_join(project, "prebuilt"@);
    let target = path_join3(project, "ignored"@, "target"@, "zircon"@);
    seq![
        must(ActionView::Fetch { url: ZIRCON_URL@, to: tar }),
        attempt(ActionView::Remove(dir)),
        attempt(ActionView::Remove(target)),
        must(ActionView::CreateDirs(target)),
        must(ActionView::Run(CmdView::new(BaseView::Tar { from: tar, to: target }))),
        must(ActionView::CopyDir { from: path_join(target, "prebuilt"@), to: dir }),
    ]
}

/// Unpacks prebuilt files for the other personality of the kernel. `origin` is where
/// files from the network are for PCs.
pub fn install_zircon_prebuilt(project: &str, origin: &str) -> (plan: Plan)
    ensures
        plan@ == installing_prebuilt(project@, origin@),
{
    let tar: String = join(origin, "prebuilt.tar.xz");
    let dir: String = join(project, "prebuilt");
    let target: String = join3(project, "ignored", "target", "zircon");
    let mut plan: Plan = Plan::new();
    plan.must(Action::Fetch { url: String::from_str(ZIRCON_URL), to: tar.clone() });
    plan.attempt(Action::Remove(dir.clone()));
    plan.attempt(Action::Remove(target.clone()));
    plan.must(Action::CreateDirs(target.clone()));
    plan.must(Action::Run(Cmd::new(Base::Tar { from: tar, to: target.clone() })));
    plan.must(Action::CopyDir { from: join(target.as_str(), "prebuilt"), to: dir });
    assert(plan@ =~= installing_prebuilt(project@, origin@));
    plan
}

/// How tools, dependencies and parts are brought up to date.
pub open spec fn updating() -> Seq<StepView> {
    seq![
        must(ActionView::Run(CmdView::new(BaseView::GitSubmoduleUpdate { init: false }))),
        must(ActionView::Run(CmdView::new(BaseView::Program("rustup"@)).arg("update"@))),
        must(ActionView::Run(CmdView::new(BaseView::Cargo(CargoSub::Update)))),
    ]
}

/// Brings tools, dependencies and parts up to date.
pub fn update_all() -> (plan: Plan)
    ensures
        plan@ == updating(),
{
    let mut plan: Plan = Plan::new();
    plan.must(Action::Run(Cmd::new(Base::GitSubmoduleUpdate { init: false })));
    plan.must(Action::Run(Cmd::new(Base::Program(String::from_str("rustup"))).arg("update")));
    plan.must(Action::Run(Cmd::new(Base::Cargo(CargoSub::Update))));
    assert(plan@ =~= updating());
    plan
}

/// How the style of the sources is examined, apart from the kernels that run on
/// machines.
pub open spec fn checking_style() -> Seq<StepView> {
    seq![
        must(ActionView::Print("Check workspace"@)),
        must(
            ActionView::Run(
                CmdView::new(BaseView::Cargo(CargoSub::Fmt)).arg("--all"@).arg("--"@).arg(
                    "--check"@,
                ),
            ),
        ),
        must(
            ActionView::Run(
                CmdView::new(BaseView::Cargo(CargoSub::Clippy)).add(ArgView::AllFeatures),
            ),
        ),
        must(
            ActionView::Run(
                CmdView::new(BaseView::Cargo(CargoSub::Doc)).add(ArgView::AllFeatures).arg(
                    "--no-deps"@,
                ),
            ),
        ),
        must(ActionView::Print("Check libos"@)),
        must(ActionView::Print("    Checks linux libos"@)),
        must(
            ActionView::Run(
                CmdView::new(BaseView::Cargo(CargoSub::Clippy)).add(
                    ArgView::Package("zcore"@),
                ).add(ArgView::Features { default: false, list: seq!["linux"@, "libos"@] }),
            ),
        ),
        must(ActionView::Print("Check bare-metal"@)),
    ]
}

fn libos_features() -> (list: Vec<String>)
    ensures
        strings(list@) == seq!["linux"@, "libos"@],
{
    let mut list: Vec<String> = Vec::new();
    list.push(String::from_str("linux"));
    list.push(String::from_str("libos"));
    assert(strings(list@) =~= seq!["linux"@, "libos"@]);
    list
}

/// Examines the style of the sources, apart from the kernels that run on machines:
/// see [`check_bare_metal`].
pub fn check_style() -> (plan: Plan)
    ensures
        plan@ == checking_style(),
{
    let mut plan: Plan = Plan::new();
    plan.must(Action::Print(String::from_str("Check workspace")));
    plan.must(
        Action::Run(
            Cmd::new(Base::Cargo(CargoSub::Fmt)).arg("--all").arg("--").arg("--check"),
        ),
    );
    plan.must(Action::Run(Cmd::new(Base::Cargo(CargoSub::Clippy)).add(Arg::AllFeatures)));
    plan.must(
        Action::Run(
            Cmd::new(Base::Cargo(CargoSub::Doc)).add(Arg::AllFeatures).arg("--no-deps"),
        ),
    );
    plan.must(Action::Print(String::from_str("Check libos")));
    plan.must(Action::Print(String::from_str("    Checks linux libos")));
    plan.must(
        Action::Run(
            Cmd::new(Base::Cargo(CargoSub::Clippy)).add(
                Arg::Package(String::from_str("zcore")),
            ).add(Arg::Features { default: false, list: libos_features() }),
        ),
    );
    plan.must(Action::Print(String::from_str("Check bare-metal")));
    assert(plan@ =~= checking_style());
    plan
}

/// The architectures whose kernels are examined, in order.
pub fn bare_metal_archs() -> (archs: [Arch; 3])
    ensures
        archs@ == seq![Arch::Riscv64, Arch::X86_64, Arch::Aarch64],
{
    let archs: [Arch; 3] = [Arch::Riscv64, Arch::X86_64, Arch::Aarch64];
    assert(archs@ =~= seq![Arch::Riscv64, Arch::X86_64, Arch::Aarch64]);
    archs
}

/// How the style of a kernel is examined.
pub open spec fn checking_bare_metal(project: Seq<char>, arch: Arch, config: BuildConfig) -> Seq<
    StepView,
> {
    seq![
        must(ActionView::Print("    Checks "@ + arch.spec_name() + " bare-metal"@)),
    ] + (if config.user_img is Some {
        seq![must(ActionView::MakeImage(config.arch))]
    } else {
        Seq::empty()
    }) + config.handing_over(project, CargoSub::Clippy)
}

/// Examines the style of the kernel for an architecture, which is built as `config`
/// says.
pub fn check_bare_metal(project: &str, arch: Arch, config: &BuildConfig) -> (plan: Plan)
    ensures
        plan@ == checking_bare_metal(project@, arch, *config),
{
    let mut plan: Plan = Plan::new();
    plan.must(Action::Print(cat3("    Checks ", arch.name(), " bare-metal")));
    plan.append(config.before_build());
    plan.append(config.hand_over(project, CargoSub::Clippy));
    assert(plan@ =~= checking_bare_metal(project@, arch, *config));
    plan
}

/// Where the root file system of the kernel that runs as a program is.
pub const LIBOS_ROOTFS: &'static str = "rootfs/libos";

/// How the root file system of the kernel that runs as a program is put in place.
pub open spec fn libos_putting_rootfs(project: Seq<char>, clear: bool) -> Seq<StepView> {
    let origin = path_join2(
        path_join3(project, "ignored"@, "origin"@, "archs"@),
        "libos"@,
        "rootfs-libos.tar.gz"@,
    );
    let target = path_join3(project, "ignored"@, "target"@, "libos"@);
    seq![
        must(ActionView::CreateParent(origin)),
        must(ActionView::Fetch { url: LIBOS_URL@, to: origin }),
        must(ActionView::CreateDirs(target)),
        must(ActionView::Run(CmdView::new(BaseView::Tar { from: origin, to: target }))),
    ] + (if clear {
        seq![attempt(ActionView::Clear(LIBOS_ROOTFS@))]
    } else {
        Seq::empty()
    }) + seq![
        must(ActionView::CopyDir { from: path_join(target, "rootfs"@), to: LIBOS_ROOTFS@ }),
    ]
}

/// Puts the root file system of the kernel that runs as a program in place.
pub fn libos_rootfs(project: &str, clear: bool) -> (plan: Plan)
    ensures
        plan@ == libos_putting_rootfs(project@, clear),
{
    let origin: String = join2(archs_dir(project).as_str(), "libos", "rootfs-libos.tar.gz");
    let target: String = join(target_dir(project).as_str(), "libos");
    let mut plan: Plan = Plan::new();
    plan.must(Action::CreateParent(origin.clone()));
    plan.must(Action::Fetch { url: String::from_str(LIBOS_URL), to: origin.clone() });
    plan.must(Action::CreateDirs(target.clone()));
    plan.must(Action::Run(Cmd::new(Base::Tar { from: origin, to: target.clone() })));
    if clear {
        plan.attempt(Action::Clear(String::from_str(LIBOS_ROOTFS)));
    }
    plan.must(
        Action::CopyDir {
            from: join(target.as_str(), "rootfs"),
            to: String::from_str(LIBOS_ROOTFS),
        },
    );
    assert(plan@ =~= libos_putting_rootfs(project@, clear));
    plan
}

/// How the tests are built for PCs and copied for the kernel that runs as a program.
pub open spec fn libos_putting_libc_test(project: Seq<char>) -> Seq<StepView> {
    seq![
        must(ActionView::PutLibcTest(Arch::X86_64)),
        must(ActionView::Clear("rootfs/libos/libc-test"@)),
        must(
            ActionView::CopyDir {
                from: path_join(
                    (LinuxRootfs { arch: Arch::X86_64 }).spec_path(project),
                    "libc-test"@,
                ),
                to: "rootfs/libos/libc-test"@,
            },
        ),
    ]
}

/// Builds the tests for PCs and copies them for the kernel that runs as a program.
pub fn libos_put_libc_test(project: &str) -> (plan: Plan)
    ensures
        plan@ == libos_putting_libc_test(project@),
{
    let built: LinuxRootfs = LinuxRootfs::new(Arch::X86_64);
    let mut plan: Plan = Plan::new();
    plan.must(Action::PutLibcTest(Arch::X86_64));
    plan.must(Action::Clear(String::from_str("rootfs/libos/libc-test")));
    plan.must(
        Action::CopyDir {
            from: join(built.path(project).as_str(), "libc-test"),
            to: String::from_str("rootfs/libos/libc-test"),
        },
    );
    assert(plan@ =~= libos_putting_libc_test(project@));
    plan
}

/// A command with several plain arguments more.
pub open spec fn with_args(cmd: CmdView, args: Seq<Seq<char>>) -> CmdView
    decreases args.len(),
{
    if args.len() == 0 {
        cmd
    } else {
        with_args(cmd, args.drop_last()).arg(args.last())
    }
}

/// The command that runs the kernel as a program.
pub open spec fn libos_running(args: Seq<char>) -> CmdView {
    with_args(
        CmdView::new(BaseView::Cargo(CargoSub::Run)).add(ArgView::Package("zcore"@)).add(
            ArgView::Release,
        ).add(ArgView::Features { default: true, list: seq!["linux"@, "libos"@] }).arg("--"@),
        words(args),
    )
}

/// Runs the kernel as a program, which is given `args`. Where the build keeps its
/// output, `out_dir`, is said first.
pub fn libos_linux_run(project: &str, out_dir: &str, args: &str) -> (plan: Plan)
    ensures
        plan@ == seq![must(ActionView::Print(out_dir@))] + libos_putting_rootfs(
            project@,
            false,
        ).push(must(ActionView::Run(libos_running(args@)))),
{
    let list: Vec<String> = split_words(args);
    let ghost all = words(args@);
    let mut cmd: Cmd = Cmd::new(Base::Cargo(CargoSub::Run)).add(
        Arg::Package(String::from_str("zcore")),
    ).add(Arg::Release).add(Arg::Features { default: true, list: libos_features() }).arg("--");
    let ghost head = cmd@;
    let mut i: usize = 0;
    proof {
        assert(all.take(0) =~= Seq::<Seq<char>>::empty());
        assert(strings(list@).len() == list.len());
    }
    while i < list.len()
        invariant
            i <= list.len(),
            all == strings(list@),
            cmd@ == with_args(head, all.take(i as int)),
        decreases list.len() - i,
    {
        cmd = cmd.arg(list[i].as_str());
        proof {
            assert(all.take(i + 1).drop_last() =~= all.take(i as int));
            assert(all.take(i + 1).last() == list@[i as int]@);
        }
        i += 1;
    }
    assert(all.take(i as int) =~= all);
    let mut plan: Plan = Plan::new();
    plan.must(Action::Print(String::from_str(out_dir)));
    plan.append(libos_rootfs(project, false));
    plan.must(Action::Run(cmd));
    assert(plan@ =~= seq![must(ActionView::Print(out_dir@))] + libos_putting_rootfs(
        project@,
        false,
    ).push(must(ActionView::Run(libos_running(args@)))));
    plan
}

/// A name server that is found stands on a line of its own, behind its keyword, and
/// is an address.
pub proof fn law_server_is_given(list: Seq<Seq<char>>, n: nat)
    requires
        n <= list.len(),
        first_server(list, n) is Some,
    ensures
        is_ipv4(first_server(list, n)->0),
        exists|i: int|
            0 <= i < n && #[trigger] list[i] == "nameserver "@ + first_server(list, n)->0,
    decreases n,
{
    if first_server(list, (n - 1) as nat) is Some {
        law_server_is_given(list, (n - 1) as nat);
    } else {
        let line = list[n - 1];
        let prefix = "nameserver "@;
        assert(line =~= prefix + line.skip(prefix.len() as int)) by {
            assert(line.take(prefix.len() as int) == prefix);
            assert(line =~= line.take(prefix.len() as int) + line.skip(prefix.len() as int));
        }
    }
}

/// The digits of a number stand for it, and there are no more of them than it takes.
pub proof fn law_number_can_be_read_back(n: nat)
    ensures
        number(decimal(n)) == n,
        all_digits(decimal(n)),
        decimal(n).len() >= 1,
        n < 10 <==> decimal(n).len() == 1,
        n < 100 ==> decimal(n).len() <= 2,
        n < 1000 ==> decimal(n).len() <= 3,
        n > 0 ==> decimal(n)[0] != '0',
        !decimal(n).contains('.'),
    decreases n,
{
    let text = decimal(n);
    if n >= 10 {
        law_number_can_be_read_back(n / 10);
        let before = decimal(n / 10);
        assert(text.drop_last() =~= before);
        assert(text[0] == before[0]);
        assert forall|i: int| 0 <= i < text.len() implies '0' <= #[trigger] text[i] <= '9' by {
            if i < before.len() {
                assert(text[i] == before[i]);
            }
        }
    } else {
        assert(text.drop_last() =~= Seq::<char>::empty());
        assert(number(text.drop_last()) == 0);
    }
    assert forall|i: int| 0 <= i < text.len() implies text[i] != '.' by {
        assert('0' <= text[i] <= '9');
    }
}

/// Four numbers of a byte each, with dots in between, are an address.
pub proof fn law_address_is_recognized(a: nat, b: nat, c: nat, d: nat)
    requires
        a < 256,
        b < 256,
        c < 256,
        d < 256,
    ensures
        is_ipv4(joined(seq![decimal(a), decimal(b), decimal(c), decimal(d)], '.')),
{
    let parts = seq![decimal(a), decimal(b), decimal(c), decimal(d)];
    law_number_can_be_read_back(a);
    law_number_can_be_read_back(b);
    law_number_can_be_read_back(c);
    law_number_can_be_read_back(d);
    assert forall|i: int| 0 <= i < parts.len() implies !(#[trigger] parts[i]).contains('.') by {}
    law_joined_parts_come_back(parts, '.');
}

/// The first line that names a server decides; lines before it that name none, and lines
/// after it, do not.
pub proof fn law_first_server_is_taken(list: Seq<Seq<char>>, n: nat, i: int, server: Seq<char>)
    requires
        0 <= i < n <= list.len(),
        list[i] == "nameserver "@ + server,
        is_ipv4(server),
        forall|k: int|
            0 <= k < i ==> !exists|other: Seq<char>|
                is_ipv4(other) && #[trigger] list[k] == #[trigger] ("nameserver "@ + other),
    ensures
        first_server(list, n) == Some(server),
    decreases n,
{
    let prefix = "nameserver "@;
    if i == n - 1 {
        assert(list[i].take(prefix.len() as int) =~= prefix);
        assert(list[i].skip(prefix.len() as int) =~= server);
        lemma_no_server(list, i as nat);
    } else {
        law_first_server_is_taken(list, (n - 1) as nat, i, server);
    }
}

proof fn lemma_no_server(list: Seq<Seq<char>>, n: nat)
    requires
        n <= list.len(),
        forall|k: int|
            0 <= k < n ==> !exists|other: Seq<char>|
                is_ipv4(other) && #[trigger] list[k] == #[trigger] ("nameserver "@ + other),
    ensures
        first_server(list, n) is None,
    decreases n,
{
    if n > 0 {
        lemma_no_server(list, (n - 1) as nat);
        let line = list[n - 1];
        if let Some(rest) = server_in(line) {
            let prefix = "nameserver "@;
            assert(line =~= prefix + rest);
            assert(is_ipv4(rest) && list[n - 1] == (prefix + rest));
            assert(false);
        }
    }
}

/// Whatever setting a proxy puts into the configuration, taking it back takes out, in the
/// same configuration.
pub proof fn law_proxy_can_be_taken_back(global: bool, dns: Seq<char>, port: u16, i: int)
    requires
        0 <= i < 2,
    ensures
        setting_proxy(global, dns, port)[i].action matches ActionView::Run(set) && (
        unsetting_proxy(global)[i].action matches ActionView::Run(unset) && {
            &&& set.base == BaseView::GitConfig { global }
            &&& unset.base == set.base
            &&& set.args.len() == 2
            &&& unset.args == seq![ArgView::Plain("--unset"@), set.args[0]]
            &&& set.args[1] == ArgView::Plain("socks5://"@ + dns + ":"@ + decimal(port as nat))
        }),
{
    let set = setting_proxy(global, dns, port)[i].action->Run_0;
    let unset = unsetting_proxy(global)[i].action->Run_0;
    assert(unset.args =~= seq![ArgView::Plain("--unset"@), set.args[0]]);
}

/// What is fetched is what is unpacked, and what is copied comes out of where it was
/// unpacked to. What was there before goes first.
pub proof fn law_prebuilt_files_are_installed(project: Seq<char>, origin: Seq<char>)
    ensures
        ({
            let plan = installing_prebuilt(project, origin);
            plan[0].action matches ActionView::Fetch { url, to: archive } && (
            plan[4].action matches ActionView::Run(cmd) && (
            cmd.base matches BaseView::Tar { from, to: dir } && (
            plan[5].action matches ActionView::CopyDir { from: unpacked, to } && {
                &&& from == archive
                &&& unpacked == path_join(dir, "prebuilt"@)
                &&& to == path_join(project, "prebuilt"@)
                &&& plan[1].action == ActionView::Remove(to)
                &&& plan[2].action == ActionView::Remove(dir)
                &&& plan[3].action == ActionView::CreateDirs(dir)
            })))
        }),
{
}

/// The root file system of the kernel that runs as a program is what was fetched and
/// unpacked. It is cleared before if that was asked for.
pub proof fn law_program_gets_what_was_fetched(project: Seq<char>, clear: bool)
    ensures
        ({
            let plan = libos_putting_rootfs(project, clear);
            plan[1].action matches ActionView::Fetch { url, to: archive } && (
            plan[3].action matches ActionView::Run(cmd) && (
            cmd.base matches BaseView::Tar { from, to: dir } && (
            plan.last().action matches ActionView::CopyDir { from: unpacked, to } && {
                &&& plan[0].action == ActionView::CreateParent(archive)
                &&& from == archive
                &&& plan[2].action == ActionView::CreateDirs(dir)
                &&& unpacked == path_join(dir, "rootfs"@)
                &&& clear ==> plan.len() == 6 && plan[4].action == ActionView::Clear(to)
                &&& !clear ==> plan.len() == 5
            })))
        }),
{
}

proof fn lemma_with_args(cmd: CmdView, args: Seq<Seq<char>>)
    ensures
        with_args(cmd, args).base == cmd.base,
        with_args(cmd, args).args.len() == cmd.args.len() + args.len(),
        forall|i: int|
            0 <= i < cmd.args.len() ==> #[trigger] with_args(cmd, args).args[i] == cmd.args[i],
        forall|i: int|
            #![trigger args[i]]
            0 <= i < args.len() ==> with_args(cmd, args).args[cmd.args.len() + i] == ArgView::Plain(
                args[i],
            ),
    decreases args.len(),
{
    if args.len() > 0 {
        lemma_with_args(cmd, args.drop_last());
        assert forall|i: int|
            #![trigger args[i]]
            0 <= i < args.len() implies with_args(cmd, args).args[cmd.args.len() + i]
            == ArgView::Plain(args[i]) by {
            if i < args.len() - 1 {
                assert(args.drop_last()[i] == args[i]);
            }
        }
    }
}

/// The program gets every word of its arguments, in order, behind what separates them
/// from those of the tool that runs it.
pub proof fn law_program_gets_its_arguments(list: Seq<Seq<char>>, i: int)
    requires
        forall|k: int| 0 <= k < list.len() ==> is_solid(#[trigger] list[k]),
        0 <= i < list.len(),
    ensures
        ({
            let cmd = libos_running(joined(list, ' '));
            let n = cmd.args.len() - list.len();
            &&& cmd.base == BaseView::Cargo(CargoSub::Run)
            &&& n >= 1
            &&& cmd.args[n - 1] == ArgView::Plain("--"@)
            &&& cmd.args[n + i] == ArgView::Plain(list[i])
        }),
{
    law_words_come_back(list);
    let tool = CmdView::new(BaseView::Cargo(CargoSub::Run)).add(ArgView::Package("zcore"@)).add(
        ArgView::Release,
    ).add(ArgView::Features { default: true, list: seq!["linux"@, "libos"@] }).arg("--"@);
    lemma_with_args(tool, list);
    assert(tool.args[tool.args.len() - 1] == ArgView::Plain("--"@));
}

} // verus!
