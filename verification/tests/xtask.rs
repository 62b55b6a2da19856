use zcore::xtask::arch::Arch;
use zcore::xtask::commands::{before_fetch, clone_repo, finish_fetch, temporary_place, wget};
use zcore::xtask::errors::XError;
use zcore::xtask::kernel::{gdb, BuildConfig, Machine, QemuArgs};
use zcore::xtask::plan::{join, Action, Arg, Base, CargoSub, Cmd, OnError, Plan, Step};
use zcore::xtask::rootfs::{check_so, join_path_env, HostTools, LibEntry, LinuxRootfs};
use zcore::xtask::suites::{keeps, prune, Dirs, Source, SuiteDir};
use zcore::xtask::tasks::{
    bare_metal_archs, check_bare_metal, check_ipv4, check_style, detect_dns,
    install_zircon_prebuilt, libos_linux_run, libos_put_libc_test, libos_rootfs, repos_dir,
    set_git_proxy, target_dir, unset_git_proxy, update_all,
};

fn arg(arg: &Arg) -> String {
    match arg {
        Arg::Plain(text) => text.clone(),
        Arg::AllFeatures => "<all>".to_string(),
        Arg::Features { default, list } => format!("<{}:{}>", default, list.join("+")),
        Arg::Target(target) => format!("<target {target}>"),
        Arg::Package(name) => format!("<package {name}>"),
        Arg::Release => "<release>".to_string(),
        Arg::AllJobs => "<jobs>".to_string(),
    }
}

fn cmd(cmd: &Cmd) -> String {
    let mut out = match &cmd.base {
        Base::Cargo(CargoSub::Build) => "cargo build".to_string(),
        Base::Cargo(CargoSub::Clippy) => "cargo clippy".to_string(),
        Base::Cargo(CargoSub::Doc) => "cargo doc".to_string(),
        Base::Cargo(CargoSub::Fmt) => "cargo fmt".to_string(),
        Base::Cargo(CargoSub::Run) => "cargo run".to_string(),
        Base::Cargo(CargoSub::Update) => "cargo update".to_string(),
        Base::GitConfig { global } => format!("git config {global}"),
        Base::GitSubmoduleUpdate { init } => format!("git submodule {init}"),
        Base::GitClone { repo, dir } => format!("git clone {repo} {dir}"),
        Base::Make => "make".to_string(),
        Base::Tar { from, to } => format!("tar {from} {to}"),
        Base::QemuImg => "qemu-img".to_string(),
        Base::QemuSystem(arch) => format!("qemu-system-{arch}"),
        Base::Objcopy => "objcopy".to_string(),
        Base::Objdump => "objdump".to_string(),
        Base::Program(name) => name.clone(),
    };
    for a in &cmd.args {
        out.push(' ');
        out.push_str(&arg(a));
    }
    for (name, value) in &cmd.envs {
        out.push_str(&format!(" {name}={value}"));
    }
    if let Some(dir) = &cmd.dir {
        out.push_str(&format!(" in {dir}"));
    }
    out
}

fn step(step: &Step) -> String {
    let mark = match step.on_error {
        OnError::Report => "",
        OnError::Panic => "!",
        OnError::Ignore => "?",
    };
    let what = match &step.action {
        Action::Run(c) => format!("run {}", cmd(c)),
        Action::Clear(path) => format!("clear {path}"),
        Action::CreateDirs(path) => format!("mkdir {path}"),
        Action::CreateParent(path) => format!("parent {path}"),
        Action::Remove(path) => format!("rm {path}"),
        Action::Copy { from, to } => format!("cp {from} {to}"),
        Action::CopyDir { from, to } => format!("cpdir {from} {to}"),
        Action::Write { path, text } => format!("write {path} {text:?}"),
        Action::Symlink { target, link } => format!("ln {target} {link}"),
        Action::Relink { like, link } => format!("relink {like} {link}"),
        Action::RunInto { cmd: c, path } => format!("run {} > {path}", cmd(c)),
        Action::Clone { repo, to } => format!("clone {repo} {to}"),
        Action::Fuse { dir, image } => format!("fuse {dir} {image}"),
        Action::Grow { path, bytes } => format!("grow {path} {bytes}"),
        Action::Fetch { url, to } => format!("fetch {url} {to}"),
        Action::Print(text) => format!("print {text}"),
        Action::PrintVariable { name, value } => format!("print {name}={value}"),
        Action::Prune { dir, path } => format!("prune {dir:?} {path}"),
        Action::MakeRootfs(arch) => format!("rootfs {}", arch.name()),
        Action::MakeImage(arch) => format!("image {}", arch.name()),
        Action::PutLibcTest(arch) => format!("libc-test {}", arch.name()),
    };
    format!("{mark}{what}")
}

fn steps(plan: &Plan) -> Vec<String> {
    plan.steps.iter().map(step).collect()
}

fn tools() -> HostTools {
    HostTools { is_linux: true, has_llvm_strip: false, has_musl_strip: true, has_musl_gcc: true }
}

fn machine() -> Machine {
    Machine {
        arch: "riscv64".to_string(),
        features: vec!["board-qemu".to_string(), "a".to_string()],
        user_img: None,
        pci_support: false,
    }
}

#[test]
fn paths_are_joined() {
    for (dir, name) in [("/a", "b"), ("/a/", "b"), ("", "b"), ("/a", "/b"), ("a", ""), ("/", "x/y")] {
        let expected = std::path::Path::new(dir).join(name);
        assert_eq!(join(dir, name), expected.to_str().unwrap());
    }
}

#[test]
fn architectures_have_names() {
    for arch in [Arch::Riscv64, Arch::X86_64, Arch::Aarch64] {
        assert_eq!(Arch::parse(arch.name()).ok(), Some(arch));
    }
    let error: XError = Arch::parse("mips").unwrap_err();
    assert_eq!(error.message(), "Parse Arch from mips failed.");
    assert_eq!(Arch::Riscv64.musl_name("-gcc"), "riscv64-linux-musl-gcc");
}

#[test]
fn temporary_places_are_numbered() {
    let place = temporary_place();
    let number = place.strip_prefix("/tmp/").unwrap();
    assert!(number.parse::<u64>().is_ok());
    assert_ne!(temporary_place(), temporary_place());
}

#[test]
fn downloads() {
    assert!(wget(true, true, "u", "/tmp/1").is_none());
    assert_eq!(cmd(&wget(false, true, "u", "/tmp/1").unwrap()), "wget u -O /tmp/1");
    assert_eq!(cmd(&wget(false, false, "u", "/tmp/1").unwrap()), "curl -fSL u -o /tmp/1");
    assert_eq!(cmd(&clone_repo("r", "/tmp/1")), "git clone r /tmp/1");
    assert_eq!(steps(&before_fetch("d")), vec!["?rm d"]);
    assert_eq!(steps(&finish_fetch(false, true, "d", "t")), vec!["?rm t"]);
    assert_eq!(
        steps(&finish_fetch(true, false, "d", "t")),
        vec!["parent d", "cp t d", "?rm t"]
    );
    assert_eq!(
        steps(&finish_fetch(true, true, "d", "t")),
        vec!["parent d", "cpdir t d", "?rm t"]
    );
}

#[test]
fn shared_libraries_are_told_by_name() {
    let entry = |name: &str, is_symlink, is_file| LibEntry {
        name: name.to_string(),
        path: format!("/src/{name}"),
        is_symlink,
        is_file,
    };
    for name in ["libc.so", "libz.so.1", "libz.so.1.2.11", "libz.so."] {
        assert!(check_so(&entry(name, false, true)));
    }
    for name in [".so", "libz.a", "libz", "libz.so.1a", "libz.1.so", ""] {
        assert!(!check_so(&entry(name, false, true)));
    }
    assert!(check_so(&entry("libz.so", true, false)));
    assert!(!check_so(&entry("libz.so", false, false)));
    let rootfs = LinuxRootfs::new(Arch::Riscv64);
    let entries = vec![
        entry("libc.so", false, true),
        entry("ld-musl-riscv64.so.1", true, true),
        entry("libz.so", true, true),
        entry("libz.so.1", false, true),
        entry("libz.a", false, true),
    ];
    assert_eq!(
        steps(&rootfs.put_musl_libs("/p", "strip", &entries)),
        vec![
            "rootfs riscv64",
            "?rm /p/rootfs/riscv64/lib/libz.so",
            "relink /src/libz.so /p/rootfs/riscv64/lib/libz.so",
            "?rm /p/rootfs/riscv64/lib/libz.so.1",
            "cp /src/libz.so.1 /p/rootfs/riscv64/lib/libz.so.1",
            "?run strip -s /p/rootfs/riscv64/lib/libz.so.1",
        ]
    );
    assert_eq!(rootfs.musl_libs("/m"), "/m/riscv64-linux-musl/lib");
}

#[test]
fn search_path_is_extended() {
    let paths = vec!["/x".to_string(), "/y".to_string()];
    assert_eq!(join_path_env(Some("/usr/bin"), &paths), "/usr/bin:/x:/y");
    assert_eq!(join_path_env(None, &paths), "/x:/y");
    assert_eq!(join_path_env(Some(""), &paths), ":/x:/y");
    assert_eq!(join_path_env(None, &vec![]), "");
}

#[test]
fn rootfs_is_made() {
    let rootfs = LinuxRootfs::new(Arch::X86_64);
    assert_eq!(rootfs.path("/p"), "/p/rootfs/x86_64");
    assert!(!rootfs.needs_make(true, false));
    assert!(rootfs.needs_make(true, true));
    assert!(steps(&rootfs.make("/p", true, false, "/m", "/b", "s")).is_empty());
    let plan = steps(&rootfs.make("/p", false, false, "/m", "/b/busybox", "s"));
    assert_eq!(plan.len(), 6 + 2 * 28);
    assert_eq!(plan[0], "clear /p/rootfs/x86_64");
    assert_eq!(plan[3], "cp /b/busybox /p/rootfs/x86_64/bin/busybox");
    assert_eq!(
        plan[4],
        "cp /m/x86_64-linux-musl/lib/libc.so /p/rootfs/x86_64/lib/ld-musl-x86_64.so.1"
    );
    assert_eq!(plan[5], "run s -s /p/rootfs/x86_64/lib/ld-musl-x86_64.so.1");
    assert_eq!(plan[6], "?rm /p/rootfs/x86_64/bin/cat");
    assert_eq!(plan[61], "ln busybox /p/rootfs/x86_64/bin/watch");
}

#[test]
fn strippers() {
    let rootfs = LinuxRootfs::new(Arch::Aarch64);
    assert_eq!(rootfs.strip("/m", tools()), "/m/bin/aarch64-linux-musl-strip");
    let llvm = HostTools { has_llvm_strip: true, ..tools() };
    assert_eq!(rootfs.strip("/m", llvm), "/m/bin/aarch64-linux-musl-strip");
    assert_eq!(rootfs.strip("/m", HostTools { is_linux: false, ..llvm }), "llvm-strip");
    assert_eq!(rootfs.strip("/m", HostTools { has_musl_strip: false, ..llvm }), "llvm-strip");
    let none = HostTools { has_musl_strip: false, ..tools() };
    assert_eq!(rootfs.strip("/m", none), "aarch64-linux-musl-strip");
}

#[test]
fn busybox_is_built() {
    let rootfs = LinuxRootfs::new(Arch::Riscv64);
    let (plan, program) = rootfs.busybox("/t", "/r", true, true, "/m", tools(), "s");
    assert_eq!(program, "/t/busybox/busybox");
    assert!(plan.steps.is_empty());
    let (plan, _) = rootfs.busybox("/t", "/r", false, false, "/m", tools(), "s");
    assert_eq!(
        steps(&plan),
        vec![
            "clone https://git.busybox.net/busybox.git /r/busybox",
            "?rm /t/busybox",
            "cpdir /r/busybox /t/busybox",
            "run make defconfig in /t/busybox",
            "run make CROSS_COMPILE=/m/bin/riscv64-linux-musl- \
             EXTRA_CFLAGS=-Wl,-z,max-page-size=65536 \
             EXTRA_LDFLAGS=-Wl,-z,max-page-size=65536 in /t/busybox",
            "run s -s /t/busybox/busybox",
        ]
    );
    let mac = HostTools { is_linux: false, ..tools() };
    let (plan, _) = rootfs.busybox("/t", "/r", false, true, "/m", mac, "s");
    assert_eq!(
        steps(&plan)[3],
        "run make CC=clang --target=riscv64-linux-musl --sysroot=/m/riscv64-linux-musl \
         --gcc-toolchain=/m -fuse-ld=lld AR=llvm-ar STRIP=llvm-strip HOSTCC=clang in /t/busybox"
    );
}

#[test]
fn images() {
    let plan = LinuxRootfs::new(Arch::Riscv64).image("/p", "/t", false, true);
    assert_eq!(
        steps(&plan),
        vec![
            "rootfs riscv64",
            "fuse /p/rootfs/riscv64 /p/zCore/riscv64.img",
            "run qemu-img resize -f raw /p/zCore/riscv64.img +5M",
        ]
    );
    let plan = LinuxRootfs::new(Arch::X86_64).image("/p", "/t", false, false);
    assert_eq!(
        steps(&plan),
        vec![
            "rootfs x86_64",
            "parent /t/firmware/OVMF.fd",
            "fetch https://github.com/retrage/edk2-nightly/raw/\
             e32f6c3dedd0dab3f25a8665b88a53c9cf2941d9/bin/DEBUGX64_OVMF.fd \
             /t/firmware/OVMF.fd",
            "run cargo build --manifest-path /p/rboot/Cargo.toml --target x86_64-unknown-uefi \
             -Z build-std=core,alloc -Z build-std-features=compiler-builtins-mem --release",
            "fuse /p/rootfs/x86_64 /p/zCore/x86_64.img",
            "grow /p/zCore/x86_64.img 5242880",
        ]
    );
    assert_eq!(LinuxRootfs::new(Arch::X86_64).image("/p", "/t", true, false).steps.len(), 4);
    let plan = LinuxRootfs::new(Arch::Aarch64).image("/p", "/t", false, true);
    assert_eq!(
        steps(&plan)[2..6],
        [
            "!clear /p/zCore/disk/EFI/Boot",
            "!run cargo build --manifest-path rboot/Cargo.toml --target aarch64-unknown-uefi \
             -Zbuild-std=core,alloc -Zbuild-std-features=compiler-builtins-mem --release",
            "!cp /p/rboot/target/aarch64-unknown-uefi/release/rboot.efi \
             /p/zCore/disk/EFI/Boot/bootaa64.efi",
            "!write /p/zCore/disk/EFI/Boot/rboot.conf \"physical_memory_offset=0xFFFF800000000000\\n\
             kernel_path=\\\\os\\ncmdline=LOG=warn:ROOTPROC=/bin/busybox?sh\\n\"",
        ]
    );
}

#[test]
fn libc_test_is_built() {
    let dirs = Dirs { project: "/p", origin: "/o", target: "/t" };
    let plan = LinuxRootfs::new(Arch::Riscv64).put_libc_test(dirs, Some("/bin"), "/m/bin");
    assert_eq!(
        steps(&plan),
        vec![
            "rootfs riscv64",
            "?rm /p/rootfs/riscv64/libc-test",
            "cpdir libc-test /p/rootfs/riscv64/libc-test",
            "cp /p/rootfs/riscv64/libc-test/config.mak.def /p/rootfs/riscv64/libc-test/config.mak",
            "run make <jobs> ARCH=riscv64 CROSS_COMPILE=riscv64-linux-musl- PATH=/bin:/m/bin \
             in /p/rootfs/riscv64/libc-test",
            "fetch https://github.com/rcore-os/libc-test-prebuilt/releases/download/0.1/\
             prebuild.tar.xz /o/prebuild.tar.xz",
            "clear /t",
            "run tar /o/prebuild.tar.xz /t",
            "cp /t/prebuild/libc-test/functional/tls_align-static.exe \
             /p/rootfs/riscv64/libc-test/src/functional/tls_align-static.exe",
            "?prune Top /p/rootfs/riscv64/libc-test",
            "?prune Src /p/rootfs/riscv64/libc-test/src",
            "?prune Tests /p/rootfs/riscv64/libc-test/src/api",
            "?prune Tests /p/rootfs/riscv64/libc-test/src/common",
            "?prune Tests /p/rootfs/riscv64/libc-test/src/math",
            "?prune Tests /p/rootfs/riscv64/libc-test/src/musl",
            "?prune Tests /p/rootfs/riscv64/libc-test/src/functional",
            "?prune Tests /p/rootfs/riscv64/libc-test/src/regression",
        ]
    );
    assert_eq!(LinuxRootfs::new(Arch::X86_64).put_libc_test(dirs, None, "/m").steps.len(), 13);
}

#[test]
fn suites_are_pruned() {
    let names: Vec<String> =
        ["src", "Makefile", "api", "x.exe", "y.so", "z.o"].iter().map(|s| s.to_string()).collect();
    assert_eq!(
        steps(&prune(SuiteDir::Top, "/d", &names)),
        vec!["?rm /d/Makefile", "?rm /d/api", "?rm /d/x.exe", "?rm /d/y.so", "?rm /d/z.o"]
    );
    assert_eq!(
        steps(&prune(SuiteDir::Tests, "/d", &names)),
        vec!["?rm /d/src", "?rm /d/Makefile", "?rm /d/api", "?rm /d/z.o"]
    );
    for name in ["api", "common", "math", "musl", "functional", "regression"] {
        assert!(keeps(SuiteDir::Src, name));
    }
    assert!(!keeps(SuiteDir::Src, "src"));
}

#[test]
fn other_tests_are_built() {
    let dirs = Dirs { project: "/p", origin: "/o", target: "/t" };
    let source = |name: &str| Source { path: format!("s/{name}"), name: name.to_string() };
    let sources = vec![source("a.c"), source("b.h"), source(".c"), source("c.d.c")];
    let rootfs = LinuxRootfs::new(Arch::X86_64);
    let plan = rootfs.put_other_test(dirs, "/m", tools(), &sources);
    assert_eq!(
        steps(&plan),
        vec![
            "rootfs x86_64",
            "run /m/bin/x86_64-linux-musl-gcc s/a.c -o /p/rootfs/x86_64/bin/a",
            "run /m/bin/x86_64-linux-musl-gcc s/c.d.c -o /p/rootfs/x86_64/bin/c.d",
        ]
    );
    let clang = HostTools { has_musl_gcc: false, ..tools() };
    let plan = LinuxRootfs::new(Arch::Riscv64).put_other_test(dirs, "/m", clang, &sources[..0].iter().map(|s| source(&s.name)).collect());
    assert_eq!(
        *steps(&plan).last().unwrap(),
        "cpdir /t/prebuild/oscomp /p/rootfs/riscv64/oscomp"
    );
    let plan = rootfs.put_other_test(dirs, "/m", clang, &vec![source("a.c")]);
    assert_eq!(
        steps(&plan)[1],
        "run clang --target=x86_64-linux-musl --sysroot=/m/x86_64-linux-musl \
         --gcc-toolchain=/m -fuse-ld=lld -D_GNU_SOURCE -Wno-implicit-function-declaration \
         s/a.c -o /p/rootfs/x86_64/bin/a"
    );
}

#[test]
fn features_are_gathered() {
    let config = BuildConfig::from_args("/p", &machine(), true, Some("b  a c\n")).unwrap();
    assert_eq!(config.features, vec!["board-qemu", "a", "b", "c", "no-pci", "linux"]);
    assert!(config.before_build().steps.is_empty());
    assert_eq!(config.target_file_path("/p"), "/p/target/riscv64/debug/zcore");
    let linked = Machine { user_img: Some("img".to_string()), pci_support: true, ..machine() };
    let config = BuildConfig::from_args("/p", &linked, false, Some("zircon")).unwrap();
    assert_eq!(config.features, vec!["board-qemu", "a", "zircon", "link-user-img"]);
    assert_eq!(config.user_img.as_deref(), Some("/p/img"));
    assert_eq!(steps(&config.before_build()), vec!["image riscv64"]);
    assert_eq!(steps(&config.hand_over("/p", CargoSub::Build))[0], "print USER_IMG=/p/img");
    assert_eq!(
        cmd(&config.invoke("/p", CargoSub::Clippy)),
        "cargo clippy <package zcore> <false:board-qemu+a+zircon+link-user-img> \
         <target /p/zCore/riscv64.json> -Z json-target-spec -Z build-std=core,alloc \
         -Z build-std-features=compiler-builtins-mem <release> USER_IMG=/p/img"
    );
    let unknown = Machine { arch: "z80".to_string(), ..machine() };
    assert!(BuildConfig::from_args("/p", &unknown, true, None).is_err());
}

#[test]
fn kernel_is_built_and_disassembled() {
    let config = BuildConfig::from_args("/p", &machine(), false, None).unwrap();
    let (plan, out) = config.bin("/p", None);
    assert_eq!(out, "/p/target/riscv64/release/zcore.bin");
    let plan = steps(&plan);
    assert_eq!(plan[1], "print strip zcore to /p/target/riscv64/release/zcore.bin");
    assert_eq!(
        plan[3],
        "run objcopy --binary-architecture=riscv64 /p/target/riscv64/release/zcore --strip-all \
         -O binary /p/target/riscv64/release/zcore.bin"
    );
    assert_eq!(config.bin("/p", Some("/o")).1, "/o");
    let plan = steps(&config.disassemble("/p", None));
    assert_eq!(plan[1], "print Asm file dumps to '/p/target/zcore.asm'.");
    assert_eq!(plan[3], "run objdump /p/target/riscv64/release/zcore -d > /p/target/zcore.asm");
    let pc = Machine { arch: "x86_64".to_string(), ..machine() };
    let config = BuildConfig::from_args("/p", &pc, false, None).unwrap();
    let (plan, out) = config.bin("/p", Some("/ignored"));
    assert_eq!((plan.steps.len(), out.as_str()), (1, "/p/target/x86_64/release/zcore"));
}

#[test]
fn emulator_is_started() {
    let args = QemuArgs {
        arch: Arch::Riscv64,
        machine: None,
        debug: false,
        smp: Some(4),
        gdb: Some(1234),
        cpu: None,
    };
    assert_eq!(args.machine_name(), "virt-riscv64");
    let config = BuildConfig::from_args("/p", &machine(), false, None).unwrap();
    let plan = steps(&args.qemu("/p", "/t", &config));
    assert_eq!(plan[0], "image riscv64");
    assert_eq!(
        *plan.last().unwrap(),
        "run qemu-system-riscv64 -m 4G -display none -no-reboot -nographic -smp 4 -machine virt \
         -bios default -serial mon:stdio -kernel /p/target/riscv64/release/zcore.bin \
         -initrd /p/zCore/riscv64.img -append \"LOG=warn\" -S -gdb tcp::1234"
    );
    let pc = QemuArgs {
        arch: Arch::X86_64,
        machine: Some("m".to_string()),
        debug: true,
        smp: None,
        gdb: None,
        cpu: None,
    };
    assert_eq!(pc.machine_name(), "m");
    let x86 = Machine { arch: "x86_64".to_string(), ..machine() };
    let config = BuildConfig::from_args("/p", &x86, true, None).unwrap();
    let plan = steps(&pc.qemu("/p", "/t", &config));
    assert_eq!(plan.len(), 1 + 1 + 6 + 1);
    assert_eq!(plan[5], "cp /p/target/x86_64/debug/zcore /p/zCore/esp/EFI/zCore/zcore.elf");
    assert_eq!(
        *plan.last().unwrap(),
        "run qemu-system-x86_64 -m 4G -display none -no-reboot -nographic -machine q35 \
         -cpu SandyBridge,+smap,-check,+fsgsbase -serial mon:stdio \
         -drive format=raw,if=pflash,readonly=on,file=/t/firmware/OVMF.fd \
         -drive format=raw,file=fat:rw:/p/zCore/esp -nic none"
    );
    let arm = QemuArgs { arch: Arch::Aarch64, cpu: Some("max".to_string()), ..pc };
    let arm64 = Machine { arch: "aarch64".to_string(), ..machine() };
    let config = BuildConfig::from_args("/p", &arm64, true, None).unwrap();
    assert_eq!(
        *steps(&arm.qemu("/p", "/t", &config)).last().unwrap(),
        "run qemu-system-aarch64 -m 4G -display none -no-reboot -nographic -machine virt \
         -cpu max -bios /t/firmware/QEMU_EFI.fd -hda fat:rw:/p/zCore/disk \
         -drive file=/p/zCore/aarch64.img,if=none,format=raw,id=x0 \
         -device virtio-blk-device,drive=x0,bus=virtio-mmio-bus.0"
    );
}

#[test]
fn debuggers() {
    assert_eq!(
        cmd(&gdb(Arch::Riscv64, 1234).unwrap()),
        "riscv64-unknown-elf-gdb -ex target remote localhost:1234"
    );
    assert_eq!(
        cmd(&gdb(Arch::Aarch64, 1).unwrap()),
        "aarch64-none-linux-gnu-gdb -ex target remote localhost:1"
    );
    assert!(gdb(Arch::X86_64, 1234).is_none());
}

#[test]
fn addresses_are_those_of_the_standard_library() {
    for text in [
        "1.2.3.4", "255.255.255.255", "256.1.1.1", "1.2.3", "1.2.3.4.5", "01.2.3.4", "0.0.0.0",
        "1..2.3", "", "a.b.c.d", "1.2.3.4 ", "1.2.3.1000", "+1.2.3.4",
    ] {
        assert_eq!(check_ipv4(text), text.parse::<core::net::Ipv4Addr>().is_ok(), "{text}");
    }
}

#[test]
fn proxy_is_found_and_set() {
    let resolv = "# generated\nnameserver fe80::1\nnameserver 10.0.0.2\r\nnameserver 10.0.0.3\n";
    assert_eq!(detect_dns(resolv).as_deref(), Some("10.0.0.2"));
    assert_eq!(detect_dns("nameserver  10.0.0.2\n"), None);
    assert!(set_git_proxy(true, 1, "").is_none());
    assert_eq!(
        steps(&set_git_proxy(true, 7890, resolv).unwrap()),
        vec![
            "run git config true http.proxy socks5://10.0.0.2:7890",
            "run git config true https.proxy socks5://10.0.0.2:7890",
            "print git proxy = socks5://10.0.0.2:7890",
        ]
    );
    assert_eq!(
        steps(&unset_git_proxy(false)),
        vec![
            "run git config false --unset http.proxy",
            "run git config false --unset https.proxy",
            "print git proxy =",
        ]
    );
}

#[test]
fn chores() {
    assert_eq!(
        steps(&update_all()),
        vec!["run git submodule false", "run rustup update", "run cargo update"]
    );
    let plan = steps(&install_zircon_prebuilt("/p", "/o"));
    assert_eq!(plan[1], "?rm /p/prebuilt");
    assert_eq!(plan[5], "cpdir /p/ignored/target/zircon/prebuilt /p/prebuilt");
    let plan = steps(&check_style());
    assert_eq!(plan[1], "run cargo fmt --all -- --check");
    assert_eq!(plan[6], "run cargo clippy <package zcore> <false:linux+libos>");
    assert_eq!(bare_metal_archs(), [Arch::Riscv64, Arch::X86_64, Arch::Aarch64]);
    let config = BuildConfig::from_args("/p", &machine(), false, None).unwrap();
    let plan = steps(&check_bare_metal("/p", Arch::Riscv64, &config));
    assert_eq!(plan[0], "print     Checks riscv64 bare-metal");
    assert_eq!(plan.len(), 2);
    assert_eq!(repos_dir("/p"), "/p/ignored/origin/repos");
    assert_eq!(target_dir("/p"), "/p/ignored/target");
}

#[test]
fn kernel_runs_as_a_program() {
    let plan = steps(&libos_rootfs("/p", true));
    assert_eq!(plan[4], "?clear rootfs/libos");
    assert_eq!(plan[5], "cpdir /p/ignored/target/libos/rootfs rootfs/libos");
    assert_eq!(libos_rootfs("/p", false).steps.len(), 5);
    assert_eq!(
        steps(&libos_put_libc_test("/p")),
        vec![
            "libc-test x86_64",
            "clear rootfs/libos/libc-test",
            "cpdir /p/rootfs/x86_64/libc-test rootfs/libos/libc-test",
        ]
    );
    assert_eq!(
        steps(&libos_linux_run("/p", "/out", "/bin/busybox  ls -l"))[0],
        "print /out"
    );
    assert_eq!(
        *steps(&libos_linux_run("/p", "/out", "/bin/busybox  ls -l")).last().unwrap(),
        "run cargo run <package zcore> <release> <true:linux+libos> -- /bin/busybox ls -l"
    );
}
