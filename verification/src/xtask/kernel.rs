//! Building the kernel, and running it.

use vstd::prelude::*;

use crate::words::{cat, cat3, decimal, holds, split_words, strings, to_decimal, words};
use crate::xtask::arch::Arch;
use crate::xtask::errors::XError;
use crate::xtask::image::{rboot_efi, rboot_efi_path, AARCH64_RBOOT_CONF};
use crate::xtask::rootfs::LinuxRootfs;
use crate::xtask::plan::{
    join, join2, must, path_join, path_join2, Action, ActionView, Arg, ArgView, Base, BaseView,
    CargoSub, Cmd, CmdView, Plan, StepView,
};

verus! {

/// A machine that the kernel can be built for.
pub struct Machine {
    /// The name of its architecture.
    pub arch: String,
    pub features: Vec<String>,
    /// The image that is linked into the kernel.
    pub user_img: Option<String>,
    pub pci_support: bool,
}

/// How the kernel is built.
pub struct BuildConfig {
    pub arch: Arch,
    pub debug: bool,
    /// The image that is linked into the kernel.
    pub user_img: Option<String>,
    /// The features of the kernel, each of them once.
    pub features: Vec<String>,
}

/// A text that may be missing, in the mathematical world.
pub open spec fn maybe(text: Option<String>) -> Option<Seq<char>> {
    match text {
        Some(text) => Some(text@),
        None => None,
    }
}

/// The features that a machine and a caller ask for.
pub open spec fn asked_features(machine: Machine, extra: Option<Seq<char>>) -> Set<Seq<char>> {
    strings(machine.features@).to_set() + match extra {
        Some(text) => words(text).to_set(),
        None => Set::empty(),
    } + if machine.user_img is Some {
        set!["link-user-img"@]
    } else {
        Set::empty()
    } + if !machine.pci_support {
        set!["no-pci"@]
    } else {
        Set::empty()
    }
}

/// The features of the kernel: those that are asked for, and the Linux personality
/// unless it is to be the other.
pub open spec fn kernel_features(machine: Machine, extra: Option<Seq<char>>) -> Set<Seq<char>> {
    let asked = asked_features(machine, extra);
    if asked.contains("zircon"@) {
        asked
    } else {
        asked.insert("linux"@)
    }
}

/// Adds a text to those that are there, unless it is among them.
fn include_text(list: &mut Vec<String>, text: &str)
    requires
        strings(old(list)@).no_duplicates(),
    ensures
        strings(final(list)@).no_duplicates(),
        strings(final(list)@).to_set() == strings(old(list)@).to_set().insert(text@),
{
    let ghost before = strings(list@);
    if holds(list, text) {
        assert(before.to_set().insert(text@) =~= before.to_set());
        return;
    }
    list.push(String::from_str(text));
    let ghost after = strings(list@);
    proof {
        assert(after =~= before.push(text@));
        assert forall|x: Seq<char>| after.to_set().contains(x) implies before.to_set().insert(
            text@,
        ).contains(x) by {
            let k = choose|k: int| 0 <= k < after.len() && after[k] == x;
            if k < before.len() {
                assert(before[k] == x);
            }
        }
        assert forall|x: Seq<char>| before.to_set().insert(text@).contains(x) implies
            after.to_set().contains(x) by {
            if x == text@ {
                assert(after[before.len() as int] == x);
            } else {
                let k = choose|k: int| 0 <= k < before.len() && before[k] == x;
                assert(after[k] == x);
            }
        }
        assert(after.to_set() =~= before.to_set().insert(text@));
    }
}

/// Adds texts to those that are there, each of them once.
fn include_all(list: &mut Vec<String>, more: &Vec<String>)
    requires
        strings(old(list)@).no_duplicates(),
    ensures
        strings(final(list)@).no_duplicates(),
        strings(final(list)@).to_set() == strings(old(list)@).to_set() + strings(more@).to_set(),
{
    let ghost before = strings(list@).to_set();
    let ghost all = strings(more@);
    let mut i: usize = 0;
    proof {
        assert(all.take(0).to_set() =~= Set::<Seq<char>>::empty());
        assert(strings(list@).to_set() =~= before + all.take(0).to_set());
    }
    while i < more.len()
        invariant
            i <= more.len(),
            all == strings(more@),
            strings(list@).no_duplicates(),
            strings(list@).to_set() == before + all.take(i as int).to_set(),
        decreases more.len() - i,
    {
        include_text(list, more[i].as_str());
        proof {
            let next = all.take(i + 1);
            assert(next =~= all.take(i as int).push(more@[i as int]@));
            assert(next.to_set() =~= all.take(i as int).to_set().insert(more@[i as int]@)) by {
                assert forall|x: Seq<char>| next.to_set().contains(x) implies all.take(
                    i as int,
                ).to_set().insert(more@[i as int]@).contains(x) by {
                    let k = choose|k: int| 0 <= k < next.len() && next[k] == x;
                    if k < i {
                        assert(all.take(i as int)[k] == x);
                    }
                }
                assert forall|x: Seq<char>| all.take(i as int).to_set().insert(
                    more@[i as int]@,
                ).contains(x) implies next.to_set().contains(x) by {
                    if x == more@[i as int]@ {
                        assert(next[i as int] == x);
                    } else {
                        let k = choose|k: int|
                            0 <= k < all.take(i as int).len() && all.take(i as int)[k] == x;
                        assert(next[k] == x);
                    }
                }
            }
            assert(strings(list@).to_set() =~= before + next.to_set());
        }
        i += 1;
    }
    assert(all.take(i as int) =~= all);
}

impl BuildConfig {
    /// The kernel's features, in the order in which they are given to the compiler.
    pub open spec fn feature_list(self) -> Seq<Seq<char>> {
        strings(self.features@)
    }

    /// Finds out how to build the kernel for a machine. `extra` holds further
    /// features, with white space in between.
    pub fn from_args(project: &str, machine: &Machine, debug: bool, extra: Option<&str>) -> (config:
        Result<BuildConfig, XError>)
        ensures
            match config {
                Ok(config) => {
                    &&& machine.arch@ == config.arch.spec_name()
                    &&& config.debug == debug
                    &&& maybe(config.user_img) == match machine.user_img {
                        Some(img) => Some(path_join(project@, img@)),
                        None => None,
                    }
                    &&& config.feature_list().no_duplicates()
                    &&& config.feature_list().to_set() == kernel_features(
                        *machine,
                        match extra {
                            Some(text) => Some(text@),
                            None => None,
                        },
                    )
                },
                Err(XError::EnumParse { kind_name, value }) => {
                    &&& kind_name@ == "Arch"@
                    &&& value@ == machine.arch@
                    &&& forall|arch: Arch| machine.arch@ != #[trigger] arch.spec_name()
                },
            },
    {
        let ghost asked_extra = match extra {
            Some(text) => Some(text@),
            None => None,
        };
        let mut features: Vec<String> = Vec::new();
        proof {
            assert(strings(features@) =~= Seq::<Seq<char>>::empty());
            assert(strings(features@).to_set() =~= Set::<Seq<char>>::empty());
        }
        include_all(&mut features, &machine.features);
        assert(strings(features@).to_set() =~= strings(machine.features@).to_set());
        if let Some(text) = extra {
            let more: Vec<String> = split_words(text);
            include_all(&mut features, &more);
        }
        let ghost so_far = strings(machine.features@).to_set() + match asked_extra {
            Some(text) => words(text).to_set(),
            None => Set::empty(),
        };
        assert(strings(features@).to_set() =~= so_far);
        let arch: Arch = match Arch::parse(machine.arch.as_str()) {
            Ok(arch) => arch,
            Err(e) => {
                return Err(e);
            },
        };
        let user_img: Option<String> = match &machine.user_img {
            Some(img) => {
                include_text(&mut features, "link-user-img");
                Some(join(project, img.as_str()))
            },
            None => None,
        };
        if !machine.pci_support {
            include_text(&mut features, "no-pci");
        }
        assert(strings(features@).to_set() =~= asked_features(*machine, asked_extra));
        proof {
            let list = strings(features@);
            assert(list.contains("zircon"@) == list.to_set().contains("zircon"@));
        }
        if !holds(&features, "zircon") {
            include_text(&mut features, "linux");
        }
        Ok(BuildConfig { arch, debug, user_img, features })
    }

    /// What has to be there before the kernel is built: an image that is linked into
    /// it.
    pub fn before_build(&self) -> (plan: Plan)
        ensures
            plan@ == (if self.user_img is Some {
                seq![must(ActionView::MakeImage(self.arch))]
            } else {
                Seq::empty()
            }),
    {
        let mut plan: Plan = Plan::new();
        if self.user_img.is_some() {
            plan.must(Action::MakeImage(self.arch));
            assert(plan@ =~= seq![must(ActionView::MakeImage(self.arch))]);
        }
        plan
    }

    /// Where the kernel is when it is built.
    pub open spec fn kernel(self, project: Seq<char>) -> Seq<char> {
        kernel_at(project, self.arch, self.debug)
    }

    pub fn target_file_path(&self, project: &str) -> (path: String)
        ensures
            path@ == self.kernel(project@),
    {
        kernel_path(project, self.arch, self.debug)
    }

    /// The command that hands the kernel to `sub`.
    pub open spec fn invoking(self, project: Seq<char>, sub: CargoSub) -> CmdView {
        let cmd = CmdView::new(BaseView::Cargo(sub)).add(ArgView::Package("zcore"@)).add(
            ArgView::Features { default: false, list: self.feature_list() },
        ).add(
            ArgView::Target(path_join2(project, "zCore"@, self.arch.spec_name() + ".json"@)),
        ).arg("-Z"@).arg("json-target-spec"@).arg("-Z"@).arg("build-std=core,alloc"@).arg(
            "-Z"@,
        ).arg("build-std-features=compiler-builtins-mem"@);
        let cmd = if self.debug {
            cmd
        } else {
            cmd.add(ArgView::Release)
        };
        match self.user_img {
            Some(img) => cmd.env("USER_IMG"@, img@),
            None => cmd,
        }
    }

    pub fn invoke(&self, project: &str, sub: CargoSub) -> (cmd: Cmd)
        ensures
            cmd@ == self.invoking(project@, sub),
    {
        let spec_file: String = cat(self.arch.name(), ".json");
        let mut list: Vec<String> = Vec::new();
        let mut i: usize = 0;
        while i < self.features.len()
            invariant
                i <= self.features.len(),
                list.len() == i,
                forall|k: int| 0 <= k < i ==> (#[trigger] list@[k])@ == self.features@[k]@,
            decreases self.features.len() - i,
        {
            list.push(self.features[i].clone());
            i += 1;
        }
        assert(strings(list@) =~= self.feature_list());
        let mut cmd: Cmd = Cmd::new(Base::Cargo(sub)).add(
            Arg::Package(String::from_str("zcore")),
        ).add(Arg::Features { default: false, list }).add(
            Arg::Target(join2(project, "zCore", spec_file.as_str())),
        ).arg("-Z").arg("json-target-spec").arg("-Z").arg("build-std=core,alloc").arg("-Z").arg(
            "build-std-features=compiler-builtins-mem",
        );
        if !self.debug {
            cmd = cmd.add(Arg::Release);
        }
        if let Some(img) = &self.user_img {
            cmd = cmd.env("USER_IMG", img.as_str());
        }
        cmd
    }

    /// How the kernel is handed to `sub`: every variable that the command is given is
    /// announced.
    pub open spec fn handing_over(self, project: Seq<char>, sub: CargoSub) -> Seq<StepView> {
        (match self.user_img {
            Some(img) => seq![
                must(ActionView::PrintVariable { name: "USER_IMG"@, value: img@ }),
            ],
            None => Seq::empty(),
        }).push(must(ActionView::Run(self.invoking(project, sub))))
    }

    /// Hands the kernel to `sub`.
    pub fn hand_over(&self, project: &str, sub: CargoSub) -> (plan: Plan)
        ensures
            plan@ == self.handing_over(project@, sub),
    {
        let mut plan: Plan = Plan::new();
        if let Some(img) = &self.user_img {
            plan.must(
                Action::PrintVariable { name: String::from_str("USER_IMG"), value: img.clone() },
            );
        }
        plan.must(Action::Run(self.invoke(project, sub)));
        assert(plan@ =~= self.handing_over(project@, sub));
        plan
    }

    /// Where the kernel is that is run, if `output` does not say so.
    pub open spec fn binary(self, project: Seq<char>, output: Option<Seq<char>>) -> Seq<char> {
        if self.arch is Riscv64 {
            match output {
                Some(out) => out,
                None => self.kernel(project) + ".bin"@,
            }
        } else {
            self.kernel(project)
        }
    }

    /// How the kernel is built, in the form in which it is run. RISC-V machines need
    /// a plain binary.
    pub open spec fn building(self, project: Seq<char>, output: Option<Seq<char>>) -> Seq<StepView> {
        let out = self.binary(project, output);
        let build = self.handing_over(project, CargoSub::Build);
        if self.arch is Riscv64 {
            build + seq![
                must(ActionView::Print("strip zcore to "@ + out)),
                must(ActionView::CreateParent(out)),
                must(
                    ActionView::Run(
                        CmdView::new(BaseView::Objcopy).arg(
                            "--binary-architecture="@ + self.arch.spec_name(),
                        ).arg(self.kernel(project)).arg("--strip-all"@).arg("-O"@).arg(
                            "binary"@,
                        ).arg(out),
                    ),
                ),
            ]
        } else {
            build
        }
    }

    /// Builds the kernel. What is run is at the path that is returned.
    pub fn bin(&self, project: &str, output: Option<&str>) -> (built: (Plan, String))
        ensures
            ({
                let output = match output {
                    Some(out) => Some(out@),
                    None => None,
                };
                &&& built.0@ == self.building(project@, output)
                &&& built.1@ == self.binary(project@, output)
            }),
    {
        let ghost asked = match output {
            Some(out) => Some(out@),
            None => None,
        };
        let mut plan: Plan = self.hand_over(project, CargoSub::Build);
        let obj: String = self.target_file_path(project);
        if let Arch::Riscv64 = self.arch {
            let out: String = match output {
                Some(out) => String::from_str(out),
                None => cat(obj.as_str(), ".bin"),
            };
            plan.must(Action::Print(cat("strip zcore to ", out.as_str())));
            plan.must(Action::CreateParent(out.clone()));
            let binary_arch: String = cat("--binary-architecture=", self.arch.name());
            plan.must(
                Action::Run(
                    Cmd::new(Base::Objcopy).arg(binary_arch.as_str()).arg(obj.as_str()).arg(
                        "--strip-all",
                    ).arg("-O").arg("binary").arg(out.as_str()),
                ),
            );
            assert(plan@ =~= self.building(project@, asked));
            (plan, out)
        } else {
            assert(plan@ =~= self.building(project@, asked));
            (plan, obj)
        }
    }

    /// How the kernel is disassembled.
    pub open spec fn disassembling(self, project: Seq<char>, out: Seq<char>) -> Seq<StepView> {
        self.handing_over(project, CargoSub::Build) + seq![
            must(ActionView::Print("Asm file dumps to '"@ + out + "'."@)),
            must(ActionView::CreateParent(out)),
            must(
                ActionView::RunInto {
                    cmd: CmdView::new(BaseView::Objdump).arg(self.kernel(project)).arg("-d"@),
                    path: out,
                },
            ),
        ]
    }

    /// Builds the kernel and disassembles it.
    pub fn disassemble(&self, project: &str, output: Option<&str>) -> (plan: Plan)
        ensures
            plan@ == self.disassembling(
                project@,
                match output {
                    Some(out) => out@,
                    None => path_join(project@, "target/zcore.asm"@),
                },
            ),
    {
        let out: String = match output {
            Some(out) => String::from_str(out),
            None => join(project, "target/zcore.asm"),
        };
        let mut plan: Plan = self.hand_over(project, CargoSub::Build);
        plan.must(Action::Print(cat3("Asm file dumps to '", out.as_str(), "'.")));
        plan.must(Action::CreateParent(out.clone()));
        let obj: String = self.target_file_path(project);
        plan.must(
            Action::RunInto {
                cmd: Cmd::new(Base::Objdump).arg(obj.as_str()).arg("-d"),
                path: out.clone(),
            },
        );
        assert(plan@ =~= self.disassembling(project@, out@));
        plan
    }
}

/// Where the kernel is when it is built.
pub open spec fn kernel_at(project: Seq<char>, arch: Arch, debug: bool) -> Seq<char> {
    path_join2(
        path_join2(project, "target"@, arch.spec_name()),
        if debug {
            "debug"@
        } else {
            "release"@
        },
        "zcore"@,
    )
}

fn kernel_path(project: &str, arch: Arch, debug: bool) -> (path: String)
    ensures
        path@ == kernel_at(project@, arch, debug),
{
    let profile: &str = if debug {
        "debug"
    } else {
        "release"
    };
    join2(join2(project, "target", arch.name()).as_str(), profile, "zcore")
}

pub const X86_RBOOT_CONF: &'static str =
    "physical_memory_offset=0xFFFF800000000000\nkernel_path=\\EFI\\zCore\\zcore.elf\ninitramfs=\\EFI\\zCore\\x86_64.img\ncmdline=LOG=warn:ROOTPROC=/bin/busybox?sh\n";

/// How the kernel is to be run.
pub struct QemuArgs {
    pub arch: Arch,
    pub machine: Option<String>,
    pub debug: bool,
    /// The number of processors.
    pub smp: Option<u8>,
    /// The port on which the emulator waits for a debugger.
    pub gdb: Option<u16>,
    pub cpu: Option<String>,
}

impl QemuArgs {
    /// The machine that the kernel is built for.
    pub fn machine_name(&self) -> (name: String)
        ensures
            name@ == match self.machine {
                Some(machine) => machine@,
                None => "virt-"@ + self.arch.spec_name(),
            },
    {
        match &self.machine {
            Some(machine) => machine.clone(),
            None => cat("virt-", self.arch.name()),
        }
    }

    /// The emulator, as far as it is the same for all architectures.
    pub open spec fn emulator(self) -> CmdView {
        let qemu = CmdView::new(BaseView::QemuSystem(self.arch.spec_name())).arg("-m"@).arg(
            "4G"@,
        ).arg("-display"@).arg("none"@).arg("-no-reboot"@).arg("-nographic"@);
        match self.smp {
            Some(smp) => qemu.arg("-smp"@).arg(decimal(smp as nat)),
            None => qemu,
        }
    }

    /// What makes the emulator wait for a debugger.
    pub open spec fn waiting(self, qemu: CmdView) -> CmdView {
        match self.gdb {
            Some(port) => qemu.arg("-S"@).arg("-gdb"@).arg("tcp::"@ + decimal(port as nat)),
            None => qemu,
        }
    }

    /// The processor to emulate.
    pub open spec fn processor(self, default: Seq<char>) -> Seq<char> {
        match self.cpu {
            Some(cpu) => cpu@,
            None => default,
        }
    }

    /// The emulator with what an architecture needs. `bin` is the kernel that is
    /// run, and `target` is where files that were generated for the architecture are.
    pub open spec fn machine_args(
        self,
        project: Seq<char>,
        target: Seq<char>,
        bin: Seq<char>,
    ) -> CmdView {
        let inner = path_join(project, "zCore"@);
        let qemu = self.emulator();
        match self.arch {
            Arch::Riscv64 => {
                let qemu = qemu.arg("-machine"@).arg("virt"@).arg("-bios"@).arg("default"@).arg(
                    "-serial"@,
                ).arg("mon:stdio"@);
                let qemu = match self.cpu {
                    Some(cpu) => qemu.arg("-cpu"@).arg(cpu@),
                    None => qemu,
                };
                qemu.arg("-kernel"@).arg(bin).arg("-initrd"@).arg(
                    path_join(inner, self.arch.spec_name() + ".img"@),
                ).arg("-append"@).arg("\"LOG=warn\""@)
            },
            Arch::X86_64 => qemu.arg("-machine"@).arg("q35"@).arg("-cpu"@).arg(
                self.processor("SandyBridge,+smap,-check,+fsgsbase"@),
            ).arg("-serial"@).arg("mon:stdio"@).arg("-drive"@).arg(
                "format=raw,if=pflash,readonly=on,file="@ + path_join2(
                    target,
                    "firmware"@,
                    "OVMF.fd"@,
                ),
            ).arg("-drive"@).arg("format=raw,file=fat:rw:"@ + path_join(inner, "esp"@)).arg(
                "-nic"@,
            ).arg("none"@),
            Arch::Aarch64 => qemu.arg("-machine"@).arg("virt"@).arg("-cpu"@).arg(
                self.processor("cortex-a53"@),
            ).arg("-bios"@).arg(path_join2(target, "firmware"@, "QEMU_EFI.fd"@)).arg("-hda"@).arg(
                "fat:rw:"@ + inner + "/disk"@,
            ).arg("-drive"@).arg(
                "file="@ + inner + "/aarch64.img,if=none,format=raw,id=x0"@,
            ).arg("-device"@).arg("virtio-blk-device,drive=x0,bus=virtio-mmio-bus.0"@),
        }
    }

    /// The files that the emulator is given, apart from the image.
    pub open spec fn files(self, project: Seq<char>) -> Seq<StepView> {
        let inner = path_join(project, "zCore"@);
        let obj = kernel_at(project, self.arch, self.debug);
        let esp = path_join(inner, "esp"@);
        let efi_boot = path_join2(esp, "EFI"@, "Boot"@);
        let efi_zcore = path_join2(esp, "EFI"@, "zCore"@);
        match self.arch {
            Arch::Riscv64 => Seq::empty(),
            Arch::X86_64 => seq![
                must(ActionView::Clear(efi_boot)),
                must(ActionView::Clear(efi_zcore)),
                must(
                    ActionView::Copy {
                        from: rboot_efi(project, "x86_64-unknown-uefi"@),
                        to: path_join(efi_boot, "BootX64.efi"@),
                    },
                ),
                must(ActionView::Copy { from: obj, to: path_join(efi_zcore, "zcore.elf"@) }),
                must(
                    ActionView::Copy {
                        from: path_join(inner, "x86_64.img"@),
                        to: path_join(efi_zcore, "x86_64.img"@),
                    },
                ),
                must(
                    ActionView::Write {
                        path: path_join(efi_boot, "rboot.conf"@),
                        text: X86_RBOOT_CONF@,
                    },
                ),
            ],
            Arch::Aarch64 => seq![
                must(ActionView::Copy { from: obj, to: path_join2(inner, "disk"@, "os"@) }),
            ],
        }
    }

    /// How the kernel is run.
    pub open spec fn running(
        self,
        project: Seq<char>,
        target: Seq<char>,
        config: BuildConfig,
    ) -> Seq<StepView> {
        seq![must(ActionView::MakeImage(self.arch))] + (if config.user_img is Some {
            seq![must(ActionView::MakeImage(config.arch))]
        } else {
            Seq::empty()
        }) + config.building(project, None) + self.files(project) + seq![
            must(
                ActionView::Run(
                    self.waiting(self.machine_args(project, target, config.binary(project, None))),
                ),
            ),
        ]
    }

    fn put_files(&self, project: &str) -> (plan: Plan)
        ensures
            plan@ == self.files(project@),
    {
        let mut plan: Plan = Plan::new();
        let inner: String = join(project, "zCore");
        let obj: String = kernel_path(project, self.arch, self.debug);
        match self.arch {
            Arch::Riscv64 => {},
            Arch::X86_64 => {
                let esp: String = join(inner.as_str(), "esp");
                let efi_boot: String = join2(esp.as_str(), "EFI", "Boot");
                let efi_zcore: String = join2(esp.as_str(), "EFI", "zCore");
                plan.must(Action::Clear(efi_boot.clone()));
                plan.must(Action::Clear(efi_zcore.clone()));
                plan.must(
                    Action::Copy {
                        from: rboot_efi_path(project, "x86_64-unknown-uefi"),
                        to: join(efi_boot.as_str(), "BootX64.efi"),
                    },
                );
                plan.must(Action::Copy { from: obj, to: join(efi_zcore.as_str(), "zcore.elf") });
                plan.must(
                    Action::Copy {
                        from: join(inner.as_str(), "x86_64.img"),
                        to: join(efi_zcore.as_str(), "x86_64.img"),
                    },
                );
                plan.must(
                    Action::Write {
                        path: join(efi_boot.as_str(), "rboot.conf"),
                        text: String::from_str(X86_RBOOT_CONF),
                    },
                );
            },
            Arch::Aarch64 => {
                plan.must(Action::Copy { from: obj, to: join2(inner.as_str(), "disk", "os") });
            },
        }
        assert(plan@ =~= self.files(project@));
        plan
    }

    fn start_emulator(&self) -> (cmd: Cmd)
        ensures
            cmd@ == self.emulator(),
    {
        let mut qemu: Cmd = Cmd::new(Base::QemuSystem(String::from_str(self.arch.name()))).arg(
            "-m",
        ).arg("4G").arg("-display").arg("none").arg("-no-reboot").arg("-nographic");
        if let Some(smp) = self.smp {
            qemu = qemu.arg("-smp").arg(to_decimal(smp as u64).as_str());
        }
        qemu
    }

    fn choose_cpu<'a>(&'a self, default: &'a str) -> (cpu: &'a str)
        ensures
            cpu@ == self.processor(default@),
    {
        match &self.cpu {
            Some(cpu) => cpu.as_str(),
            None => default,
        }
    }

    fn describe_machine(&self, project: &str, target: &str, bin: &str) -> (cmd: Cmd)
        ensures
            cmd@ == self.machine_args(project@, target@, bin@),
    {
        let inner: String = join(project, "zCore");
        let mut qemu: Cmd = self.start_emulator();
        match self.arch {
            Arch::Riscv64 => {
                qemu = qemu.arg("-machine").arg("virt").arg("-bios").arg("default").arg(
                    "-serial",
                ).arg("mon:stdio");
                if let Some(cpu) = &self.cpu {
                    qemu = qemu.arg("-cpu").arg(cpu.as_str());
                }
                let image: String = cat(self.arch.name(), ".img");
                qemu.arg("-kernel").arg(bin).arg("-initrd").arg(
                    join(inner.as_str(), image.as_str()).as_str(),
                ).arg("-append").arg("\"LOG=warn\"")
            },
            Arch::X86_64 => {
                let ovmf: String = join2(target, "firmware", "OVMF.fd");
                let flash: String = cat("format=raw,if=pflash,readonly=on,file=", ovmf.as_str());
                let esp: String = join(inner.as_str(), "esp");
                let disk: String = cat("format=raw,file=fat:rw:", esp.as_str());
                qemu.arg("-machine").arg("q35").arg("-cpu").arg(
                    self.choose_cpu("SandyBridge,+smap,-check,+fsgsbase"),
                ).arg("-serial").arg("mon:stdio").arg("-drive").arg(flash.as_str()).arg(
                    "-drive",
                ).arg(disk.as_str()).arg("-nic").arg("none")
            },
            Arch::Aarch64 => {
                let firmware: String = join2(target, "firmware", "QEMU_EFI.fd");
                let hda: String = cat3("fat:rw:", inner.as_str(), "/disk");
                let drive: String = cat3(
                    "file=",
                    inner.as_str(),
                    "/aarch64.img,if=none,format=raw,id=x0",
                );
                qemu.arg("-machine").arg("virt").arg("-cpu").arg(
                    self.choose_cpu("cortex-a53"),
                ).arg("-bios").arg(firmware.as_str()).arg("-hda").arg(hda.as_str()).arg(
                    "-drive",
                ).arg(drive.as_str()).arg("-device").arg(
                    "virtio-blk-device,drive=x0,bus=virtio-mmio-bus.0",
                )
            },
        }
    }

    /// Builds the kernel as `config` says, and runs it in an emulator.
    pub fn qemu(&self, project: &str, target: &str, config: &BuildConfig) -> (plan: Plan)
        ensures
            plan@ == self.running(project@, target@, *config),
    {
        let mut plan: Plan = Plan::new();
        plan.must(Action::MakeImage(self.arch));
        assert(plan@ =~= seq![must(ActionView::MakeImage(self.arch))]);
        plan.append(config.before_build());
        let (build, bin) = config.bin(project, None);
        plan.append(build);
        plan.append(self.put_files(project));
        let mut qemu: Cmd = self.describe_machine(project, target, bin.as_str());
        if let Some(port) = self.gdb {
            let tcp: String = cat("tcp::", to_decimal(port as u64).as_str());
            qemu = qemu.arg("-S").arg("-gdb").arg(tcp.as_str());
        }
        plan.must(Action::Run(qemu));
        assert(plan@ =~= self.running(project@, target@, *config));
        plan
    }
}

/// The debugger for an architecture, connected to a port. There is none for PCs.
pub open spec fn debugging(arch: Arch, port: u16) -> Option<CmdView> {
    let attach = "target remote localhost:"@ + decimal(port as nat);
    match arch {
        Arch::Riscv64 => Some(
            CmdView::new(BaseView::Program("riscv64-unknown-elf-gdb"@)).arg("-ex"@).arg(attach),
        ),
        Arch::Aarch64 => Some(
            CmdView::new(BaseView::Program("aarch64-none-linux-gnu-gdb"@)).arg("-ex"@).arg(attach),
        ),
        Arch::X86_64 => None,
    }
}

/// Starts a debugger, and connects it to a port.
pub fn gdb(arch: Arch, port: u16) -> (cmd: Option<Cmd>)
    ensures
        match cmd {
            Some(cmd) => debugging(arch, port) == Some(cmd@),
            None => debugging(arch, port) is None,
        },
{
    let attach: String = cat("target remote localhost:", to_decimal(port as u64).as_str());
    match arch {
        Arch::Riscv64 => Some(
            Cmd::new(Base::Program(String::from_str("riscv64-unknown-elf-gdb"))).arg("-ex").arg(
                attach.as_str(),
            ),
        ),
        Arch::Aarch64 => Some(
            Cmd::new(Base::Program(String::from_str("aarch64-none-linux-gnu-gdb"))).arg("-ex").arg(
                attach.as_str(),
            ),
        ),
        Arch::X86_64 => None,
    }
}

/// The kernel has exactly one personality, unless both were asked for.
pub proof fn law_kernel_has_a_personality(machine: Machine, extra: Option<Seq<char>>)
    ensures
        ({
            let features = kernel_features(machine, extra);
            &&& features.contains("linux"@) || features.contains("zircon"@)
            &&& !asked_features(machine, extra).contains("linux"@) ==> !(features.contains("linux"@)
                && features.contains("zircon"@))
        }),
{
    reveal_strlit("linux");
    reveal_strlit("zircon");
    assert("linux"@.len() == 5);
    assert("zircon"@.len() == 6);
}

/// The boot configuration `text` has a line that gives `key` the value `value`.
pub open spec fn sets(text: Seq<char>, key: Seq<char>, value: Seq<char>) -> bool {
    exists|before: Seq<char>, after: Seq<char>|
        text == #[trigger] (before + (key + "="@ + value + "\n"@) + after) && (before.len() == 0
            || before.last() == '\n')
}

/// Where a boot loader finds the file that it calls `path`, with backslashes, on a disk
/// whose contents are the directory `disk`.
pub open spec fn on_disk(disk: Seq<char>, path: Seq<char>) -> Seq<char> {
    disk + path.map_values(
        |c: char|
            if c == '\\' {
                '/'
            } else {
                c
            },
    )
}

/// `step` runs `base` with `arg` as one of the arguments.
pub open spec fn runs_with(step: StepView, base: BaseView, arg: Seq<char>) -> bool {
    step.action matches ActionView::Run(cmd) && cmd.base == base && cmd.args.contains(
        ArgView::Plain(arg),
    )
}

/// `step` copies `from` to `to`, and the plan has failed without it.
pub open spec fn copies(step: StepView, from: Seq<char>, to: Seq<char>) -> bool {
    step == must(ActionView::Copy { from, to })
}

/// `plan` writes `text` to the file at `path`, and does not go on without it.
pub open spec fn writes_file(plan: Seq<StepView>, path: Seq<char>, text: Seq<char>) -> bool {
    exists|i: int|
        0 <= i < plan.len() && (#[trigger] plan[i]).action == (ActionView::Write { path, text })
            && plan[i].on_error !is Ignore
}

/// `plan` puts the file `from` under the name `path` on the disk that is made of the
/// directory `disk`, after the kernel is built and before the last step.
pub open spec fn delivers(
    plan: Seq<StepView>,
    built: StepView,
    from: Seq<char>,
    disk: Seq<char>,
    path: Seq<char>,
) -> bool {
    exists|b: int, i: int|
        0 <= b < i < plan.len() - 1 && plan[b] == built && #[trigger] copies(
            plan[i],
            from,
            on_disk(disk, path),
        ) && #[trigger] comes_at(plan, b, built)
}

/// Step `i` of `plan` is `step`.
pub open spec fn comes_at(plan: Seq<StepView>, i: int, step: StepView) -> bool {
    0 <= i < plan.len() && plan[i] == step
}

proof fn lemma_conf_names_kernel()
    ensures
        sets(X86_RBOOT_CONF@, "kernel_path"@, "\\EFI\\zCore\\zcore.elf"@),
        sets(X86_RBOOT_CONF@, "initramfs"@, "\\EFI\\zCore\\x86_64.img"@),
        sets(AARCH64_RBOOT_CONF@, "kernel_path"@, "\\os"@),
{
    reveal_strlit(
        "physical_memory_offset=0xFFFF800000000000\nkernel_path=\\EFI\\zCore\\zcore.elf\ninitramfs=\\EFI\\zCore\\x86_64.img\ncmdline=LOG=warn:ROOTPROC=/bin/busybox?sh\n",
    );
    reveal_strlit(
        "physical_memory_offset=0xFFFF800000000000\nkernel_path=\\os\ncmdline=LOG=warn:ROOTPROC=/bin/busybox?sh\n",
    );
    reveal_strlit("physical_memory_offset=0xFFFF800000000000\n");
    reveal_strlit("kernel_path");
    reveal_strlit("initramfs");
    reveal_strlit("=");
    reveal_strlit("\n");
    reveal_strlit("\\EFI\\zCore\\zcore.elf");
    reveal_strlit("\\EFI\\zCore\\x86_64.img");
    reveal_strlit("\\os");
    let first = "physical_memory_offset=0xFFFF800000000000\n"@;
    let elf = "kernel_path"@ + "="@ + "\\EFI\\zCore\\zcore.elf"@ + "\n"@;
    let img = "initramfs"@ + "="@ + "\\EFI\\zCore\\x86_64.img"@ + "\n"@;
    let os = "kernel_path"@ + "="@ + "\\os"@ + "\n"@;
    let x86 = X86_RBOOT_CONF@;
    let arm = AARCH64_RBOOT_CONF@;
    let n = first.len() as int;
    assert(x86 =~= first + elf + x86.skip(n + elf.len()));
    assert(x86 =~= x86.take(n + elf.len()) + img + x86.skip(n + elf.len() + img.len()));
    assert(x86.take(n + elf.len()).last() == '\n');
    assert(arm =~= first + os + arm.skip(n + os.len()));
}

/// The kernel that is built is the one that is run. On a RISC-V machine the emulator is
/// told to load the binary that is made of it. Elsewhere the emulator is given a disk, and
/// the kernel lies on it, fresh from the build, where the boot configuration on that disk
/// says that the kernel is.
pub proof fn law_built_kernel_is_run(
    args: QemuArgs,
    project: Seq<char>,
    target: Seq<char>,
    config: BuildConfig,
)
    requires
        config.arch == args.arch,
        config.debug == args.debug,
    ensures
        ({
            let plan = args.running(project, target, config);
            let built = must(ActionView::Run(config.invoking(project, CargoSub::Build)));
            let emulator = BaseView::QemuSystem(args.arch.spec_name());
            let kernel = kernel_at(project, args.arch, args.debug);
            let inner = path_join(project, "zCore"@);
            match args.arch {
                Arch::Riscv64 => exists|b: int, i: int, j: int|
                    {
                        &&& 0 <= b < i < plan.len() - 1
                        &&& #[trigger] comes_at(plan, b, built)
                        &&& #[trigger] converts(plan[i], kernel, kernel + ".bin"@)
                        &&& #[trigger] is_pair(
                            plan.last(),
                            emulator,
                            j,
                            "-kernel"@,
                            kernel + ".bin"@,
                        )
                    },
                Arch::X86_64 => {
                    let disk = path_join(inner, "esp"@);
                    &&& runs_with(plan.last(), emulator, "format=raw,file=fat:rw:"@ + disk)
                    &&& sets(X86_RBOOT_CONF@, "kernel_path"@, "\\EFI\\zCore\\zcore.elf"@)
                    &&& delivers(plan, built, kernel, disk, "\\EFI\\zCore\\zcore.elf"@)
                    &&& writes_file(
                        plan.drop_last(),
                        on_disk(disk, "\\EFI\\Boot\\rboot.conf"@),
                        X86_RBOOT_CONF@,
                    )
                },
                Arch::Aarch64 => {
                    let disk = inner + "/disk"@;
                    &&& runs_with(plan.last(), emulator, "fat:rw:"@ + disk)
                    &&& sets(AARCH64_RBOOT_CONF@, "kernel_path"@, "\\os"@)
                    &&& delivers(plan, built, kernel, disk, "\\os"@)
                    &&& plan[0] == must(ActionView::MakeImage(args.arch))
                    &&& forall|has_ovmf: bool, has_qemu_img: bool|
                        writes_file(
                            #[trigger] (LinuxRootfs { arch: args.arch }).making_image(
                                project,
                                target,
                                has_ovmf,
                                has_qemu_img,
                            ),
                            on_disk(disk, "\\EFI\\Boot\\rboot.conf"@),
                            AARCH64_RBOOT_CONF@,
                        )
                },
            }
        }),
{
    let plan = args.running(project, target, config);
    let built = must(ActionView::Run(config.invoking(project, CargoSub::Build)));
    let kernel = kernel_at(project, args.arch, args.debug);
    let inner = path_join(project, "zCore"@);
    let n = plan.len() as int;
    let start = 1 + if config.user_img is Some {
        2int
    } else {
        0
    };
    let base = args.emulator();
    let last = args.machine_args(project, target, config.binary(project, None));
    lemma_conf_names_kernel();
    reveal_strlit("zCore");
    assert(inner.last() == 'e');
    assert(plan[start] == built);
    assert(comes_at(plan, start, built));
    let k = base.args.len() as int;
    match args.arch {
        Arch::Riscv64 => {
            let bin = kernel + ".bin"@;
            let i = start + 3;
            let copy = plan[i].action->Run_0;
            assert(copy.args[1] == ArgView::Plain(kernel));
            assert(copy.args.last() == ArgView::Plain(bin));
            assert(converts(plan[i], kernel, bin));
            let j = k + 6 + if args.cpu is Some {
                2int
            } else {
                0
            };
            assert(last.args[j] == ArgView::Plain("-kernel"@));
            assert(last.args[j + 1] == ArgView::Plain(bin));
            assert(is_pair(
                plan.last(),
                BaseView::QemuSystem(args.arch.spec_name()),
                j,
                "-kernel"@,
                bin,
            ));
        },
        Arch::X86_64 => {
            let disk = path_join(inner, "esp"@);
            reveal_strlit("esp");
            reveal_strlit("EFI");
            reveal_strlit("Boot");
            reveal_strlit("zCore");
            reveal_strlit("zcore.elf");
            reveal_strlit("rboot.conf");
            reveal_strlit("\\EFI\\zCore\\zcore.elf");
            reveal_strlit("\\EFI\\Boot\\rboot.conf");
            assert(disk.last() == 'p');
            assert(path_join(path_join2(disk, "EFI"@, "zCore"@), "zcore.elf"@) =~= on_disk(
                disk,
                "\\EFI\\zCore\\zcore.elf"@,
            ));
            assert(path_join(path_join2(disk, "EFI"@, "Boot"@), "rboot.conf"@) =~= on_disk(
                disk,
                "\\EFI\\Boot\\rboot.conf"@,
            ));
            let i = start + 4;
            assert(copies(plan[i], kernel, on_disk(disk, "\\EFI\\zCore\\zcore.elf"@)));
            assert(plan.drop_last()[i + 2].action == ActionView::Write {
                path: on_disk(disk, "\\EFI\\Boot\\rboot.conf"@),
                text: X86_RBOOT_CONF@,
            });
            let arg = ArgView::Plain("format=raw,file=fat:rw:"@ + disk);
            assert(last.args[k + 9] == arg);
            assert(args.waiting(last).args[k + 9] == arg);
        },
        Arch::Aarch64 => {
            let disk = inner + "/disk"@;
            reveal_strlit("disk");
            reveal_strlit("/disk");
            reveal_strlit("os");
            reveal_strlit("\\os");
            reveal_strlit("EFI");
            reveal_strlit("Boot");
            reveal_strlit("rboot.conf");
            reveal_strlit("\\EFI\\Boot\\rboot.conf");
            assert(path_join(inner, "disk"@) =~= disk);
            assert(path_join2(inner, "disk"@, "os"@) =~= on_disk(disk, "\\os"@));
            let i = start + 1;
            assert(copies(plan[i], kernel, on_disk(disk, "\\os"@)));
            assert("fat:rw:"@ + inner + "/disk"@ =~= "fat:rw:"@ + disk);
            let arg = ArgView::Plain("fat:rw:"@ + disk);
            assert(last.args[k + 7] == arg);
            assert(args.waiting(last).args[k + 7] == arg);
            assert forall|has_ovmf: bool, has_qemu_img: bool|
                writes_file(
                    #[trigger] (LinuxRootfs { arch: args.arch }).making_image(
                        project,
                        target,
                        has_ovmf,
                        has_qemu_img,
                    ),
                    on_disk(disk, "\\EFI\\Boot\\rboot.conf"@),
                    AARCH64_RBOOT_CONF@,
                ) by {
                let rootfs = LinuxRootfs { arch: args.arch };
                let image = rootfs.making_image(project, target, has_ovmf, has_qemu_img);
                assert(path_join(path_join2(disk, "EFI"@, "Boot"@), "rboot.conf"@) =~= on_disk(
                    disk,
                    "\\EFI\\Boot\\rboot.conf"@,
                ));
                assert(image[5].action == ActionView::Write {
                    path: on_disk(disk, "\\EFI\\Boot\\rboot.conf"@),
                    text: AARCH64_RBOOT_CONF@,
                });
            }
        },
    }
}

/// `step` makes a plain binary at `to` of the kernel at `from`.
pub open spec fn converts(step: StepView, from: Seq<char>, to: Seq<char>) -> bool {
    step.action matches ActionView::Run(cmd) && cmd.base is Objcopy && cmd.args.contains(
        ArgView::Plain(from),
    ) && cmd.args.last() == ArgView::Plain(to) && step.on_error is Report
}

/// `step` runs `base`, and its argument `i` is the option `name` with the value `value`.
pub open spec fn is_pair(
    step: StepView,
    base: BaseView,
    i: int,
    name: Seq<char>,
    value: Seq<char>,
) -> bool {
    &&& step.action matches ActionView::Run(cmd)
    &&& cmd.base == base
    &&& 0 <= i < cmd.args.len() - 1
    &&& cmd.args[i] == ArgView::Plain(name)
    &&& cmd.args[i + 1] == ArgView::Plain(value)
}

/// The image of the root file system is made before anything else, and reaches the kernel:
/// as the initial RAM disk of a RISC-V machine or of a PC, where the boot configuration
/// names it, and as a drive elsewhere. A PC also gets the boot loader, where its firmware
/// looks for one.
pub proof fn law_image_is_run(
    args: QemuArgs,
    project: Seq<char>,
    target: Seq<char>,
    config: BuildConfig,
)
    requires
        config.arch == args.arch,
        config.debug == args.debug,
    ensures
        ({
            let plan = args.running(project, target, config);
            let made = must(ActionView::MakeImage(args.arch));
            let emulator = BaseView::QemuSystem(args.arch.spec_name());
            let image = (LinuxRootfs { arch: args.arch }).spec_image_path(project);
            let disk = path_join(path_join(project, "zCore"@), "esp"@);
            &&& comes_at(plan, 0, made)
            &&& match args.arch {
                Arch::Riscv64 => exists|j: int|
                    #[trigger] is_pair(plan.last(), emulator, j, "-initrd"@, image),
                Arch::X86_64 => {
                    &&& sets(X86_RBOOT_CONF@, "initramfs"@, "\\EFI\\zCore\\x86_64.img"@)
                    &&& delivers(plan, made, image, disk, "\\EFI\\zCore\\x86_64.img"@)
                    &&& delivers(
                        plan,
                        made,
                        rboot_efi(project, "x86_64-unknown-uefi"@),
                        disk,
                        "\\EFI\\Boot\\BootX64.efi"@,
                    )
                },
                Arch::Aarch64 => exists|j: int|
                    #[trigger] is_pair(
                        plan.last(),
                        emulator,
                        j,
                        "-drive"@,
                        "file="@ + image + ",if=none,format=raw,id=x0"@,
                    ),
            }
        }),
{
    let plan = args.running(project, target, config);
    let made = must(ActionView::MakeImage(args.arch));
    let emulator = BaseView::QemuSystem(args.arch.spec_name());
    let image = (LinuxRootfs { arch: args.arch }).spec_image_path(project);
    let inner = path_join(project, "zCore"@);
    let start = 1 + if config.user_img is Some {
        2int
    } else {
        0
    };
    let last = args.machine_args(project, target, config.binary(project, None));
    let k = args.emulator().args.len() as int;
    lemma_conf_names_kernel();
    reveal_strlit("zCore");
    assert(inner.last() == 'e');
    assert(comes_at(plan, 0, made));
    match args.arch {
        Arch::Riscv64 => {
            let j = k + 8 + if args.cpu is Some {
                2int
            } else {
                0
            };
            assert(last.args[j] == ArgView::Plain("-initrd"@));
            assert(last.args[j + 1] == ArgView::Plain(image));
            assert(is_pair(plan.last(), emulator, j, "-initrd"@, image));
        },
        Arch::X86_64 => {
            let disk = path_join(inner, "esp"@);
            reveal_strlit("esp");
            reveal_strlit("EFI");
            reveal_strlit("Boot");
            reveal_strlit("x86_64");
            reveal_strlit(".img");
            reveal_strlit("x86_64.img");
            reveal_strlit("BootX64.efi");
            reveal_strlit("\\EFI\\zCore\\x86_64.img");
            reveal_strlit("\\EFI\\Boot\\BootX64.efi");
            assert(disk.last() == 'p');
            assert(args.arch.spec_name() + ".img"@ =~= "x86_64.img"@);
            let to = on_disk(disk, "\\EFI\\zCore\\x86_64.img"@);
            let boot = on_disk(disk, "\\EFI\\Boot\\BootX64.efi"@);
            assert(path_join(path_join2(disk, "EFI"@, "zCore"@), "x86_64.img"@) =~= to);
            assert(path_join(path_join2(disk, "EFI"@, "Boot"@), "BootX64.efi"@) =~= boot);
            assert(copies(plan[start + 5], image, to));
            assert(copies(plan[start + 3], rboot_efi(project, "x86_64-unknown-uefi"@), boot));
        },
        Arch::Aarch64 => {
            reveal_strlit("aarch64");
            reveal_strlit(".img");
            reveal_strlit("/aarch64.img,if=none,format=raw,id=x0");
            reveal_strlit(",if=none,format=raw,id=x0");
            let value = "file="@ + image + ",if=none,format=raw,id=x0"@;
            assert("file="@ + inner + "/aarch64.img,if=none,format=raw,id=x0"@ =~= value);
            let j = k + 8;
            assert(last.args[j] == ArgView::Plain("-drive"@));
            assert(last.args[j + 1] == ArgView::Plain(value));
            assert(is_pair(plan.last(), emulator, j, "-drive"@, value));
        },
    }
}

/// The kernel is looked for where the build leaves it: in the project's `target`
/// directory, below the name of the target description and of the profile, under the name
/// of the package.
pub proof fn law_kernel_is_where_the_build_leaves_it(config: BuildConfig, project: Seq<char>)
    ensures
        ({
            let cmd = config.invoking(project, CargoSub::Build);
            let arch = config.arch.spec_name();
            let profile = if cmd.args.contains(ArgView::Release) {
                "release"@
            } else {
                "debug"@
            };
            &&& cmd.base == BaseView::Cargo(CargoSub::Build)
            &&& cmd.dir is None
            &&& cmd.args.contains(ArgView::Package("zcore"@))
            &&& cmd.args.contains(
                ArgView::Target(path_join(path_join(project, "zCore"@), arch + ".json"@)),
            )
            &&& cmd.args.contains(ArgView::Release) <==> !config.debug
            &&& config.kernel(project) == path_join(
                path_join(path_join(path_join(project, "target"@), arch), profile),
                "zcore"@,
            )
            &&& config.user_img is Some ==> cmd.envs.contains(
                ("USER_IMG"@, config.user_img->0@),
            )
            &&& cmd.args.contains(
                (ArgView::Features { default: false, list: config.feature_list() }),
            )
        }),
{
    let cmd = config.invoking(project, CargoSub::Build);
    let arch = config.arch.spec_name();
    let list = config.feature_list();
    assert(cmd.args[0] == ArgView::Package("zcore"@));
    assert(cmd.args[1] == ArgView::Features { default: false, list });
    assert(cmd.args[2] == ArgView::Target(path_join2(project, "zCore"@, arch + ".json"@)));
    if config.debug {
        assert(cmd.args.len() == 9);
        assert forall|i: int| 0 <= i < cmd.args.len() implies cmd.args[i] != ArgView::Release by {
        }
    } else {
        assert(cmd.args[9] == ArgView::Release);
    }
    if config.user_img is Some {
        assert(cmd.envs[0] == ("USER_IMG"@, config.user_img->0@));
    }
    assert(cmd.args.contains(ArgView::Features { default: false, list }));
}

/// A debugger is connected to the port on which the emulator waits for one, and an
/// emulator that is to wait does not start the kernel by itself.
pub proof fn law_debugger_meets_emulator(args: QemuArgs, qemu: CmdView, port: u16)
    requires
        args.gdb == Some(port),
    ensures
        ({
            let cmd = args.waiting(qemu);
            let n = cmd.args.len() as int;
            &&& cmd.args.contains(ArgView::Plain("-S"@))
            &&& n >= 2
            &&& cmd.args[n - 2] == ArgView::Plain("-gdb"@)
            &&& cmd.args[n - 1] == ArgView::Plain("tcp::"@ + decimal(port as nat))
            &&& args.arch is X86_64 <==> debugging(args.arch, port) is None
            &&& debugging(args.arch, port) matches Some(gdb) ==> gdb.args == seq![
                ArgView::Plain("-ex"@),
                ArgView::Plain("target remote localhost:"@ + decimal(port as nat)),
            ]
        }),
{
    let cmd = args.waiting(qemu);
    let n = cmd.args.len() as int;
    assert(cmd.args[n - 3] == ArgView::Plain("-S"@));
    match debugging(args.arch, port) {
        Some(gdb) => {
            assert(gdb.args =~= seq![
                ArgView::Plain("-ex"@),
                ArgView::Plain("target remote localhost:"@ + decimal(port as nat)),
            ]);
        },
        None => {},
    }
}

/// What is disassembled is the kernel that was just built, and the outcome goes to where
/// it is said to go.
pub proof fn law_built_kernel_is_disassembled(
    config: BuildConfig,
    project: Seq<char>,
    out: Seq<char>,
)
    ensures
        ({
            let plan = config.disassembling(project, out);
            let n = plan.len() - 3;
            &&& n >= 0
            &&& plan.take(n) == config.handing_over(project, CargoSub::Build)
            &&& plan[n].action == ActionView::Print("Asm file dumps to '"@ + out + "'."@)
            &&& plan[n + 1].action == ActionView::CreateParent(out)
            &&& plan[n + 2].action matches ActionView::RunInto { cmd, path } && path == out
                && cmd.base == BaseView::Objdump && cmd.args[0] == ArgView::Plain(
                config.kernel(project),
            ) && cmd.args[1] == ArgView::Plain("-d"@)
        }),
{
    let plan = config.disassembling(project, out);
    assert(plan.take(plan.len() - 3) =~= config.handing_over(project, CargoSub::Build));
}

} // verus!
