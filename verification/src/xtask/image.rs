//! The image of the root file system, and what boots it.

use vstd::prelude::*;

use crate::words::cat;
use crate::xtask::arch::Arch;
use crate::xtask::plan::{
    join, join2, join3, must, path_join, path_join2, path_join3, vital, Action, ActionView, ArgView,
    Base, BaseView, CargoSub, Cmd, CmdView, Plan, StepView,
};
use crate::xtask::rootfs::LinuxRootfs;

verus! {

pub const OVMF_URL: &'static str =
    "https://github.com/retrage/edk2-nightly/raw/e32f6c3dedd0dab3f25a8665b88a53c9cf2941d9/bin/DEBUGX64_OVMF.fd";

pub const AARCH64_RBOOT_CONF: &'static str =
    "physical_memory_offset=0xFFFF800000000000\nkernel_path=\\os\ncmdline=LOG=warn:ROOTPROC=/bin/busybox?sh\n";

/// By how much an image is larger than what it holds.
pub const SPARE_SPACE: u64 = 0x50_0000;

/// The command that builds the boot loader.
pub open spec fn rboot_build(project: Seq<char>, target: Seq<char>) -> CmdView {
    CmdView::new(BaseView::Cargo(CargoSub::Build)).arg("--manifest-path"@).arg(
        path_join2(project, "rboot"@, "Cargo.toml"@),
    ).arg("--target"@).arg(target).arg("-Z"@).arg("build-std=core,alloc"@).arg("-Z"@).arg(
        "build-std-features=compiler-builtins-mem"@,
    ).arg("--release"@)
}

fn rboot_build_cmd(project: &str, target: &str) -> (cmd: Cmd)
    ensures
        cmd@ == rboot_build(project@, target@),
{
    Cmd::new(Base::Cargo(CargoSub::Build)).arg("--manifest-path").arg(
        join2(project, "rboot", "Cargo.toml").as_str(),
    ).arg("--target").arg(target).arg("-Z").arg("build-std=core,alloc").arg("-Z").arg(
        "build-std-features=compiler-builtins-mem",
    ).arg("--release")
}

/// The command that builds the boot loader once more, from the current directory.
pub open spec fn rboot_rebuild() -> CmdView {
    CmdView::new(BaseView::Program("cargo"@)).arg("build"@).arg("--manifest-path"@).arg(
        "rboot/Cargo.toml"@,
    ).arg("--target"@).arg("aarch64-unknown-uefi"@).arg("-Zbuild-std=core,alloc"@).arg(
        "-Zbuild-std-features=compiler-builtins-mem"@,
    ).arg("--release"@)
}

fn rboot_rebuild_cmd() -> (cmd: Cmd)
    ensures
        cmd@ == rboot_rebuild(),
{
    Cmd::new(Base::Program(String::from_str("cargo"))).arg("build").arg("--manifest-path").arg(
        "rboot/Cargo.toml",
    ).arg("--target").arg("aarch64-unknown-uefi").arg("-Zbuild-std=core,alloc").arg(
        "-Zbuild-std-features=compiler-builtins-mem",
    ).arg("--release")
}

/// The boot loader that was built for the given target.
pub open spec fn rboot_efi(project: Seq<char>, target: Seq<char>) -> Seq<char> {
    path_join2(path_join3(project, "rboot"@, "target"@, target), "release"@, "rboot.efi"@)
}

pub fn rboot_efi_path(project: &str, target: &str) -> (path: String)
    ensures
        path@ == rboot_efi(project@, target@),
{
    join2(join3(project, "rboot", "target", target).as_str(), "release", "rboot.efi")
}

impl LinuxRootfs {
    /// The image of the root file system.
    pub open spec fn spec_image_path(self, project: Seq<char>) -> Seq<char> {
        path_join2(project, "zCore"@, self.arch.spec_name() + ".img"@)
    }

    pub fn image_path(&self, project: &str) -> (path: String)
        ensures
            path@ == self.spec_image_path(project@),
    {
        join2(project, "zCore", cat(self.arch.name(), ".img").as_str())
    }

    /// How what boots the image is made. RISC-V machines need nothing.
    pub open spec fn making_boot(
        self,
        project: Seq<char>,
        target: Seq<char>,
        has_ovmf: bool,
    ) -> Seq<StepView> {
        let boot_dir = path_join2(path_join2(project, "zCore"@, "disk"@), "EFI"@, "Boot"@);
        let ovmf = path_join2(target, "firmware"@, "OVMF.fd"@);
        match self.arch {
            Arch::Aarch64 => seq![
                must(ActionView::Run(rboot_build(project, "aarch64-unknown-uefi"@))),
                vital(ActionView::Clear(boot_dir)),
                vital(ActionView::Run(rboot_rebuild())),
                vital(
                    ActionView::Copy {
                        from: rboot_efi(project, "aarch64-unknown-uefi"@),
                        to: path_join(boot_dir, "bootaa64.efi"@),
                    },
                ),
                vital(
                    ActionView::Write {
                        path: path_join(boot_dir, "rboot.conf"@),
                        text: AARCH64_RBOOT_CONF@,
                    },
                ),
            ],
            Arch::X86_64 => (if has_ovmf {
                Seq::empty()
            } else {
                seq![
                    must(ActionView::CreateParent(ovmf)),
                    must(ActionView::Fetch { url: OVMF_URL@, to: ovmf }),
                ]
            }) + seq![must(ActionView::Run(rboot_build(project, "x86_64-unknown-uefi"@)))],
            Arch::Riscv64 => Seq::empty(),
        }
    }

    /// How the image gets some spare space.
    pub open spec fn growing(image: Seq<char>, has_qemu_img: bool) -> StepView {
        if has_qemu_img {
            must(
                ActionView::Run(
                    CmdView::new(BaseView::QemuImg).arg("resize"@).arg("-f"@).arg("raw"@).arg(
                        image,
                    ).arg("+5M"@),
                ),
            )
        } else {
            must(ActionView::Grow { path: image, bytes: SPARE_SPACE })
        }
    }

    /// How the image is made.
    pub open spec fn making_image(
        self,
        project: Seq<char>,
        target: Seq<char>,
        has_ovmf: bool,
        has_qemu_img: bool,
    ) -> Seq<StepView> {
        let image = self.spec_image_path(project);
        seq![must(ActionView::MakeRootfs(self.arch))] + self.making_boot(project, target, has_ovmf) + seq![
            must(ActionView::Fuse { dir: self.spec_path(project), image }),
            Self::growing(image, has_qemu_img),
        ]
    }

    fn boot(&self, project: &str, target: &str, has_ovmf: bool) -> (plan: Plan)
        ensures
            plan@ == self.making_boot(project@, target@, has_ovmf),
    {
        let mut plan: Plan = Plan::new();
        match self.arch {
            Arch::Aarch64 => {
                let boot_dir: String = join2(
                    join2(project, "zCore", "disk").as_str(),
                    "EFI",
                    "Boot",
                );
                plan.must(Action::Run(rboot_build_cmd(project, "aarch64-unknown-uefi")));
                plan.vital(Action::Clear(boot_dir.clone()));
                plan.vital(Action::Run(rboot_rebuild_cmd()));
                plan.vital(
                    Action::Copy {
                        from: rboot_efi_path(project, "aarch64-unknown-uefi"),
                        to: join(boot_dir.as_str(), "bootaa64.efi"),
                    },
                );
                plan.vital(
                    Action::Write {
                        path: join(boot_dir.as_str(), "rboot.conf"),
                        text: String::from_str(AARCH64_RBOOT_CONF),
                    },
                );
            },
            Arch::X86_64 => {
                let ovmf: String = join2(target, "firmware", "OVMF.fd");
                if !has_ovmf {
                    plan.must(Action::CreateParent(ovmf.clone()));
                    plan.must(Action::Fetch { url: String::from_str(OVMF_URL), to: ovmf });
                }
                plan.must(Action::Run(rboot_build_cmd(project, "x86_64-unknown-uefi")));
            },
            Arch::Riscv64 => {},
        }
        assert(plan@ =~= self.making_boot(project@, target@, has_ovmf));
        plan
    }

    /// Makes the image, and what boots it. `target` is where files that were
    /// generated for the architecture are.
    pub fn image(&self, project: &str, target: &str, has_ovmf: bool, has_qemu_img: bool) -> (plan:
        Plan)
        ensures
            plan@ == self.making_image(project@, target@, has_ovmf, has_qemu_img),
    {
        let image: String = self.image_path(project);
        let mut plan: Plan = Plan::new();
        plan.must(Action::MakeRootfs(self.arch));
        assert(plan@ =~= seq![must(ActionView::MakeRootfs(self.arch))]);
        plan.append(self.boot(project, target, has_ovmf));
        plan.must(Action::Fuse { dir: self.path(project), image: image.clone() });
        if has_qemu_img {
            plan.must(
                Action::Run(
                    Cmd::new(Base::QemuImg).arg("resize").arg("-f").arg("raw").arg(
                        image.as_str(),
                    ).arg("+5M"),
                ),
            );
        } else {
            plan.must(Action::Grow { path: image, bytes: SPARE_SPACE });
        }
        assert(plan@ =~= self.making_image(project@, target@, has_ovmf, has_qemu_img));
        plan
    }
}

/// However the image is made, the root file system is made first, and the image is
/// made of it before it gets its spare space.
pub proof fn law_image_is_made_in_order(
    rootfs: LinuxRootfs,
    project: Seq<char>,
    target: Seq<char>,
    has_ovmf: bool,
    has_qemu_img: bool,
)
    ensures
        ({
            let plan = rootfs.making_image(project, target, has_ovmf, has_qemu_img);
            let image = rootfs.spec_image_path(project);
            &&& plan.len() >= 3
            &&& plan[0] == must(ActionView::MakeRootfs(rootfs.arch))
            &&& plan[plan.len() - 2] == must(
                ActionView::Fuse { dir: rootfs.spec_path(project), image },
            )
            &&& plan.last() == LinuxRootfs::growing(image, has_qemu_img)
        }),
{
}

/// The boot loader is taken from where its build leaves it: the release directory for
/// its target, in the directory of its manifest.
pub proof fn law_loader_is_where_the_build_leaves_it(project: Seq<char>, target: Seq<char>)
    ensures
        ({
            let cmd = rboot_build(project, target);
            let dir = path_join(project, "rboot"@);
            &&& cmd.base == BaseView::Cargo(CargoSub::Build)
            &&& cmd.args[0] == ArgView::Plain("--manifest-path"@)
            &&& cmd.args[1] == ArgView::Plain(path_join(dir, "Cargo.toml"@))
            &&& cmd.args[2] == ArgView::Plain("--target"@)
            &&& cmd.args[3] == ArgView::Plain(target)
            &&& cmd.args.last() == ArgView::Plain("--release"@)
            &&& rboot_efi(project, target) == path_join(
                path_join(path_join(path_join(dir, "target"@), target), "release"@),
                "rboot.efi"@,
            )
        }),
{
}

/// On 64-bit Arm the boot loader and its configuration come to the directory that
/// firmware looks in, which is cleared before. The loader is built before it is copied,
/// for the target that it is copied from.
pub proof fn law_loader_is_put_where_firmware_looks(
    rootfs: LinuxRootfs,
    project: Seq<char>,
    target: Seq<char>,
    has_ovmf: bool,
)
    requires
        rootfs.arch is Aarch64,
    ensures
        ({
            let plan = rootfs.making_boot(project, target, has_ovmf);
            let uefi = "aarch64-unknown-uefi"@;
            &&& plan.len() == 5
            &&& plan[0].action == ActionView::Run(rboot_build(project, uefi))
            &&& plan[1].action matches ActionView::Clear(dir) && {
                &&& dir == path_join(
                    path_join(path_join(path_join(project, "zCore"@), "disk"@), "EFI"@),
                    "Boot"@,
                )
                &&& plan[2].action matches ActionView::Run(cmd) && cmd.args.contains(
                    ArgView::Plain(uefi),
                )
                &&& plan[3].action == (ActionView::Copy {
                    from: rboot_efi(project, uefi),
                    to: path_join(dir, "bootaa64.efi"@),
                })
                &&& plan[4].action matches ActionView::Write { path, text } && path == path_join(
                    dir,
                    "rboot.conf"@,
                )
            }
        }),
{
    let plan = rootfs.making_boot(project, target, has_ovmf);
    let cmd = plan[2].action->Run_0;
    assert(cmd.args[4] == ArgView::Plain("aarch64-unknown-uefi"@));
}

/// On a PC the firmware is fetched only if it is missing, to where it is looked for, and
/// the boot loader is built in any case.
pub proof fn law_firmware_is_fetched_if_missing(
    rootfs: LinuxRootfs,
    project: Seq<char>,
    target: Seq<char>,
    has_ovmf: bool,
)
    requires
        rootfs.arch is X86_64,
    ensures
        ({
            let plan = rootfs.making_boot(project, target, has_ovmf);
            let firmware = path_join(path_join(target, "firmware"@), "OVMF.fd"@);
            &&& plan.last().action == ActionView::Run(rboot_build(project, "x86_64-unknown-uefi"@))
            &&& has_ovmf ==> plan.len() == 1
            &&& !has_ovmf ==> plan.len() == 3 && plan[0].action == ActionView::CreateParent(firmware)
                && (plan[1].action matches ActionView::Fetch { url, to } && to == firmware)
        }),
{
}

/// However an image is enlarged, it is by five mebibytes, and it is the image that was
/// made of the root file system.
pub proof fn law_image_grows(
    rootfs: LinuxRootfs,
    project: Seq<char>,
    target: Seq<char>,
    has_ovmf: bool,
    has_qemu_img: bool,
)
    ensures
        ({
            let plan = rootfs.making_image(project, target, has_ovmf, has_qemu_img);
            plan[plan.len() - 2].action matches ActionView::Fuse { dir, image } && {
                &&& image == path_join(
                    path_join(project, "zCore"@),
                    rootfs.arch.spec_name() + ".img"@,
                )
                &&& dir == path_join(path_join(project, "rootfs"@), rootfs.arch.spec_name())
                &&& match plan.last().action {
                    ActionView::Grow { path, bytes } => !has_qemu_img && path == image && bytes == 5
                        * 1024 * 1024,
                    ActionView::Run(cmd) => has_qemu_img && cmd.base == BaseView::QemuImg
                        && cmd.args[0] == ArgView::Plain("resize"@) && cmd.args[3]
                        == ArgView::Plain(image) && cmd.args[4] == ArgView::Plain("+5M"@),
                    _ => false,
                }
            }
        }),
{
}

} // verus!
