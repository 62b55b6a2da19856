//! Architectures that the kernel is built for.

use vstd::prelude::*;

use crate::words::{cat, same_text};
use crate::xtask::errors::XError;

verus! {

#[derive(Debug, Clone, Copy, PartialEq, Eq, Structural)]
pub enum Arch {
    Riscv64,
    X86_64,
    Aarch64,
}

impl Arch {
    /// The name of an architecture.
    pub open spec fn spec_name(self) -> Seq<char> {
        match self {
            Arch::Riscv64 => "riscv64"@,
            Arch::X86_64 => "x86_64"@,
            Arch::Aarch64 => "aarch64"@,
        }
    }

    pub fn name(self) -> (name: &'static str)
        ensures
            name@ == self.spec_name(),
    {
        match self {
            Arch::Riscv64 => "riscv64",
            Arch::X86_64 => "x86_64",
            Arch::Aarch64 => "aarch64",
        }
    }

    /// The architecture of the given name.
    pub fn parse(value: &str) -> (arch: Result<Arch, XError>)
        ensures
            match arch {
                Ok(arch) => value@ == arch.spec_name(),
                Err(XError::EnumParse { kind_name, value: named }) => {
                    &&& kind_name@ == "Arch"@
                    &&& named@ == value@
                    &&& forall|arch: Arch| value@ != #[trigger] arch.spec_name()
                },
            },
    {
        if same_text(value, "riscv64") {
            return Ok(Arch::Riscv64);
        }
        if same_text(value, "x86_64") {
            return Ok(Arch::X86_64);
        }
        if same_text(value, "aarch64") {
            return Ok(Arch::Aarch64);
        }
        Err(XError::EnumParse { kind_name: "Arch", value: String::from_str(value) })
    }

    /// What the tools of the cross compiler for an architecture are called.
    pub open spec fn musl(self) -> Seq<char> {
        self.spec_name() + "-linux-musl"@
    }

    /// What the tools of the cross compiler are called: the architecture, the
    /// system, and `tool`.
    pub fn musl_name(self, tool: &str) -> (name: String)
        ensures
            name@ == self.musl() + tool@,
    {
        let base: String = cat(self.name(), "-linux-musl");
        cat(base.as_str(), tool)
    }
}

/// Architectures have different names.
pub proof fn law_names_are_distinct(a: Arch, b: Arch)
    ensures
        a.spec_name() == b.spec_name() ==> a == b,
{
    reveal_strlit("riscv64");
    reveal_strlit("x86_64");
    reveal_strlit("aarch64");
    assert("riscv64"@[0] == 'r');
    assert("x86_64"@[0] == 'x');
    assert("aarch64"@[0] == 'a');
}

} // verus!
