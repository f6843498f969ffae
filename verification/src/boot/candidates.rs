//! Where loaders and helpers are looked for, by the architecture the boot
//! manager runs on.

use vstd::prelude::*;

verus! {

/// The architecture the boot manager was built for.
#[derive(Debug, Clone, Copy, PartialEq, Eq, Structural)]
pub enum TargetArch {
    X86_64,
    X86,
    Aarch64,
    Arm,
    Other,
}

pub const EFI_BOOT_X64: &'static str = "\\EFI\\BOOT\\BOOTX64.EFI";
pub const EFI_BOOT_AA64: &'static str = "\\EFI\\BOOT\\BOOTAA64.EFI";
pub const EFI_BOOT_IA32: &'static str = "\\EFI\\BOOT\\BOOTIA32.EFI";
pub const EFI_BOOT_ARM: &'static str = "\\EFI\\BOOT\\BOOTARM.EFI";
pub const GENERIC_BOOT_X64: &'static str = "/efi/boot/bootx64.efi";
pub const GENERIC_BOOT_AA64: &'static str = "/efi/boot/bootaa64.efi";
pub const GENERIC_BOOT_IA32: &'static str = "/efi/boot/bootia32.efi";
pub const GENERIC_BOOT_ARM: &'static str = "/efi/boot/bootarm.efi";

/// The four removable-media loader names, the running architecture's first.
pub open spec fn efi_boot_order<T>(arch: TargetArch, x64: T, aa64: T, ia32: T, arm: T) -> Seq<T> {
    match arch {
        TargetArch::Aarch64 => seq![aa64, x64, ia32, arm],
        TargetArch::Arm => seq![arm, aa64, x64, ia32],
        TargetArch::X86 => seq![ia32, x64, aa64, arm],
        _ => seq![x64, aa64, ia32, arm],
    }
}

/// The removable-media loaders tried on an image, in the order tried.
pub fn default_efi_boot_paths(arch: TargetArch) -> (r: Vec<&'static str>)
    ensures
        r@ == efi_boot_order(arch, EFI_BOOT_X64, EFI_BOOT_AA64, EFI_BOOT_IA32, EFI_BOOT_ARM),
{
    let r = match arch {
        TargetArch::Aarch64 => vec![EFI_BOOT_AA64, EFI_BOOT_X64, EFI_BOOT_IA32, EFI_BOOT_ARM],
        TargetArch::Arm => vec![EFI_BOOT_ARM, EFI_BOOT_AA64, EFI_BOOT_X64, EFI_BOOT_IA32],
        TargetArch::X86 => vec![EFI_BOOT_IA32, EFI_BOOT_X64, EFI_BOOT_AA64, EFI_BOOT_ARM],
        _ => vec![EFI_BOOT_X64, EFI_BOOT_AA64, EFI_BOOT_IA32, EFI_BOOT_ARM],
    };
    assert(r@ =~= efi_boot_order(arch, EFI_BOOT_X64, EFI_BOOT_AA64, EFI_BOOT_IA32, EFI_BOOT_ARM));
    r
}

/// The same loaders as lowercase `/`-separated paths, in the order tried.
pub fn generic_efi_boot_paths(arch: TargetArch) -> (r: Vec<&'static str>)
    ensures
        r@ == efi_boot_order(arch, GENERIC_BOOT_X64, GENERIC_BOOT_AA64, GENERIC_BOOT_IA32, GENERIC_BOOT_ARM),
{
    let r = match arch {
        TargetArch::Aarch64 => vec![GENERIC_BOOT_AA64, GENERIC_BOOT_X64, GENERIC_BOOT_IA32, GENERIC_BOOT_ARM],
        TargetArch::Arm => vec![GENERIC_BOOT_ARM, GENERIC_BOOT_AA64, GENERIC_BOOT_X64, GENERIC_BOOT_IA32],
        TargetArch::X86 => vec![GENERIC_BOOT_IA32, GENERIC_BOOT_X64, GENERIC_BOOT_AA64, GENERIC_BOOT_ARM],
        _ => vec![GENERIC_BOOT_X64, GENERIC_BOOT_AA64, GENERIC_BOOT_IA32, GENERIC_BOOT_ARM],
    };
    assert(r@ =~= efi_boot_order(arch, GENERIC_BOOT_X64, GENERIC_BOOT_AA64, GENERIC_BOOT_IA32, GENERIC_BOOT_ARM));
    r
}

/// The wimboot helpers tried, in order; none where wimboot does not run.
pub fn wimboot_helper_candidates(arch: TargetArch) -> (r: Vec<&'static str>)
    ensures
        arch == TargetArch::X86_64 ==> r@ == seq![
            "/ventoy/wimboot.x86_64",
            "/ventoy/wimboot.x86_64.efi",
            "/ventoy/wimboot_x64.efi",
            "/ventoy/wimboot.efi",
        ],
        arch == TargetArch::X86 ==> r@ == seq![
            "/ventoy/wimboot.i386.efi",
            "/ventoy/wimboot.i386",
            "/ventoy/wimboot_ia32.efi",
            "/ventoy/wimboot.efi",
        ],
        arch != TargetArch::X86_64 && arch != TargetArch::X86 ==> r@.len() == 0,
{
    match arch {
        TargetArch::X86_64 => vec![
            "/ventoy/wimboot.x86_64",
            "/ventoy/wimboot.x86_64.efi",
            "/ventoy/wimboot_x64.efi",
            "/ventoy/wimboot.efi",
        ],
        TargetArch::X86 => vec![
            "/ventoy/wimboot.i386.efi",
            "/ventoy/wimboot.i386",
            "/ventoy/wimboot_ia32.efi",
            "/ventoy/wimboot.efi",
        ],
        _ => Vec::new(),
    }
}

/// The xz-compressed wimboot helpers tried.
pub fn compressed_wimboot_helper_candidates(arch: TargetArch) -> (r: Vec<&'static str>)
    ensures
        arch == TargetArch::X86_64 ==> r@ == seq!["/ventoy/wimboot.x86_64.xz"],
        arch == TargetArch::X86 ==> r@ == seq!["/ventoy/wimboot.i386.efi.xz"],
        arch != TargetArch::X86_64 && arch != TargetArch::X86 ==> r@.len() == 0,
{
    match arch {
        TargetArch::X86_64 => vec!["/ventoy/wimboot.x86_64.xz"],
        TargetArch::X86 => vec!["/ventoy/wimboot.i386.efi.xz"],
        _ => Vec::new(),
    }
}

/// The architecture's Ventoy cpio archive: the ARM64 one on `aarch64`, the
/// x86 one elsewhere.
pub fn ventoy_arch_cpio_candidates(arch: TargetArch) -> (r: Vec<&'static str>)
    ensures
        arch == TargetArch::Aarch64 ==> r@ == seq!["/ventoy/ventoy_arm64.cpio"],
        arch != TargetArch::Aarch64 ==> r@ == seq!["/ventoy/ventoy_x86.cpio"],
{
    match arch {
        TargetArch::Aarch64 => vec!["/ventoy/ventoy_arm64.cpio"],
        _ => vec!["/ventoy/ventoy_x86.cpio"],
    }
}

} // verus!
