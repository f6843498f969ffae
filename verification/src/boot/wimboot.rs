//! Windows images booted through wimboot: the files wimboot is told about.

use vstd::prelude::*;

verus! {

pub const WIMBOOT_BOOT_WIM_CALLBACK_PATH: &'static str = "nb-boot-wim";
pub const WIMBOOT_BCD_CALLBACK_PATH: &'static str = "nb-bcd";
pub const WIMBOOT_BOOT_SDI_CALLBACK_PATH: &'static str = "nb-boot-sdi";
pub const WIMBOOT_BOOTMGFW_CALLBACK_PATH: &'static str = "nb-bootmgfw";
pub const WIMBOOT_SELF_CALLBACK_PATH: &'static str = "nb-wimboot";
pub const WIMBOOT_WINPESHL_CALLBACK_PATH: &'static str = "nb-winpeshl";
pub const WIMBOOT_BOOT_WIM_VIRTUAL_NAME: &'static str = "boot.wim";
pub const WIMBOOT_SELF_VIRTUAL_NAME: &'static str = "vtoy_wimboot";
pub const WIMBOOT_BOOTMGFW_VIRTUAL_NAME: &'static str = "bootmgfw.efi";
pub const WIMBOOT_WINPESHL_VIRTUAL_NAME: &'static str = "winpeshl.exe";
pub const WIMBOOT_BCD_VIRTUAL_NAME: &'static str = "bcd";
pub const WIMBOOT_BOOT_SDI_VIRTUAL_NAME: &'static str = "boot.sdi";

/// Which optional files were found, on the volume or inside `boot.wim`.
#[derive(Debug, Clone, Copy, PartialEq, Eq, Structural)]
pub struct WimbootIncludes {
    pub bootmgfw: bool,
    pub winpeshl: bool,
    pub bcd: bool,
    pub boot_sdi: bool,
}

/// The files wimboot sees, as (name, callback path): `boot.wim` and wimboot
/// itself always, then `bootmgfw.efi`, `winpeshl.exe`, `bcd` and `boot.sdi`
/// when they were found, in that order.
pub open spec fn virtual_file_list(found: WimbootIncludes) -> Seq<(&'static str, &'static str)> {
    let base = seq![
        (WIMBOOT_BOOT_WIM_VIRTUAL_NAME, WIMBOOT_BOOT_WIM_CALLBACK_PATH),
        (WIMBOOT_SELF_VIRTUAL_NAME, WIMBOOT_SELF_CALLBACK_PATH),
    ];
    let a = if found.bootmgfw {
        base.push((WIMBOOT_BOOTMGFW_VIRTUAL_NAME, WIMBOOT_BOOTMGFW_CALLBACK_PATH))
    } else {
        base
    };
    let b = if found.winpeshl {
        a.push((WIMBOOT_WINPESHL_VIRTUAL_NAME, WIMBOOT_WINPESHL_CALLBACK_PATH))
    } else {
        a
    };
    let c = if found.bcd {
        b.push((WIMBOOT_BCD_VIRTUAL_NAME, WIMBOOT_BCD_CALLBACK_PATH))
    } else {
        b
    };
    if found.boot_sdi {
        c.push((WIMBOOT_BOOT_SDI_VIRTUAL_NAME, WIMBOOT_BOOT_SDI_CALLBACK_PATH))
    } else {
        c
    }
}

/// Lists the virtual files handed to wimboot.
pub fn wimboot_virtual_files(found: WimbootIncludes) -> (r: Vec<(&'static str, &'static str)>)
    ensures
        r@ == virtual_file_list(found),
{
    let mut files: Vec<(&'static str, &'static str)> = Vec::new();
    files.push((WIMBOOT_BOOT_WIM_VIRTUAL_NAME, WIMBOOT_BOOT_WIM_CALLBACK_PATH));
    files.push((WIMBOOT_SELF_VIRTUAL_NAME, WIMBOOT_SELF_CALLBACK_PATH));
    if found.bootmgfw {
        files.push((WIMBOOT_BOOTMGFW_VIRTUAL_NAME, WIMBOOT_BOOTMGFW_CALLBACK_PATH));
    }
    if found.winpeshl {
        files.push((WIMBOOT_WINPESHL_VIRTUAL_NAME, WIMBOOT_WINPESHL_CALLBACK_PATH));
    }
    if found.bcd {
        files.push((WIMBOOT_BCD_VIRTUAL_NAME, WIMBOOT_BCD_CALLBACK_PATH));
    }
    if found.boot_sdi {
        files.push((WIMBOOT_BOOT_SDI_VIRTUAL_NAME, WIMBOOT_BOOT_SDI_CALLBACK_PATH));
    }
    assert(files@ =~= virtual_file_list(found));
    files
}

} // verus!
