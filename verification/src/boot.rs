//! Starting a chosen image: the choices, records and layouts computed on the
//! way.

pub mod util;
pub mod candidates;
pub mod load_file;
pub mod linux;
pub mod vhd;
pub mod chain_load;
pub mod vdi_parent;
pub mod vhdx_backing;
pub mod virtual_device;
pub mod wimboot;
pub mod os_param;
pub mod image_backing;
pub mod source_volume;
pub mod wimboot_runtime;

use vstd::prelude::*;

verus! {

/// Why a boot step failed, as the firmware status it is reported with.
#[derive(Debug, Clone, Copy, PartialEq, Eq, Structural)]
pub enum BootError {
    InvalidParameter,
    Unsupported,
    OutOfResources,
    LoadError,
    DeviceError,
}

/// How an image is started.
#[derive(Debug, Clone, Copy, PartialEq, Eq, Structural)]
pub enum BootMode {
    /// The kernel is started directly.
    DirectKernel,
    /// An EFI loader is chain-loaded.
    ChainLoad,
    /// The image is exposed as a virtual device.
    VirtualDevice,
    /// The image is loaded into memory.
    MemDisk,
}

impl Default for BootMode {
    fn default() -> (r: Self)
        ensures
            r == BootMode::VirtualDevice,
    {
        BootMode::VirtualDevice
    }
}

/// Options for starting an image.
#[derive(Debug, Clone)]
pub struct BootOptions {
    pub mode: BootMode,
    /// Kernel command line.
    pub kernel_args: String,
    pub debug: bool,
    /// Timeout in seconds.
    pub timeout: Option<u64>,
}

impl Default for BootOptions {
    fn default() -> (r: Self)
        ensures
            r.mode == BootMode::VirtualDevice,
            r.kernel_args@ == Seq::<char>::empty(),
            !r.debug,
            r.timeout is None,
    {
        BootOptions { mode: BootMode::default(), kernel_args: String::new(), debug: false, timeout: None }
    }
}

/// One region of the firmware's memory map.
#[derive(Debug, Clone, Copy, PartialEq, Eq, Structural)]
pub struct MemoryMapInfo {
    pub start: u64,
    pub size: u64,
    pub memory_type: u32,
}

} // verus!
