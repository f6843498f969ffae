//! What the boot manager reads from the firmware's own description of itself.

use vstd::prelude::*;

verus! {

/// The UTF-16 vendor string holds the ASCII text `needle` at `at`.
pub open spec fn ascii_at(vendor: Seq<u16>, needle: Seq<u8>, at: int) -> bool {
    &&& 0 <= at
    &&& at + needle.len() <= vendor.len()
    &&& forall|j: int| 0 <= j < needle.len() ==> #[trigger] vendor[at + j] == needle[j] as u16
}

/// The UTF-16 vendor string holds the ASCII text `needle` somewhere.
pub open spec fn contains_ascii(vendor: Seq<u16>, needle: Seq<u8>) -> bool {
    exists|at: int| ascii_at(vendor, needle, at)
}

/// Whether the firmware vendor string holds the ASCII text `needle`.
pub fn firmware_vendor_contains_ascii(vendor: &[u16], needle: &[u8]) -> (r: bool)
    requires
        needle@.len() > 0,
    ensures
        r == contains_ascii(vendor@, needle@),
{
    let n = needle.len();
    if vendor.len() < n {
        assert forall|at: int| !ascii_at(vendor@, needle@, at) by {}
        return false;
    }
    let mut at: usize = 0;
    while at <= vendor.len() - n
        invariant
            n == needle@.len() > 0,
            n <= vendor@.len() <= usize::MAX,
            at <= vendor@.len() - n + 1,
            forall|a: int| 0 <= a < at ==> !ascii_at(vendor@, needle@, a),
        decreases vendor@.len() - n + 1 - at,
    {
        let mut j: usize = 0;
        let mut same = true;
        while j < n
            invariant
                n == needle@.len(),
                at + n <= vendor@.len() <= usize::MAX,
                j <= n,
                same == forall|k: int| 0 <= k < j ==> vendor@[at + k] == needle@[k] as u16,
            decreases n - j,
        {
            if vendor[at + j] != needle[j] as u16 {
                same = false;
            }
            j += 1;
        }
        if same {
            assert(ascii_at(vendor@, needle@, at as int));
            return true;
        }
        assert(!ascii_at(vendor@, needle@, at as int));
        at += 1;
    }
    assert forall|a: int| !ascii_at(vendor@, needle@, a) by {
        if 0 <= a < at {
        }
    }
    false
}

/// `EDK II`
pub open spec fn edk2_text() -> Seq<u8> {
    seq![0x45u8, 0x44, 0x4b, 0x20, 0x49, 0x49]
}

/// `OVMF`
pub open spec fn ovmf_text() -> Seq<u8> {
    seq![0x4fu8, 0x56, 0x4d, 0x46]
}

/// `QEMU`
pub open spec fn qemu_text() -> Seq<u8> {
    seq![0x51u8, 0x45, 0x4d, 0x55]
}

/// Whether the kernel is given a serial console: it is under the virtual
/// machine firmware, whose vendor string names EDK II, OVMF or QEMU.
pub fn qemu_linux_serial_console_enabled(vendor: &[u16]) -> (r: bool)
    ensures
        r == (contains_ascii(vendor@, edk2_text()) || contains_ascii(vendor@, ovmf_text())
            || contains_ascii(vendor@, qemu_text())),
{
    let edk2: [u8; 6] = [0x45u8, 0x44, 0x4b, 0x20, 0x49, 0x49];
    let ovmf: [u8; 4] = [0x4fu8, 0x56, 0x4d, 0x46];
    let qemu: [u8; 4] = [0x51u8, 0x45, 0x4d, 0x55];
    assert(edk2@ =~= edk2_text());
    assert(ovmf@ =~= ovmf_text());
    assert(qemu@ =~= qemu_text());
    firmware_vendor_contains_ascii(vendor, &edk2) || firmware_vendor_contains_ascii(vendor, &ovmf)
        || firmware_vendor_contains_ascii(vendor, &qemu)
}

} // verus!
