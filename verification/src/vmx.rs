//! Hardware virtualization detection: reading Intel VT-x and AMD-V support
//! and the CPU vendor out of CPUID register values, choosing a hypervisor
//! backend, and the capability summary shown by the shell and boot log.
//! Executing CPUID and reading MSRs is the platform's job.

use vstd::prelude::*;
use crate::text::{owned, push_hex, push_str, hex};

verus! {

/// Which virtualization backend the hypervisor uses.
#[derive(Clone, Copy, PartialEq, Eq, Debug, Structural)]
pub enum Backend {
    /// Intel VT-x (VMX).
    HardwareVtx,
    /// AMD-V (SVM).
    HardwareSvm,
    /// The software VMM (always available).
    Software,
}

impl Backend {
    /// The backend's description.
    pub fn name(self) -> (s: &'static str)
        ensures
            self == Backend::HardwareVtx ==> s == "hardware VT-x (VMX)",
            self == Backend::HardwareSvm ==> s == "hardware AMD-V (SVM)",
            self == Backend::Software ==> s == "software VMM (virtual CPU)",
    {
        match self {
            Backend::HardwareVtx => "hardware VT-x (VMX)",
            Backend::HardwareSvm => "hardware AMD-V (SVM)",
            Backend::Software => "software VMM (virtual CPU)",
        }
    }
}

/// VT-x: bit 5 of ECX from CPUID leaf 1.
pub fn has_vtx(ecx1: u32) -> (b: bool)
    ensures
        b == ((ecx1 >> 5u32) & 1 == 1),
{
    (ecx1 >> 5) & 1 == 1
}

/// AMD-V: bit 2 of ECX from CPUID leaf 0x80000001, when the largest
/// extended leaf (EAX of leaf 0x80000000) reaches it.
pub fn has_svm(max_ext: u32, ecx: u32) -> (b: bool)
    ensures
        b == (max_ext >= 0x8000_0001 && (ecx >> 2u32) & 1 == 1),
{
    if max_ext < 0x8000_0001 {
        return false;
    }
    (ecx >> 2) & 1 == 1
}

/// The four little-endian bytes of `v`.
pub open spec fn le_bytes32(v: u32) -> Seq<u8> {
    seq![(v % 256) as u8, ((v / 256) % 256) as u8, ((v / 65536) % 256) as u8, (v / 16777216) as u8]
}

/// The vendor string bytes: EBX, EDX, ECX of CPUID leaf 0, little-endian.
pub fn vendor(ebx: u32, edx: u32, ecx: u32) -> (v: [u8; 12])
    ensures
        v@ == le_bytes32(ebx) + le_bytes32(edx) + le_bytes32(ecx),
{
    let v: [u8; 12] = [
        (ebx % 256) as u8, ((ebx / 256) % 256) as u8, ((ebx / 65536) % 256) as u8, (ebx / 16777216) as u8,
        (edx % 256) as u8, ((edx / 256) % 256) as u8, ((edx / 65536) % 256) as u8, (edx / 16777216) as u8,
        (ecx % 256) as u8, ((ecx / 256) % 256) as u8, ((ecx / 65536) % 256) as u8, (ecx / 16777216) as u8,
    ];
    assert(v@ =~= le_bytes32(ebx) + le_bytes32(edx) + le_bytes32(ecx));
    v
}

/// The best available backend: VT-x, else AMD-V, else software.
pub fn backend(vtx: bool, svm: bool) -> (b: Backend)
    ensures
        b == (if vtx { Backend::HardwareVtx } else if svm { Backend::HardwareSvm } else { Backend::Software }),
{
    if vtx {
        Backend::HardwareVtx
    } else if svm {
        Backend::HardwareSvm
    } else {
        Backend::Software
    }
}

/// "ya" or "tidak".
pub open spec fn yes_no(b: bool) -> Seq<char> {
    if b { "ya"@ } else { "tidak"@ }
}

/// The capability summary: vendor, VT-x, AMD-V, the executing backend
/// (always the software VMM), the VMX revision (the low 31 bits of
/// IA32_VMX_BASIC, only with VT-x), and a note.
pub fn summary(vendor_text: &str, vtx: bool, svm: bool, vmx_basic: u64) -> (out: Vec<String>)
    ensures
        out@.len() == (if vtx { 6int } else { 5int }),
        out@[0]@ == "CPU vendor    : "@ + vendor_text@,
        out@[1]@ == "Intel VT-x    : "@ + yes_no(vtx),
        out@[2]@ == "AMD-V (SVM)   : "@ + yes_no(svm),
        out@[3]@ == "Eksekusi      : "@ + "software VMM (virtual CPU)"@,
        vtx ==> out@[4]@ == "VMX revision  : 0x"@ + hex((vmx_basic % 0x8000_0000) as nat) + " (IA32_VMX_BASIC)"@,
        out@[out@.len() - 1]@ == (if vtx || svm {
            "catatan       : ekstensi HW terdeteksi; driver native VMX/SVM = backlog"@
        } else {
            "catatan       : ekstensi HW tak tersedia; VMM software (portabel) dipakai"@
        }),
{
    let mut out: Vec<String> = Vec::new();
    let mut l0 = owned("CPU vendor    : ");
    push_str(&mut l0, vendor_text);
    out.push(l0);
    let mut l1 = owned("Intel VT-x    : ");
    push_str(&mut l1, if vtx { "ya" } else { "tidak" });
    out.push(l1);
    let mut l2 = owned("AMD-V (SVM)   : ");
    push_str(&mut l2, if svm { "ya" } else { "tidak" });
    out.push(l2);
    let mut l3 = owned("Eksekusi      : ");
    push_str(&mut l3, Backend::Software.name());
    out.push(l3);
    if vtx {
        let mut l4 = owned("VMX revision  : 0x");
        push_hex(&mut l4, vmx_basic & 0x7fff_ffff);
        assert(vmx_basic & 0x7fff_ffff == vmx_basic % 0x8000_0000) by (bit_vector);
        push_str(&mut l4, " (IA32_VMX_BASIC)");
        out.push(l4);
    }
    out.push(owned(if vtx || svm {
        "catatan       : ekstensi HW terdeteksi; driver native VMX/SVM = backlog"
    } else {
        "catatan       : ekstensi HW tak tersedia; VMM software (portabel) dipakai"
    }));
    out
}

} // verus!
