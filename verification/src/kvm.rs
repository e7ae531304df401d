//! The vCPU state that KVM takes, in plain values.
//!
//! Each type has the fields of the `kvm-bindings` structure of the same name, in the same order.
//! The one exception is `KvmXsave`, which leaves out the zero-sized field `extra` that ends
//! `kvm_xsave`.

use vstd::prelude::*;

verus! {

/// `kvm_regs`: the general-purpose registers.
#[derive(Clone, Copy, Debug, PartialEq, Eq)]
pub struct KvmRegs {
    pub rax: u64,
    pub rbx: u64,
    pub rcx: u64,
    pub rdx: u64,
    pub rsi: u64,
    pub rdi: u64,
    pub rsp: u64,
    pub rbp: u64,
    pub r8: u64,
    pub r9: u64,
    pub r10: u64,
    pub r11: u64,
    pub r12: u64,
    pub r13: u64,
    pub r14: u64,
    pub r15: u64,
    pub rip: u64,
    pub rflags: u64,
}

/// `kvm_segment`: one segment register.
#[derive(Clone, Copy, Debug, PartialEq, Eq)]
pub struct KvmSegment {
    pub base: u64,
    pub limit: u32,
    pub selector: u16,
    pub type_: u8,
    pub present: u8,
    pub dpl: u8,
    pub db: u8,
    pub s: u8,
    pub l: u8,
    pub g: u8,
    pub avl: u8,
    pub unusable: u8,
    pub padding: u8,
}

/// `kvm_dtable`: a descriptor table register.
#[derive(Clone, Copy, Debug, PartialEq, Eq)]
pub struct KvmDtable {
    pub base: u64,
    pub limit: u16,
    pub padding: [u16; 3],
}

/// `kvm_sregs`: the segment, descriptor table and control registers.
#[derive(Clone, Copy, Debug, PartialEq, Eq)]
pub struct KvmSregs {
    pub cs: KvmSegment,
    pub ds: KvmSegment,
    pub es: KvmSegment,
    pub fs: KvmSegment,
    pub gs: KvmSegment,
    pub ss: KvmSegment,
    pub tr: KvmSegment,
    pub ldt: KvmSegment,
    pub gdt: KvmDtable,
    pub idt: KvmDtable,
    pub cr0: u64,
    pub cr2: u64,
    pub cr3: u64,
    pub cr4: u64,
    pub cr8: u64,
    pub efer: u64,
    pub apic_base: u64,
    pub interrupt_bitmap: [u64; 4],
}

/// `kvm_msr_entry`: a model-specific register and its value.
#[derive(Clone, Copy, Debug, PartialEq, Eq)]
pub struct KvmMsrEntry {
    pub index: u32,
    pub reserved: u32,
    pub data: u64,
}

/// `kvm_lapic_state`: the register page of the local APIC.
#[derive(Clone, Copy, Debug, PartialEq, Eq)]
pub struct KvmLapicState {
    pub regs: [i8; 1024],
}

/// `kvm_xcr`: an extended control register and its value.
#[derive(Clone, Copy, Debug, PartialEq, Eq)]
pub struct KvmXcr {
    pub xcr: u32,
    pub reserved: u32,
    pub value: u64,
}

/// `kvm_xcrs`: the extended control registers.
#[derive(Clone, Copy, Debug, PartialEq, Eq)]
pub struct KvmXcrs {
    pub nr_xcrs: u32,
    pub flags: u32,
    pub xcrs: [KvmXcr; 16],
    pub padding: [u64; 16],
}

/// `kvm_xsave`: the extended processor state, without the zero-sized `extra`.
#[derive(Clone, Copy, Debug, PartialEq, Eq)]
pub struct KvmXsave {
    pub region: [u32; 1024],
}

/// `kvm_cpuid_entry2`: what CPUID answers for one leaf.
#[derive(Clone, Copy, Debug, PartialEq, Eq)]
pub struct KvmCpuidEntry2 {
    pub function: u32,
    pub index: u32,
    pub flags: u32,
    pub eax: u32,
    pub ebx: u32,
    pub ecx: u32,
    pub edx: u32,
    pub padding: [u32; 3],
}

/// An extended control register slot that nothing has been read into.
pub open spec fn blank_xcr(x: KvmXcr) -> bool {
    x.xcr == 0 && x.reserved == 0 && x.value == 0
}

/// `kvm_sregs::default()` of `kvm-bindings`, the two fields that a vmstate file does not
/// supply: CR8 and the bitmap of pending interrupts. Both are zero throughout.
#[verifier::external_body]
pub(crate) fn default_cr8_and_interrupts() -> (r: (u64, [u64; 4]))
    ensures
        r.0 == 0,
        forall|i: int| 0 <= i < 4 ==> #[trigger] r.1@[i] == 0,
{
    let s = kvm_bindings::kvm_sregs::default();
    (s.cr8, s.interrupt_bitmap)
}

/// `kvm_lapic_state::default()` of `kvm-bindings`: a register page of zero bytes.
#[verifier::external_body]
pub(crate) fn default_lapic() -> (l: KvmLapicState)
    ensures
        forall|i: int| 0 <= i < 1024 ==> #[trigger] l.regs@[i] == 0,
{
    KvmLapicState { regs: kvm_bindings::kvm_lapic_state::default().regs }
}

/// `kvm_xcrs::default()` of `kvm-bindings`: no registers, no flags, every slot blank, and
/// padding of zeros.
#[verifier::external_body]
pub(crate) fn default_xcrs() -> (x: KvmXcrs)
    ensures
        x.nr_xcrs == 0,
        x.flags == 0,
        forall|i: int| 0 <= i < 16 ==> blank_xcr(#[trigger] x.xcrs@[i]),
        forall|i: int| 0 <= i < 16 ==> #[trigger] x.padding@[i] == 0,
{
    let x = kvm_bindings::kvm_xcrs::default();
    KvmXcrs {
        nr_xcrs: x.nr_xcrs,
        flags: x.flags,
        xcrs: x.xcrs.map(|e| KvmXcr { xcr: e.xcr, reserved: e.reserved, value: e.value }),
        padding: x.padding,
    }
}

/// `kvm_xsave::default()` of `kvm-bindings`: a region of zero words.
#[verifier::external_body]
pub(crate) fn default_xsave() -> (x: KvmXsave)
    ensures
        forall|i: int| 0 <= i < 1024 ==> #[trigger] x.region@[i] == 0,
{
    KvmXsave { region: kvm_bindings::kvm_xsave::default().region }
}

} // verus!
