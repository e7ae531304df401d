//! Snapshots on disk, and what a fork is made from.

use crate::kvm::{
    KvmCpuidEntry2, KvmLapicState, KvmMsrEntry, KvmRegs, KvmSregs, KvmXcrs, KvmXsave,
};
use crate::layout::{layout_shift, VmStateError};
use crate::vmstate::{holds_apic_base, parse_vmstate, vmstate_at, ParsedVmState};
use vstd::prelude::*;

verus! {

/// What a fork of a template VM is made from: the vCPU state and the size of its memory.
#[derive(Debug, PartialEq, Eq)]
pub struct VmSnapshot {
    pub regs: KvmRegs,
    pub sregs: KvmSregs,
    pub msrs: Vec<KvmMsrEntry>,
    pub lapic: KvmLapicState,
    pub ioapic_redirtbl: [u64; 24],
    pub xcrs: KvmXcrs,
    pub xsave: KvmXsave,
    pub cpuid_entries: Vec<KvmCpuidEntry2>,
    pub mem_size: usize,
}

impl VmSnapshot {
    /// The snapshot holds the vCPU state `p` and a memory of `mem_size` bytes.
    pub open spec fn holds(self, p: ParsedVmState, mem_size: usize) -> bool {
        &&& self.regs == p.regs
        &&& self.sregs == p.sregs
        &&& self.msrs == p.msrs
        &&& self.lapic == p.lapic
        &&& self.ioapic_redirtbl == p.ioapic_redirtbl
        &&& self.xcrs == p.xcrs
        &&& self.xsave == p.xsave
        &&& self.cpuid_entries == p.cpuid_entries
        &&& self.mem_size == mem_size
    }

    /// Puts the parsed vCPU state and the size of the memory file, in bytes, together.
    pub fn new(parsed: ParsedVmState, mem_size: usize) -> (s: VmSnapshot)
        ensures
            s.holds(parsed, mem_size),
    {
        VmSnapshot {
            regs: parsed.regs,
            sregs: parsed.sregs,
            msrs: parsed.msrs,
            lapic: parsed.lapic,
            ioapic_redirtbl: parsed.ioapic_redirtbl,
            xcrs: parsed.xcrs,
            xsave: parsed.xsave,
            cpuid_entries: parsed.cpuid_entries,
            mem_size,
        }
    }
}

/// `s` holds the vCPU state that the file `d`, displaced by `shift`, holds, and a memory of
/// `mem_size` bytes.
pub open spec fn snapshot_of(d: Seq<u8>, shift: int, mem_size: usize, s: VmSnapshot) -> bool {
    exists|p: ParsedVmState| vmstate_at(d, shift, p) && #[trigger] s.holds(p, mem_size)
}

/// Makes a snapshot out of the contents of its vmstate file and the size of its memory file.
pub fn build_snapshot(state_data: &[u8], mem_size: usize) -> (res: Result<
    VmSnapshot,
    VmStateError,
>)
    requires
        state_data@.len() <= isize::MAX,
        holds_apic_base(state_data@),
    ensures
        match res {
            Ok(s) => layout_shift(state_data@) matches Some(shift) && snapshot_of(
                state_data@,
                shift,
                mem_size,
                s,
            ),
            Err(e) => layout_shift(state_data@) is None && e == VmStateError::LayoutNotFound,
        },
{
    match parse_vmstate(state_data) {
        Ok(parsed) => {
            let ghost p = parsed;
            let s: VmSnapshot = VmSnapshot::new(parsed, mem_size);
            assert(s.holds(p, mem_size));
            assert(snapshot_of(state_data@, layout_shift(state_data@)->0, mem_size, s));
            Ok(s)
        },
        Err(e) => Err(e),
    }
}

/// The files of a snapshot.
#[derive(Debug, PartialEq, Eq)]
pub struct SnapshotPaths {
    pub mem: String,
    pub state: String,
}

/// Where a working directory keeps the files of its snapshot.
pub fn snapshot_paths(workdir: &str) -> (paths: SnapshotPaths)
    ensures
        paths.mem@ == workdir@ + "/snapshot/mem"@,
        paths.state@ == workdir@ + "/snapshot/vmstate"@,
{
    let mut mem: String = workdir.to_owned();
    mem.append("/snapshot/mem");
    let mut state: String = workdir.to_owned();
    state.append("/snapshot/vmstate");
    SnapshotPaths { mem, state }
}

/// A size in whole MiB.
pub fn mebibytes(bytes: usize) -> (mib: usize)
    ensures
        mib == bytes as int / 0x10_0000,
{
    bytes / 1024 / 1024
}

} // verus!
