//! The state that is read out of a vmstate file, and the snapshot made from it, are the parts
//! that the file holds, each in its place.

use crate::cpuid::parse_cpuid;
use crate::encoding::{regs_bytes, written_at};
use crate::file_laws::{first_guest_at, guest_at, lemma_guest_is_layout, lemma_regs_stand};
use crate::kvm::{
    KvmCpuidEntry2, KvmLapicState, KvmMsrEntry, KvmRegs, KvmSregs, KvmXcrs, KvmXsave,
};
use crate::laws::{law_layout_holds_efer, law_state_is_determined};
use crate::layout::{detect_offset_shift, layout_shift, VmStateError};
use crate::msrs::parse_msrs;
use crate::snapshot::{
    build_snapshot, mebibytes, snapshot_paths, SnapshotPaths, VmSnapshot,
};
use crate::vmstate::{
    has_apic_base, parse_ioapic_redirtbl, parse_lapic, parse_regs, parse_sregs,
    parse_vmstate, parse_xcrs, parse_xsave, vmstate_at, ParsedVmState,
};
use vstd::prelude::*;

verus! {

/// The state of a recognised file is what stands at its sections' offsets less the displacement,
/// together with its two tables.
pub proof fn law_state_is_its_parts(
    data: &[u8],
    shift: isize,
    regs: KvmRegs,
    sregs: KvmSregs,
    msrs: Vec<KvmMsrEntry>,
    lapic: KvmLapicState,
    tbl: [u64; 24],
    xcrs: KvmXcrs,
    xsave: KvmXsave,
    cpuid: Vec<KvmCpuidEntry2>,
    res: Result<ParsedVmState, VmStateError>,
)
    requires
        data@.len() <= isize::MAX,
        call_ensures(detect_offset_shift, (data,), Ok::<isize, VmStateError>(shift)),
        call_ensures(parse_regs, (data, (0x2955 - shift) as usize), regs),
        call_ensures(parse_sregs, (data, shift), sregs),
        call_ensures(parse_msrs, (data,), msrs),
        call_ensures(parse_lapic, (data, (0x2541 - shift) as usize), lapic),
        call_ensures(parse_ioapic_redirtbl, (data, (0x591 - shift) as usize), tbl),
        call_ensures(parse_xcrs, (data, (0x2B75 - shift) as usize), xcrs),
        call_ensures(parse_xsave, (data, (0x2D0D - shift) as usize), xsave),
        call_ensures(parse_cpuid, (data,), cpuid),
        call_ensures(parse_vmstate, (data,), res),
    ensures
        res matches Ok(p) && {
            &&& p.regs == regs
            &&& p.sregs == sregs
            &&& p.msrs@ == msrs@
            &&& p.lapic == lapic
            &&& p.ioapic_redirtbl == tbl
            &&& p.xcrs == xcrs
            &&& p.xsave == xsave
            &&& p.cpuid_entries@ == cpuid@
        },
{
    law_layout_holds_efer(data@, shift as int);
    let q = ParsedVmState {
        regs,
        sregs,
        msrs,
        lapic,
        ioapic_redirtbl: tbl,
        xcrs,
        xsave,
        cpuid_entries: cpuid,
    };
    assert(vmstate_at(data@, shift as int, q));
    match res {
        Ok(p) => law_state_is_determined(data@, shift as int, p, q),
        Err(_) => {},
    }
}

/// The general-purpose registers of a recognised file are the ones whose bytes stand 0x23C4
/// behind its base address.
pub proof fn law_registers_of_file_read_back(
    data: &[u8],
    c: int,
    r: KvmRegs,
    res: Result<ParsedVmState, VmStateError>,
)
    requires
        data@.len() <= isize::MAX,
        first_guest_at(data@, c),
        written_at(data@, c + 0x23C4, regs_bytes(r)),
        call_ensures(parse_vmstate, (data,), res),
    ensures
        res matches Ok(p) && p.regs == r,
{
    lemma_guest_is_layout(data@);
    match res {
        Ok(p) => lemma_regs_stand(data@, c + 0x23C4, r, p.regs),
        Err(_) => {},
    }
}

/// A file is refused exactly where its displacement cannot be found.
pub proof fn law_only_unrecognised_files_are_refused(
    data: &[u8],
    res: Result<ParsedVmState, VmStateError>,
)
    requires
        call_ensures(parse_vmstate, (data,), res),
    ensures
        match res {
            Ok(_) => exists|c: int| #[trigger] first_guest_at(data@, c),
            Err(e) => e == VmStateError::LayoutNotFound && forall|i: int|
                !#[trigger] guest_at(data@, i),
        },
{
    lemma_guest_is_layout(data@);
    match res {
        Ok(_) => {
            assert(first_guest_at(data@, 0x591 - layout_shift(data@)->0));
        },
        Err(_) => {},
    }
}

/// Whether a file reaches to the end of the APIC base, 0x2574 bytes from its base address, is told
/// for every file, and a file that does is read, as is one that is not recognised at all.
pub proof fn law_apic_base_decides(data: &[u8], b: bool)
    requires
        data@.len() <= isize::MAX,
        call_ensures(has_apic_base, (data,), b),
    ensures
        b <==> forall|c: int| #[trigger] first_guest_at(data@, c) ==> c + 0x2574 <= data@.len(),
        call_requires(has_apic_base, (data,)),
        b ==> call_requires(parse_vmstate, (data,)),
        b ==> forall|mem_size: usize| call_requires(build_snapshot, (data, mem_size)),
{
    lemma_guest_is_layout(data@);
    if layout_shift(data@) is Some {
        assert(first_guest_at(data@, 0x591 - layout_shift(data@)->0));
    }
}

/// A snapshot hands on every part of the state, and the size of the memory.
pub proof fn law_snapshot_keeps_state(parsed: ParsedVmState, mem_size: usize, s: VmSnapshot)
    requires
        call_ensures(VmSnapshot::new, (parsed, mem_size), s),
    ensures
        s.regs == parsed.regs,
        s.sregs == parsed.sregs,
        s.msrs == parsed.msrs,
        s.lapic == parsed.lapic,
        s.ioapic_redirtbl == parsed.ioapic_redirtbl,
        s.xcrs == parsed.xcrs,
        s.xsave == parsed.xsave,
        s.cpuid_entries == parsed.cpuid_entries,
        s.mem_size == mem_size,
        call_requires(VmSnapshot::new, (parsed, mem_size)),
{
}

/// The snapshot made from a file holds the state that is read out of the file, and the two are
/// refused alike.
pub proof fn law_snapshot_holds_file_state(
    data: &[u8],
    mem_size: usize,
    parsed: Result<ParsedVmState, VmStateError>,
    res: Result<VmSnapshot, VmStateError>,
)
    requires
        call_ensures(parse_vmstate, (data,), parsed),
        call_ensures(build_snapshot, (data, mem_size), res),
    ensures
        match res {
            Ok(s) => parsed matches Ok(p) && {
                &&& s.regs == p.regs
                &&& s.sregs == p.sregs
                &&& s.msrs@ == p.msrs@
                &&& s.lapic == p.lapic
                &&& s.ioapic_redirtbl == p.ioapic_redirtbl
                &&& s.xcrs == p.xcrs
                &&& s.xsave == p.xsave
                &&& s.cpuid_entries@ == p.cpuid_entries@
                &&& s.mem_size == mem_size
            },
            Err(e) => parsed == Err::<ParsedVmState, VmStateError>(e),
        },
{
    if let Ok(s) = res {
        let shift = layout_shift(data@)->0;
        let q = choose|q: ParsedVmState|
            vmstate_at(data@, shift, q) && #[trigger] s.holds(q, mem_size);
        if let Ok(p) = parsed {
            law_state_is_determined(data@, shift, p, q);
        }
    }
}

/// The files of a snapshot lie in the directory `snapshot` of the working directory.
pub proof fn law_snapshot_files_lie_in_workdir(workdir: &str, paths: SnapshotPaths)
    requires
        call_ensures(snapshot_paths, (workdir,), paths),
    ensures
        paths.mem@ == workdir@ + seq![
            '/', 's', 'n', 'a', 'p', 's', 'h', 'o', 't', '/', 'm', 'e', 'm',
        ],
        paths.state@ == workdir@ + seq![
            '/', 's', 'n', 'a', 'p', 's', 'h', 'o', 't', '/', 'v', 'm', 's', 't', 'a', 't', 'e',
        ],
        call_requires(snapshot_paths, (workdir,)),
{
    reveal_strlit("/snapshot/mem");
    reveal_strlit("/snapshot/vmstate");
    assert(paths.mem@ =~= workdir@ + seq![
        '/', 's', 'n', 'a', 'p', 's', 'h', 'o', 't', '/', 'm', 'e', 'm',
    ]);
    assert(paths.state@ =~= workdir@ + seq![
        '/', 's', 'n', 'a', 'p', 's', 'h', 'o', 't', '/', 'v', 'm', 's', 't', 'a', 't', 'e',
    ]);
}

/// A size in MiB is rounded down: that many MiB fit in it, and one more does not.
pub proof fn law_mebibytes_round_down(bytes: usize, mib: usize)
    requires
        call_ensures(mebibytes, (bytes,), mib),
    ensures
        mib * 1048576 <= bytes < (mib + 1) * 1048576,
        call_requires(mebibytes, (bytes,)),
{
}

} // verus!
