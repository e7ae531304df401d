//! The vCPU state held by a Firecracker vmstate file.

use crate::bytes::{le_at, r16, r32, r64, signed, signed_byte};
use crate::kvm::{
    blank_xcr, default_cr8_and_interrupts, default_lapic, default_xcrs, default_xsave, KvmDtable,
    KvmCpuidEntry2, KvmLapicState, KvmMsrEntry, KvmRegs, KvmSegment, KvmSregs, KvmXcr, KvmXcrs, KvmXsave,
};
use crate::cpuid::{cpuid_entries, parse_cpuid};
use crate::layout::{
    adj, detect_offset_shift, first_anchor, layout_shift, placed, VmStateError, REF_APIC_BASE,
    REF_CR, REF_EFER, REF_GDT, REF_IDT, REF_IOAPIC, REF_LAPIC, REF_REGS, REF_SEGS, REF_XCRS,
    REF_XSAVE,
};
use crate::msrs::{last_records, parse_msrs};
use vstd::prelude::*;

verus! {

/// The vCPU state that a vmstate file holds.
#[derive(Debug, PartialEq, Eq)]
pub struct ParsedVmState {
    pub regs: KvmRegs,
    pub sregs: KvmSregs,
    pub msrs: Vec<KvmMsrEntry>,
    pub lapic: KvmLapicState,
    pub ioapic_redirtbl: [u64; 24],
    pub xcrs: KvmXcrs,
    pub xsave: KvmXsave,
    pub cpuid_entries: Vec<KvmCpuidEntry2>,
}

/// `p` holds what `d` holds, displaced by `shift`: each section at its reference offset less
/// `shift`, and the two tables that lie anywhere, the registers and CPUID.
pub open spec fn vmstate_at(d: Seq<u8>, shift: int, p: ParsedVmState) -> bool {
    &&& regs_at(d, placed(REF_REGS, shift), p.regs)
    &&& sregs_at(d, shift, p.sregs)
    &&& p.msrs@ == last_records(d, 0)
    &&& lapic_at(d, placed(REF_LAPIC, shift), p.lapic)
    &&& redirtbl_at(d, placed(REF_IOAPIC, shift), p.ioapic_redirtbl@)
    &&& xcrs_at(d, placed(REF_XCRS, shift), p.xcrs)
    &&& xsave_at(d, placed(REF_XSAVE, shift), p.xsave)
    &&& cpuid_entries(d, p.cpuid_entries@)
}

/// Where `d` has a layout, the APIC base, which lies right behind EFER, is inside `d` too.
pub open spec fn holds_apic_base(d: Seq<u8>) -> bool {
    layout_shift(d) matches Some(shift) ==> placed(REF_APIC_BASE, shift) + 8 <= d.len()
}

/// Whether a file that has a layout holds the APIC base too.
pub fn has_apic_base(data: &[u8]) -> (b: bool)
    requires
        data@.len() <= isize::MAX,
    ensures
        b == holds_apic_base(data@),
{
    match detect_offset_shift(data) {
        Ok(shift) => {
            proof {
                let c = choose|c: int| first_anchor(data@, c);
                assert(first_anchor(data@, c));
            }
            adj(REF_APIC_BASE, shift) + 8 <= data.len()
        },
        Err(_) => true,
    }
}

/// Reads the vCPU state out of a vmstate file.
///
/// A file without a recognisable layout is refused. One with a layout always holds EFER, by
/// which the layout was recognised, and everything before it; it must not end before the APIC
/// base does.
pub fn parse_vmstate(data: &[u8]) -> (res: Result<ParsedVmState, VmStateError>)
    requires
        data@.len() <= isize::MAX,
        holds_apic_base(data@),
    ensures
        match res {
            Ok(p) => layout_shift(data@) matches Some(shift) && vmstate_at(data@, shift, p),
            Err(e) => layout_shift(data@) is None && e == VmStateError::LayoutNotFound,
        },
{
    let shift: isize = match detect_offset_shift(data) {
        Ok(shift) => shift,
        Err(e) => return Err(e),
    };
    proof {
        let c = choose|c: int| first_anchor(data@, c);
        assert(first_anchor(data@, c));
    }
    Ok(
        ParsedVmState {
            regs: parse_regs(data, adj(REF_REGS, shift)),
            sregs: parse_sregs(data, shift),
            msrs: parse_msrs(data),
            lapic: parse_lapic(data, adj(REF_LAPIC, shift)),
            ioapic_redirtbl: parse_ioapic_redirtbl(data, adj(REF_IOAPIC, shift)),
            xcrs: parse_xcrs(data, adj(REF_XCRS, shift)),
            xsave: parse_xsave(data, adj(REF_XSAVE, shift)),
            cpuid_entries: parse_cpuid(data),
        },
    )
}

/// `r` holds the eighteen 64-bit registers that lie one after the other at `o`.
pub open spec fn regs_at(d: Seq<u8>, o: int, r: KvmRegs) -> bool {
    &&& r.rax == le_at(d, o, 8)
    &&& r.rbx == le_at(d, o + 8, 8)
    &&& r.rcx == le_at(d, o + 16, 8)
    &&& r.rdx == le_at(d, o + 24, 8)
    &&& r.rsi == le_at(d, o + 32, 8)
    &&& r.rdi == le_at(d, o + 40, 8)
    &&& r.rsp == le_at(d, o + 48, 8)
    &&& r.rbp == le_at(d, o + 56, 8)
    &&& r.r8 == le_at(d, o + 64, 8)
    &&& r.r9 == le_at(d, o + 72, 8)
    &&& r.r10 == le_at(d, o + 80, 8)
    &&& r.r11 == le_at(d, o + 88, 8)
    &&& r.r12 == le_at(d, o + 96, 8)
    &&& r.r13 == le_at(d, o + 104, 8)
    &&& r.r14 == le_at(d, o + 112, 8)
    &&& r.r15 == le_at(d, o + 120, 8)
    &&& r.rip == le_at(d, o + 128, 8)
    &&& r.rflags == le_at(d, o + 136, 8)
}

/// Reads the general-purpose registers at `o`.
pub fn parse_regs(d: &[u8], o: usize) -> (r: KvmRegs)
    requires
        o + 144 <= d.len(),
    ensures
        regs_at(d@, o as int, r),
{
    KvmRegs {
        rax: r64(d, o),
        rbx: r64(d, o + 8),
        rcx: r64(d, o + 16),
        rdx: r64(d, o + 24),
        rsi: r64(d, o + 32),
        rdi: r64(d, o + 40),
        rsp: r64(d, o + 48),
        rbp: r64(d, o + 56),
        r8: r64(d, o + 64),
        r9: r64(d, o + 72),
        r10: r64(d, o + 80),
        r11: r64(d, o + 88),
        r12: r64(d, o + 96),
        r13: r64(d, o + 104),
        r14: r64(d, o + 112),
        r15: r64(d, o + 120),
        rip: r64(d, o + 128),
        rflags: r64(d, o + 136),
    }
}

/// `g` holds the 24-byte segment register at `o`.
pub open spec fn seg_at(d: Seq<u8>, o: int, g: KvmSegment) -> bool {
    &&& g.base == le_at(d, o, 8)
    &&& g.limit == le_at(d, o + 8, 4)
    &&& g.selector == le_at(d, o + 12, 2)
    &&& g.type_ == d[o + 14]
    &&& g.present == d[o + 15]
    &&& g.dpl == d[o + 16]
    &&& g.db == d[o + 17]
    &&& g.s == d[o + 18]
    &&& g.l == d[o + 19]
    &&& g.g == d[o + 20]
    &&& g.avl == d[o + 21]
    &&& g.unusable == d[o + 22]
    &&& g.padding == d[o + 23]
}

/// Reads the segment register at `o`.
pub fn parse_seg(d: &[u8], o: usize) -> (g: KvmSegment)
    requires
        o + 24 <= d.len(),
    ensures
        seg_at(d@, o as int, g),
{
    KvmSegment {
        base: r64(d, o),
        limit: r32(d, o + 8),
        selector: r16(d, o + 12),
        type_: d[o + 14],
        present: d[o + 15],
        dpl: d[o + 16],
        db: d[o + 17],
        s: d[o + 18],
        l: d[o + 19],
        g: d[o + 20],
        avl: d[o + 21],
        unusable: d[o + 22],
        padding: d[o + 23],
    }
}

/// `t` holds the descriptor table register at `o`; its padding is zero whatever the file holds.
pub open spec fn dtable_at(d: Seq<u8>, o: int, t: KvmDtable) -> bool {
    &&& t.base == le_at(d, o, 8)
    &&& t.limit == le_at(d, o + 8, 2)
    &&& forall|i: int| 0 <= i < 3 ==> #[trigger] t.padding@[i] == 0
}

/// `s` holds the special registers of a file displaced by `shift`: the eight segment registers
/// in a row, the two descriptor tables, four control registers, EFER and the APIC base. What a
/// file does not supply, CR8 and the pending interrupts, is zero.
pub open spec fn sregs_at(d: Seq<u8>, shift: int, s: KvmSregs) -> bool {
    let segs = placed(REF_SEGS, shift);
    let cr = placed(REF_CR, shift);
    &&& seg_at(d, segs, s.cs)
    &&& seg_at(d, segs + 24, s.ds)
    &&& seg_at(d, segs + 48, s.es)
    &&& seg_at(d, segs + 72, s.fs)
    &&& seg_at(d, segs + 96, s.gs)
    &&& seg_at(d, segs + 120, s.ss)
    &&& seg_at(d, segs + 144, s.tr)
    &&& seg_at(d, segs + 168, s.ldt)
    &&& dtable_at(d, placed(REF_GDT, shift), s.gdt)
    &&& dtable_at(d, placed(REF_IDT, shift), s.idt)
    &&& s.cr0 == le_at(d, cr, 8)
    &&& s.cr2 == le_at(d, cr + 8, 8)
    &&& s.cr3 == le_at(d, cr + 16, 8)
    &&& s.cr4 == le_at(d, cr + 24, 8)
    &&& s.cr8 == 0
    &&& s.efer == le_at(d, placed(REF_EFER, shift), 8)
    &&& s.apic_base == le_at(d, placed(REF_APIC_BASE, shift), 8)
    &&& forall|i: int| 0 <= i < 4 ==> #[trigger] s.interrupt_bitmap@[i] == 0
}

/// Reads the descriptor table register at `o`.
fn parse_dtable(d: &[u8], o: usize) -> (t: KvmDtable)
    requires
        o + 10 <= d.len(),
    ensures
        dtable_at(d@, o as int, t),
{
    KvmDtable { base: r64(d, o), limit: r16(d, o + 8), padding: [0u16; 3] }
}

/// Reads the special registers of a file displaced by `shift`.
pub fn parse_sregs(d: &[u8], shift: isize) -> (s: KvmSregs)
    requires
        0 <= placed(REF_SEGS, shift as int),
        placed(REF_APIC_BASE, shift as int) + 8 <= d.len(),
    ensures
        sregs_at(d@, shift as int, s),
{
    let segs: usize = adj(REF_SEGS, shift);
    let gdt: usize = adj(REF_GDT, shift);
    let idt: usize = adj(REF_IDT, shift);
    let cr: usize = adj(REF_CR, shift);
    let efer: usize = adj(REF_EFER, shift);
    let apic_base: usize = adj(REF_APIC_BASE, shift);
    let rest: (u64, [u64; 4]) = default_cr8_and_interrupts();
    KvmSregs {
        cs: parse_seg(d, segs),
        ds: parse_seg(d, segs + 24),
        es: parse_seg(d, segs + 48),
        fs: parse_seg(d, segs + 72),
        gs: parse_seg(d, segs + 96),
        ss: parse_seg(d, segs + 120),
        tr: parse_seg(d, segs + 144),
        ldt: parse_seg(d, segs + 168),
        gdt: parse_dtable(d, gdt),
        idt: parse_dtable(d, idt),
        cr0: r64(d, cr),
        cr2: r64(d, cr + 8),
        cr3: r64(d, cr + 16),
        cr4: r64(d, cr + 24),
        cr8: rest.0,
        efer: r64(d, efer),
        apic_base: r64(d, apic_base),
        interrupt_bitmap: rest.1,
    }
}

/// `l` holds the 1024 bytes at `o` as signed numbers.
pub open spec fn lapic_at(d: Seq<u8>, o: int, l: KvmLapicState) -> bool {
    forall|i: int| 0 <= i < 1024 ==> #[trigger] l.regs@[i] == signed_byte(d[o + i])
}

/// Reads the local APIC's register page at `o`.
pub fn parse_lapic(d: &[u8], o: usize) -> (l: KvmLapicState)
    requires
        o + 1024 <= d.len(),
    ensures
        lapic_at(d@, o as int, l),
{
    let mut l: KvmLapicState = default_lapic();
    let mut i: usize = 0;
    while i < 1024
        invariant
            i <= 1024,
            o + 1024 <= d.len(),
            forall|k: int| 0 <= k < i ==> #[trigger] l.regs@[k] == signed_byte(d@[o + k]),
        decreases 1024 - i,
    {
        l.regs[i] = signed(d[o + i]);
        i = i + 1;
    }
    l
}

/// The redirection table of the I/O APIC section at `o`: twenty-four 64-bit entries behind a
/// 24-byte header (base address, register select, id, interrupt requests, padding). All zero
/// where the file ends before the table does.
pub open spec fn redirtbl_at(d: Seq<u8>, o: int, tbl: Seq<u64>) -> bool {
    &&& tbl.len() == 24
    &&& forall|i: int|
        0 <= i < 24 ==> #[trigger] tbl[i] == if o + 24 + 24 * 8 <= d.len() {
            le_at(d, o + 24 + 8 * i, 8)
        } else {
            0
        }
}

/// Reads the redirection table of the I/O APIC section at `ioapic_off`.
pub fn parse_ioapic_redirtbl(d: &[u8], ioapic_off: usize) -> (tbl: [u64; 24])
    ensures
        redirtbl_at(d@, ioapic_off as int, tbl@),
{
    let mut tbl: [u64; 24] = [0u64; 24];
    if ioapic_off <= d.len() && d.len() - ioapic_off >= 24 + 24 * 8 {
        let redir_off: usize = ioapic_off + 24;
        let mut i: usize = 0;
        while i < 24
            invariant
                i <= 24,
                redir_off == ioapic_off + 24,
                redir_off + 24 * 8 <= d.len(),
                forall|k: int|
                    0 <= k < i ==> #[trigger] tbl@[k] == le_at(d@, ioapic_off + 24 + 8 * k, 8),
            decreases 24 - i,
        {
            tbl[i] = r64(d, redir_off + i * 8);
            i = i + 1;
        }
    }
    tbl
}

/// `x` holds the 16-byte extended control register at `o`.
pub open spec fn xcr_at(d: Seq<u8>, o: int, x: KvmXcr) -> bool {
    &&& x.xcr == le_at(d, o, 4)
    &&& x.reserved == le_at(d, o + 4, 4)
    &&& x.value == le_at(d, o + 8, 8)
}

/// `x` holds the extended control registers at `o`: a count, flags, then the registers. With
/// fewer than 24 bytes left everything is zero. A count outside 1 to 16 is kept, but no register
/// is read; of a register list that the file cuts off, the whole registers are read. Slots that
/// nothing was read into are blank.
pub open spec fn xcrs_at(d: Seq<u8>, o: int, x: KvmXcrs) -> bool {
    let present = o + 24 <= d.len();
    let nr = le_at(d, o, 4);
    &&& x.nr_xcrs == if present { nr } else { 0 }
    &&& x.flags == if present { le_at(d, o + 4, 4) } else { 0 }
    &&& forall|i: int|
        0 <= i < 16 ==> if present && i < nr <= 16 && o + 8 + 16 * i + 16 <= d.len() {
            xcr_at(d, o + 8 + 16 * i, #[trigger] x.xcrs@[i])
        } else {
            blank_xcr(x.xcrs@[i])
        }
    &&& forall|i: int| 0 <= i < 16 ==> #[trigger] x.padding@[i] == 0
}

/// Reads the extended control registers at `o`.
pub fn parse_xcrs(d: &[u8], o: usize) -> (xcrs: KvmXcrs)
    ensures
        xcrs_at(d@, o as int, xcrs),
{
    let mut xcrs: KvmXcrs = default_xcrs();
    if o <= d.len() && d.len() - o >= 24 {
        xcrs.nr_xcrs = r32(d, o);
        xcrs.flags = r32(d, o + 4);
        if xcrs.nr_xcrs >= 1 && xcrs.nr_xcrs <= 16 {
            let nr: usize = xcrs.nr_xcrs as usize;
            let mut i: usize = 0;
            while i < nr
                invariant
                    i <= nr <= 16,
                    o + 24 <= d.len(),
                    nr == xcrs.nr_xcrs,
                    nr == le_at(d@, o as int, 4),
                    xcrs.flags == le_at(d@, o + 4, 4),
                    forall|k: int|
                        0 <= k < 16 ==> if k < i && o + 8 + 16 * k + 16 <= d@.len() {
                            xcr_at(d@, o + 8 + 16 * k, #[trigger] xcrs.xcrs@[k])
                        } else {
                            blank_xcr(xcrs.xcrs@[k])
                        },
                    forall|k: int| 0 <= k < 16 ==> #[trigger] xcrs.padding@[k] == 0,
                decreases nr - i,
            {
                if d.len() - o >= 8 + i * 16 + 16 {
                    let eo: usize = o + 8 + i * 16;
                    xcrs.xcrs[i] = KvmXcr {
                        xcr: r32(d, eo),
                        reserved: r32(d, eo + 4),
                        value: r64(d, eo + 8),
                    };
                }
                i = i + 1;
            }
        }
    }
    xcrs
}

/// `x` holds the 4096 bytes at `o` as 32-bit words. Words that the file does not hold whole are
/// zero.
pub open spec fn xsave_at(d: Seq<u8>, o: int, x: KvmXsave) -> bool {
    forall|i: int|
        0 <= i < 1024 ==> #[trigger] x.region@[i] == if o + 4 * i + 4 <= d.len() {
            le_at(d, o + 4 * i, 4)
        } else {
            0
        }
}

/// Reads the extended processor state at `o`.
pub fn parse_xsave(d: &[u8], o: usize) -> (xsave: KvmXsave)
    ensures
        xsave_at(d@, o as int, xsave),
{
    let mut xsave: KvmXsave = default_xsave();
    let left: usize = if o <= d.len() {
        d.len() - o
    } else {
        0
    };
    let size: usize = if left < 4096 {
        left
    } else {
        4096
    };
    let words: usize = size / 4;
    let mut i: usize = 0;
    while i < words
        invariant
            i <= words <= 1024,
            words > 0 ==> o + 4 * words <= d.len(),
            forall|k: int| 0 <= k < i ==> #[trigger] xsave.region@[k] == le_at(d@, o + 4 * k, 4),
            forall|k: int| i <= k < 1024 ==> #[trigger] xsave.region@[k] == 0,
        decreases words - i,
    {
        xsave.region[i] = r32(d, o + i * 4);
        i = i + 1;
    }
    xsave
}

} // verus!
