//! What holds of the parser as a whole.

use crate::bytes::{le_at, lemma_le_at_bound, lemma_le_at_same_bytes, signed_byte};
use crate::cpuid::{
    cpuid_entries, cpuid_entry_at, entry_header_at, first_table, leaf_zero_at, table_at,
    table_count, table_entries, vendor_at, ENTRY_SIZE,
};
use crate::kvm::{KvmCpuidEntry2, KvmMsrEntry, KvmRegs, KvmSegment, KvmSregs, KvmXcrs, KvmXsave};
use crate::layout::{
    anchor_at, first_anchor, layout_shift, lemma_first_anchor_is_shift, placed, plausible_efer,
    REF_APIC_BASE, REF_CR, REF_EFER, REF_GDT, REF_IDT, REF_IOAPIC, REF_LAPIC, REF_REGS, REF_SEGS,
    REF_XCRS, REF_XSAVE,
};
use crate::msrs::{
    last_record_at, last_records, msr_entry, msr_record_at, wanted,
};
use crate::vmstate::{
    holds_apic_base, lapic_at, redirtbl_at, regs_at, seg_at, sregs_at, vmstate_at,
    xcr_at, xcrs_at, xsave_at, ParsedVmState,
};
use vstd::prelude::*;

verus! {

/// A file with a layout holds every section up to and including EFER whole, and the EFER in it
/// is plausible. In particular a file of fewer than 9580 bytes has no layout.
pub proof fn law_layout_holds_efer(d: Seq<u8>, shift: int)
    requires
        layout_shift(d) == Some(shift),
    ensures
        0 <= placed(REF_IOAPIC, shift),
        placed(REF_EFER, shift) + 8 <= d.len(),
        plausible_efer(le_at(d, placed(REF_EFER, shift), 8)),
        9580 <= d.len(),
{
    let c = choose|c: int| first_anchor(d, c);
    assert(first_anchor(d, c));
}

/// A file with an anchor anywhere has a layout, fixed by an anchor no later than that one.
pub proof fn law_anchor_gives_layout(d: Seq<u8>, i: int)
    requires
        anchor_at(d, i),
    ensures
        layout_shift(d) matches Some(shift) && REF_IOAPIC - i <= shift,
    decreases i,
{
    if forall|j: int| 0 <= j < i ==> !#[trigger] anchor_at(d, j) {
        lemma_first_anchor_is_shift(d, i);
    } else {
        let j = choose|j: int| 0 <= j < i && #[trigger] anchor_at(d, j);
        law_anchor_gives_layout(d, j);
    }
}

/// The EFER that is handed to the vCPU enables 64-bit mode: it is one of the two values by which
/// the layout was recognised.
pub proof fn law_parsed_efer_is_plausible(d: Seq<u8>, shift: int, p: ParsedVmState)
    requires
        layout_shift(d) == Some(shift),
        vmstate_at(d, shift, p),
    ensures
        p.sregs.efer == 0xD01 || p.sregs.efer == 0x501,
{
    law_layout_holds_efer(d, shift);
}

/// A file with a layout holds the whole I/O APIC redirection table, so every entry is read.
pub proof fn law_redirection_table_is_read(d: Seq<u8>, shift: int, p: ParsedVmState, i: int)
    requires
        layout_shift(d) == Some(shift),
        vmstate_at(d, shift, p),
        0 <= i < 24,
    ensures
        p.ioapic_redirtbl@[i] == le_at(d, placed(REF_IOAPIC, shift) + 24 + 8 * i, 8),
{
    law_layout_holds_efer(d, shift);
}

/// What a file holds fixes the parsed state: no two states fit one file.
pub proof fn law_state_is_determined(
    d: Seq<u8>,
    shift: int,
    p: ParsedVmState,
    q: ParsedVmState,
)
    requires
        vmstate_at(d, shift, p),
        vmstate_at(d, shift, q),
    ensures
        p.regs == q.regs,
        p.sregs == q.sregs,
        p.msrs@ == q.msrs@,
        p.lapic == q.lapic,
        p.ioapic_redirtbl == q.ioapic_redirtbl,
        p.xcrs == q.xcrs,
        p.xsave == q.xsave,
        p.cpuid_entries@ == q.cpuid_entries@,
{
    assert(p.sregs.gdt.padding =~= q.sregs.gdt.padding);
    assert(p.sregs.idt.padding =~= q.sregs.idt.padding);
    assert(p.sregs.interrupt_bitmap =~= q.sregs.interrupt_bitmap);
    assert(p.lapic.regs =~= q.lapic.regs);
    assert(p.ioapic_redirtbl =~= q.ioapic_redirtbl) by {
        assert forall|i: int| 0 <= i < 24 implies p.ioapic_redirtbl[i] == q.ioapic_redirtbl[i] by {
            assert(p.ioapic_redirtbl@[i] == q.ioapic_redirtbl@[i]);
        }
    }
    assert(p.xcrs.xcrs =~= q.xcrs.xcrs);
    assert(p.xcrs.padding =~= q.xcrs.padding);
    assert(p.xsave.region =~= q.xsave.region);
    lemma_cpuid_entries_determined(d, p.cpuid_entries@, q.cpuid_entries@);
}

proof fn lemma_cpuid_entries_determined(
    d: Seq<u8>,
    a: Seq<KvmCpuidEntry2>,
    b: Seq<KvmCpuidEntry2>,
)
    requires
        cpuid_entries(d, a),
        cpuid_entries(d, b),
    ensures
        a == b,
{
    if exists|i: int| table_at(d, i) {
        let i = choose|i: int| first_table(d, i) && #[trigger] table_entries(d, i, a);
        let j = choose|j: int| first_table(d, j) && #[trigger] table_entries(d, j, b);
        assert(i == j) by {
            if i < j {
                assert(!table_at(d, i));
            }
            if j < i {
                assert(!table_at(d, j));
            }
        }
        assert forall|k: int| 0 <= k < a.len() implies a[k] == b[k] by {
            assert(cpuid_entry_at(d, i + ENTRY_SIZE * k, a[k]));
            assert(cpuid_entry_at(d, i + ENTRY_SIZE * k, b[k]));
            assert(a[k].padding =~= b[k].padding);
        }
        assert(a =~= b);
    } else {
        assert(a =~= b);
    }
}

/// The bytes of `d` stand in `e`, moved back by `by`.
spec fn stands_in(d: Seq<u8>, e: Seq<u8>, by: int) -> bool {
    &&& 0 <= by
    &&& d.len() + by <= e.len()
    &&& forall|k: int| 0 <= k < d.len() ==> #[trigger] d[k] == e[k + by]
}

/// A number read inside `d` is read the same in `e`.
proof fn lemma_same_number(d: Seq<u8>, e: Seq<u8>, by: int, o: int, n: nat)
    requires
        stands_in(d, e, by),
        0 <= o,
        o + n <= d.len(),
    ensures
        le_at(d, o, n) == le_at(e, o + by, n),
{
    assert forall|k: int| 0 <= k < n implies #[trigger] d[o + k] == e[(o + by) + k] by {
        assert(d[o + k] == e[(o + k) + by]);
    }
    lemma_le_at_same_bytes(d, o, e, o + by, n);
}

/// The sections that every file with a layout holds whole are read the same in `e`.
proof fn lemma_same_sections(d: Seq<u8>, e: Seq<u8>, by: int, shift: int, p: ParsedVmState)
    requires
        stands_in(d, e, by),
        layout_shift(d) == Some(shift),
        holds_apic_base(d),
        vmstate_at(d, shift, p),
    ensures
        regs_at(e, placed(REF_REGS, shift - by), p.regs),
        sregs_at(e, shift - by, p.sregs),
        lapic_at(e, placed(REF_LAPIC, shift - by), p.lapic),
        redirtbl_at(e, placed(REF_IOAPIC, shift - by), p.ioapic_redirtbl@),
{
    law_layout_holds_efer(d, shift);
    lemma_same_regs(d, e, by, placed(REF_REGS, shift), p.regs);
    lemma_same_sregs(d, e, by, shift, p.sregs);
    let lapic = placed(REF_LAPIC, shift);
    assert forall|i: int| 0 <= i < 1024 implies #[trigger] p.lapic.regs@[i] == signed_byte(
        e[(lapic + by) + i],
    ) by {
        assert(d[lapic + i] == e[(lapic + i) + by]);
    }
    let ioapic = placed(REF_IOAPIC, shift);
    assert forall|i: int| 0 <= i < 24 implies #[trigger] p.ioapic_redirtbl@[i] == le_at(
        e,
        (ioapic + by) + 24 + 8 * i,
        8,
    ) by {
        lemma_same_number(d, e, by, ioapic + 24 + 8 * i, 8);
    }
}

proof fn lemma_same_regs(d: Seq<u8>, e: Seq<u8>, by: int, o: int, r: KvmRegs)
    requires
        stands_in(d, e, by),
        0 <= o,
        o + 144 <= d.len(),
        regs_at(d, o, r),
    ensures
        regs_at(e, o + by, r),
{
    lemma_same_number(d, e, by, o, 8);
    lemma_same_number(d, e, by, o + 8, 8);
    lemma_same_number(d, e, by, o + 16, 8);
    lemma_same_number(d, e, by, o + 24, 8);
    lemma_same_number(d, e, by, o + 32, 8);
    lemma_same_number(d, e, by, o + 40, 8);
    lemma_same_number(d, e, by, o + 48, 8);
    lemma_same_number(d, e, by, o + 56, 8);
    lemma_same_number(d, e, by, o + 64, 8);
    lemma_same_number(d, e, by, o + 72, 8);
    lemma_same_number(d, e, by, o + 80, 8);
    lemma_same_number(d, e, by, o + 88, 8);
    lemma_same_number(d, e, by, o + 96, 8);
    lemma_same_number(d, e, by, o + 104, 8);
    lemma_same_number(d, e, by, o + 112, 8);
    lemma_same_number(d, e, by, o + 120, 8);
    lemma_same_number(d, e, by, o + 128, 8);
    lemma_same_number(d, e, by, o + 136, 8);
}

proof fn lemma_same_seg(d: Seq<u8>, e: Seq<u8>, by: int, o: int, g: KvmSegment)
    requires
        stands_in(d, e, by),
        0 <= o,
        o + 24 <= d.len(),
        seg_at(d, o, g),
    ensures
        seg_at(e, o + by, g),
{
    lemma_same_number(d, e, by, o, 8);
    lemma_same_number(d, e, by, o + 8, 4);
    lemma_same_number(d, e, by, o + 12, 2);
    assert forall|k: int| 0 <= k < 24 implies #[trigger] d[o + k] == e[(o + by) + k] by {
        assert(d[o + k] == e[(o + k) + by]);
    }
}

proof fn lemma_same_sregs(d: Seq<u8>, e: Seq<u8>, by: int, shift: int, s: KvmSregs)
    requires
        stands_in(d, e, by),
        0 <= placed(REF_SEGS, shift),
        placed(REF_APIC_BASE, shift) + 8 <= d.len(),
        sregs_at(d, shift, s),
    ensures
        sregs_at(e, shift - by, s),
{
    let segs = placed(REF_SEGS, shift);
    lemma_same_seg(d, e, by, segs, s.cs);
    lemma_same_seg(d, e, by, segs + 24, s.ds);
    lemma_same_seg(d, e, by, segs + 48, s.es);
    lemma_same_seg(d, e, by, segs + 72, s.fs);
    lemma_same_seg(d, e, by, segs + 96, s.gs);
    lemma_same_seg(d, e, by, segs + 120, s.ss);
    lemma_same_seg(d, e, by, segs + 144, s.tr);
    lemma_same_seg(d, e, by, segs + 168, s.ldt);
    lemma_same_number(d, e, by, placed(REF_GDT, shift), 8);
    lemma_same_number(d, e, by, placed(REF_GDT, shift) + 8, 2);
    lemma_same_number(d, e, by, placed(REF_IDT, shift), 8);
    lemma_same_number(d, e, by, placed(REF_IDT, shift) + 8, 2);
    let cr = placed(REF_CR, shift);
    lemma_same_number(d, e, by, cr, 8);
    lemma_same_number(d, e, by, cr + 8, 8);
    lemma_same_number(d, e, by, cr + 16, 8);
    lemma_same_number(d, e, by, cr + 24, 8);
    lemma_same_number(d, e, by, placed(REF_EFER, shift), 8);
    lemma_same_number(d, e, by, placed(REF_APIC_BASE, shift), 8);
}

/// Bytes put before a file move its layout by their number, unless the longer file has an
/// anchor among them.
pub proof fn law_prefix_moves_layout(front: Seq<u8>, d: Seq<u8>, shift: int)
    requires
        layout_shift(d) == Some(shift),
        forall|j: int| 0 <= j < front.len() ==> !#[trigger] anchor_at(front + d, j),
    ensures
        layout_shift(front + d) == Some(shift - front.len()),
{
    let e = front + d;
    let by = front.len() as int;
    assert(stands_in(d, e, by));
    let c = choose|c: int| first_anchor(d, c);
    assert(first_anchor(d, c));
    assert forall|j: int| 0 <= j <= c implies #[trigger] anchor_at(d, j) == anchor_at(e, j + by) by {
        lemma_same_number(d, e, by, j, 8);
        lemma_same_number(d, e, by, j + (REF_EFER - REF_IOAPIC), 8);
    }
    assert forall|j: int| 0 <= j < c + by implies !#[trigger] anchor_at(e, j) by {
        if j >= by {
            assert(!anchor_at(d, j - by));
        }
    }
    assert(anchor_at(d, c));
    lemma_first_anchor_is_shift(e, c + by);
}

/// The sections are found wherever the file puts them: bytes put before a file leave what is read
/// at fixed distances from the anchor as it is, unless they bring an earlier anchor into being.
pub proof fn law_prefix_keeps_sections(front: Seq<u8>, d: Seq<u8>, shift: int, p: ParsedVmState)
    requires
        layout_shift(d) == Some(shift),
        holds_apic_base(d),
        vmstate_at(d, shift, p),
        forall|j: int| 0 <= j < front.len() ==> !#[trigger] anchor_at(front + d, j),
    ensures
        layout_shift(front + d) == Some(shift - front.len()),
        holds_apic_base(front + d),
        regs_at(front + d, placed(REF_REGS, shift - front.len()), p.regs),
        sregs_at(front + d, shift - front.len(), p.sregs),
        lapic_at(front + d, placed(REF_LAPIC, shift - front.len()), p.lapic),
        redirtbl_at(front + d, placed(REF_IOAPIC, shift - front.len()), p.ioapic_redirtbl@),
        xcrs_at(front + d, placed(REF_XCRS, shift - front.len()), p.xcrs),
        xsave_at(front + d, placed(REF_XSAVE, shift - front.len()), p.xsave),
{
    let e = front + d;
    let by = front.len() as int;
    assert(stands_in(d, e, by));
    law_prefix_moves_layout(front, d, shift);
    law_layout_holds_efer(d, shift);
    lemma_same_sections(d, e, by, shift, p);
    lemma_prefix_same_xcrs(front, d, placed(REF_XCRS, shift), p.xcrs);
    lemma_prefix_same_xsave(front, d, placed(REF_XSAVE, shift), p.xsave);
}

/// Model-specific registers are found wherever their records stand: bytes put before a file leave
/// them as they are, unless a record starts among those bytes.
pub proof fn law_prefix_keeps_msrs(front: Seq<u8>, d: Seq<u8>)
    requires
        forall|j: int| 0 <= j < front.len() ==> !#[trigger] msr_record_at(front + d, j),
    ensures
        last_records(front + d, 0) == last_records(d, 0),
{
    lemma_prefix_same_msrs(front, d, 0);
    lemma_no_records_before(front + d, 0, front.len() as int);
}

/// Bytes put before a file leave the parsed state as a whole as it is, unless they bring an
/// anchor, a register record or a CPUID table into being.
pub proof fn law_prefix_keeps_state(front: Seq<u8>, d: Seq<u8>, shift: int, p: ParsedVmState)
    requires
        layout_shift(d) == Some(shift),
        holds_apic_base(d),
        vmstate_at(d, shift, p),
        forall|j: int| 0 <= j < front.len() ==> !#[trigger] anchor_at(front + d, j),
        forall|j: int| 0 <= j < front.len() ==> !#[trigger] msr_record_at(front + d, j),
        forall|j: int| 0 <= j < front.len() + 16 ==> !#[trigger] table_at(front + d, j),
    ensures
        layout_shift(front + d) == Some(shift - front.len()),
        holds_apic_base(front + d),
        vmstate_at(front + d, shift - front.len(), p),
{
    law_prefix_keeps_sections(front, d, shift, p);
    law_prefix_keeps_msrs(front, d);
    law_prefix_keeps_cpuid(front, d, p.cpuid_entries@);
}

/// The extended control registers are cut off by the end of the file, which bytes put before it
/// do not bring nearer.
proof fn lemma_prefix_same_xcrs(front: Seq<u8>, d: Seq<u8>, o: int, x: KvmXcrs)
    requires
        0 <= o,
        xcrs_at(d, o, x),
    ensures
        xcrs_at(front + d, o + front.len(), x),
{
    let e = front + d;
    let by = front.len() as int;
    assert(stands_in(d, e, by));
    if o + 24 <= d.len() {
        lemma_same_number(d, e, by, o, 4);
        lemma_same_number(d, e, by, o + 4, 4);
    }
    assert forall|i: int| 0 <= i < 16 && o + 8 + 16 * i + 16 <= d.len() implies xcr_at(
        d,
        o + 8 + 16 * i,
        #[trigger] x.xcrs@[i],
    ) == xcr_at(e, (o + by) + 8 + 16 * i, x.xcrs@[i]) by {
        lemma_same_number(d, e, by, o + 8 + 16 * i, 4);
        lemma_same_number(d, e, by, o + 8 + 16 * i + 4, 4);
        lemma_same_number(d, e, by, o + 8 + 16 * i + 8, 8);
    }
}

/// The extended state is cut off by the end of the file in the same way.
proof fn lemma_prefix_same_xsave(front: Seq<u8>, d: Seq<u8>, o: int, x: KvmXsave)
    requires
        0 <= o,
        xsave_at(d, o, x),
    ensures
        xsave_at(front + d, o + front.len(), x),
{
    let e = front + d;
    let by = front.len() as int;
    assert(stands_in(d, e, by));
    assert forall|i: int| 0 <= i < 1024 implies #[trigger] x.region@[i] == if (o + by) + 4 * i + 4
        <= e.len() {
        le_at(e, (o + by) + 4 * i, 4)
    } else {
        0
    } by {
        if o + 4 * i + 4 <= d.len() {
            lemma_same_number(d, e, by, o + 4 * i, 4);
        }
    }
}

/// A register record of `d` is one of the longer file, moved back.
proof fn lemma_prefix_same_record(front: Seq<u8>, d: Seq<u8>, i: int)
    requires
        0 <= i,
    ensures
        msr_record_at(front + d, i + front.len()) == msr_record_at(d, i),
        msr_record_at(d, i) ==> le_at(front + d, i + front.len(), 4) == le_at(d, i, 4) && msr_entry(
            front + d,
            i + front.len(),
        ) == msr_entry(d, i),
{
    let e = front + d;
    let by = front.len() as int;
    assert(stands_in(d, e, by));
    if i < d.len() - 16 {
        lemma_same_number(d, e, by, i, 4);
        lemma_same_number(d, e, by, i + 4, 4);
        lemma_same_number(d, e, by, i + 8, 8);
    }
}

proof fn lemma_prefix_same_msrs(front: Seq<u8>, d: Seq<u8>, i: int)
    requires
        0 <= i,
    ensures
        last_records(front + d, i + front.len()) == last_records(d, i),
    decreases d.len() - i,
{
    let e = front + d;
    let by = front.len() as int;
    if i < d.len() - 16 {
        lemma_prefix_same_msrs(front, d, i + 1);
        lemma_prefix_same_record(front, d, i);
        assert(last_record_at(e, i + by) == last_record_at(d, i)) by {
            if msr_record_at(d, i) && last_record_at(e, i + by) {
                assert forall|j: int| i < j && #[trigger] msr_record_at(d, j) implies le_at(d, j, 4)
                    != le_at(d, i, 4) by {
                    lemma_prefix_same_record(front, d, j);
                    assert(msr_record_at(e, j + by));
                }
            }
            if last_record_at(d, i) {
                assert forall|j: int| i + by < j && #[trigger] msr_record_at(e, j) implies le_at(
                    e,
                    j,
                    4,
                ) != le_at(e, i + by, 4) by {
                    lemma_prefix_same_record(front, d, j - by);
                    assert(msr_record_at(d, j - by));
                }
            }
        }
        assert((i + 1) + by == (i + by) + 1);
    }
}

/// Where no record starts between `i` and `j`, the last records from `i` on are those from `j`
/// on.
proof fn lemma_no_records_before(e: Seq<u8>, i: int, j: int)
    requires
        0 <= i <= j,
        forall|k: int| i <= k < j ==> !#[trigger] msr_record_at(e, k),
    ensures
        last_records(e, i) == last_records(e, j),
    decreases j - i,
{
    if i < j {
        lemma_no_records_before(e, i + 1, j);
        assert(!msr_record_at(e, i));
    }
}

/// A CPUID table of `d` is one of the longer file, moved back.
proof fn lemma_prefix_same_table(front: Seq<u8>, d: Seq<u8>, i: int)
    requires
        16 <= i,
    ensures
        table_at(front + d, i + front.len()) == table_at(d, i),
        table_at(d, i) ==> table_count(front + d, i + front.len()) == table_count(d, i),
{
    let e = front + d;
    let by = front.len() as int;
    assert(stands_in(d, e, by));
    if i <= d.len() - ENTRY_SIZE {
        lemma_same_number(d, e, by, i, 8);
        lemma_same_number(d, e, by, i + 8, 4);
        lemma_same_number(d, e, by, i + 12, 4);
        lemma_same_number(d, e, by, i - 16, 8);
        lemma_same_number(d, e, by, i - 8, 8);
        assert(d.subrange(i + 24, i + 28) =~= e.subrange(i + by + 24, i + by + 28));
        assert forall|j: int| 0 <= j implies entry_header_at(d, i + ENTRY_SIZE * j)
            == #[trigger] entry_header_at(e, (i + by) + ENTRY_SIZE * j) by {
            if i + ENTRY_SIZE * j + ENTRY_SIZE <= d.len() {
                lemma_same_number(d, e, by, i + ENTRY_SIZE * j, 8);
            }
        }
        if table_at(e, i + by) {
            assert forall|j: int| 0 <= j < table_count(d, i) implies #[trigger] entry_header_at(
                d,
                i + ENTRY_SIZE * j,
            ) by {
                assert(entry_header_at(e, (i + by) + ENTRY_SIZE * j));
            }
        }
    }
}

/// The CPUID table is found wherever it stands: bytes put before a file leave its entries as they
/// are, unless a table arises whose count, capacity or first entry starts among those bytes.
pub proof fn law_prefix_keeps_cpuid(front: Seq<u8>, d: Seq<u8>, entries: Seq<KvmCpuidEntry2>)
    requires
        cpuid_entries(d, entries),
        forall|j: int| 0 <= j < front.len() + 16 ==> !#[trigger] table_at(front + d, j),
    ensures
        cpuid_entries(front + d, entries),
{
    let e = front + d;
    let by = front.len() as int;
    assert(stands_in(d, e, by));
    if exists|i: int| table_at(d, i) {
        let i = choose|i: int| first_table(d, i) && #[trigger] table_entries(d, i, entries);
        lemma_prefix_same_table(front, d, i);
        assert forall|j: int| 0 <= j < i + by implies !#[trigger] table_at(e, j) by {
            if j >= by + 16 {
                lemma_prefix_same_table(front, d, j - by);
                assert(!table_at(d, j - by));
            }
        }
        assert(first_table(e, i + by));
        assert forall|j: int| 0 <= j < entries.len() implies cpuid_entry_at(
            e,
            (i + by) + ENTRY_SIZE * j,
            #[trigger] entries[j],
        ) by {
            let o = i + ENTRY_SIZE * j;
            assert(entry_header_at(d, o));
            assert(cpuid_entry_at(d, o, entries[j]));
            lemma_same_number(d, e, by, o + 8, 4);
            lemma_same_number(d, e, by, o + 12, 4);
            lemma_same_number(d, e, by, o + 16, 4);
            lemma_same_number(d, e, by, o + 20, 4);
            lemma_same_number(d, e, by, o + 24, 4);
            lemma_same_number(d, e, by, o + 28, 4);
            lemma_same_number(d, e, by, o + 32, 4);
        }
        assert(table_entries(e, i + by, entries));
    } else {
        assert forall|j: int| !#[trigger] table_at(e, j) by {
            if j >= by + 16 {
                lemma_prefix_same_table(front, d, j - by);
                assert(!table_at(d, j - by));
            }
        }
    }
}

/// Bytes put behind a file leave its layout as it is, and with it the general and special
/// registers, the local APIC page and the redirection table. The extended control registers stay
/// where the file held room for all sixteen, and the extended state where it held all of it.
pub proof fn law_tail_keeps_sections(d: Seq<u8>, tail: Seq<u8>, shift: int, p: ParsedVmState)
    requires
        layout_shift(d) == Some(shift),
        holds_apic_base(d),
        vmstate_at(d, shift, p),
    ensures
        layout_shift(d + tail) == Some(shift),
        holds_apic_base(d + tail),
        regs_at(d + tail, placed(REF_REGS, shift), p.regs),
        sregs_at(d + tail, shift, p.sregs),
        lapic_at(d + tail, placed(REF_LAPIC, shift), p.lapic),
        redirtbl_at(d + tail, placed(REF_IOAPIC, shift), p.ioapic_redirtbl@),
        placed(REF_XCRS, shift) + 8 + 16 * 16 <= d.len() ==> xcrs_at(
            d + tail,
            placed(REF_XCRS, shift),
            p.xcrs,
        ),
        placed(REF_XSAVE, shift) + 4096 <= d.len() ==> xsave_at(
            d + tail,
            placed(REF_XSAVE, shift),
            p.xsave,
        ),
{
    let e = d + tail;
    assert(stands_in(d, e, 0));
    let c = choose|c: int| first_anchor(d, c);
    assert(first_anchor(d, c));
    assert forall|j: int| 0 <= j <= c implies #[trigger] anchor_at(d, j) == anchor_at(e, j) by {
        lemma_same_number(d, e, 0, j, 8);
        lemma_same_number(d, e, 0, j + (REF_EFER - REF_IOAPIC), 8);
    }
    assert forall|j: int| 0 <= j < c implies !#[trigger] anchor_at(e, j) by {
        assert(!anchor_at(d, j));
    }
    assert(anchor_at(d, c));
    lemma_first_anchor_is_shift(e, c);
    lemma_same_sections(d, e, 0, shift, p);
    let o = placed(REF_XCRS, shift);
    if o + 8 + 16 * 16 <= d.len() {
        lemma_same_number(d, e, 0, o, 4);
        lemma_same_number(d, e, 0, o + 4, 4);
        assert forall|i: int| 0 <= i < 16 implies xcr_at(
            d,
            o + 8 + 16 * i,
            #[trigger] p.xcrs.xcrs@[i],
        ) == xcr_at(e, o + 8 + 16 * i, p.xcrs.xcrs@[i]) by {
            lemma_same_number(d, e, 0, o + 8 + 16 * i, 4);
            lemma_same_number(d, e, 0, o + 8 + 16 * i + 4, 4);
            lemma_same_number(d, e, 0, o + 8 + 16 * i + 8, 8);
        }
    }
    let x = placed(REF_XSAVE, shift);
    if x + 4096 <= d.len() {
        assert forall|i: int| 0 <= i < 1024 implies #[trigger] p.xsave.region@[i] == le_at(
            e,
            x + 4 * i,
            4,
        ) by {
            lemma_same_number(d, e, 0, x + 4 * i, 4);
        }
    }
}

/// The registers come in file order, each from the last record for it: `places` says where the
/// records lie.
pub proof fn law_msrs_in_file_order(d: Seq<u8>) -> (places: Seq<int>)
    ensures
        places.len() == last_records(d, 0).len(),
        forall|j: int, k: int| 0 <= j < k < places.len() ==> places[j] < places[k],
        forall|k: int|
            0 <= k < places.len() ==> last_record_at(d, #[trigger] places[k]) && last_records(
                d,
                0,
            )[k] == msr_entry(d, places[k]),
{
    lemma_record_places(d, 0)
}

proof fn lemma_record_places(d: Seq<u8>, i: int) -> (places: Seq<int>)
    requires
        0 <= i,
    ensures
        places.len() == last_records(d, i).len(),
        forall|j: int, k: int| 0 <= j < k < places.len() ==> places[j] < places[k],
        forall|k: int|
            0 <= k < places.len() ==> i <= #[trigger] places[k] && last_record_at(d, places[k])
                && last_records(d, i)[k] == msr_entry(d, places[k]),
    decreases d.len() - i,
{
    if i >= d.len() - 16 {
        Seq::empty()
    } else {
        let rest = lemma_record_places(d, i + 1);
        if last_record_at(d, i) {
            let places = seq![i] + rest;
            assert forall|k: int| 0 <= k < places.len() implies i <= #[trigger] places[k]
                && last_record_at(d, places[k]) && last_records(d, i)[k] == msr_entry(
                d,
                places[k],
            ) by {
                if k > 0 {
                    assert(places[k] == rest[k - 1]);
                }
            }
            places
        } else {
            rest
        }
    }
}

/// Every wanted register that has a record is read, with the value of its last record.
pub proof fn law_last_record_is_read(d: Seq<u8>, i: int)
    requires
        last_record_at(d, i),
    ensures
        last_records(d, 0).contains(msr_entry(d, i)),
{
    lemma_last_record_is_read(d, 0, i);
}

proof fn lemma_last_record_is_read(d: Seq<u8>, from: int, i: int)
    requires
        0 <= from <= i,
        last_record_at(d, i),
    ensures
        last_records(d, from).contains(msr_entry(d, i)),
    decreases i - from,
{
    let all = last_records(d, from);
    if from == i {
        assert(all[0] == msr_entry(d, i));
    } else {
        lemma_last_record_is_read(d, from + 1, i);
        let rest = last_records(d, from + 1);
        let k = choose|k: int| 0 <= k < rest.len() && rest[k] == msr_entry(d, i);
        if last_record_at(d, from) {
            assert(all[k + 1] == rest[k]);
        } else {
            assert(all[k] == rest[k]);
        }
    }
}

/// No register is set twice, every one is wanted with its value, and there are seven at most.
pub proof fn law_msrs_are_distinct_and_wanted(d: Seq<u8>)
    ensures
        forall|j: int, k: int|
            0 <= j < k < last_records(d, 0).len() ==> (#[trigger] last_records(d, 0)[j]).index != (
            #[trigger] last_records(d, 0)[k]).index,
        forall|k: int|
            0 <= k < last_records(d, 0).len() ==> (#[trigger] last_records(d, 0)[k]).reserved == 0
                && wanted(last_records(d, 0)[k].index as nat, last_records(d, 0)[k].data as nat),
        last_records(d, 0).len() <= 7,
{
    let all = last_records(d, 0);
    let places = law_msrs_in_file_order(d);
    assert forall|k: int| 0 <= k < all.len() implies (#[trigger] all[k]).reserved == 0 && wanted(
        all[k].index as nat,
        all[k].data as nat,
    ) && all[k].index == le_at(d, places[k], 4) by {
        assert(last_record_at(d, places[k]));
        lemma_le_at_bound(d, places[k]);
        lemma_le_at_bound(d, places[k] + 8);
    }
    assert forall|j: int, k: int| 0 <= j < k < all.len() implies (#[trigger] all[j]).index != (
    #[trigger] all[k]).index by {
        assert(last_record_at(d, places[j]) && msr_record_at(d, places[k]));
    }
    let indices = all.map_values(|e: KvmMsrEntry| e.index);
    assert(indices.no_duplicates());
    indices.unique_seq_to_set();
    let known: Set<u32> = set![0xc0000081u32, 0xc0000082, 0xc0000083, 0xc0000084, 0xc0000102, 0x4b564d00,
        0x4b564d01];
    assert(indices.to_set().subset_of(known)) by {
        assert forall|x: u32| indices.to_set().contains(x) implies known.contains(x) by {
            let k = choose|k: int| 0 <= k < indices.len() && indices[k] == x;
            assert(all[k].index == x);
        }
    }
    vstd::set_lib::lemma_len_subset(indices.to_set(), known);
}

/// A CPUID table that is read starts with leaf 0 of a known vendor and has 256 entries at most.
pub proof fn law_cpuid_starts_with_vendor(d: Seq<u8>, entries: Seq<KvmCpuidEntry2>)
    requires
        cpuid_entries(d, entries),
        entries.len() > 0,
    ensures
        entries.len() <= 256,
        entries[0].function == 0,
        entries[0].index == 0,
        entries[0].ebx == 0x68747541 || entries[0].ebx == 0x756e6547,
{
    let i = choose|i: int| first_table(d, i) && #[trigger] table_entries(d, i, entries);
    assert(cpuid_entry_at(d, i + ENTRY_SIZE * 0, entries[0]));
    let name = d.subrange(i + 24, i + 28);
    assert(name[0] == d[i + 24] && name[1] == d[i + 25] && name[2] == d[i + 26] && name[3] == d[i
        + 27]);
    reveal_with_fuel(le_at, 5);
    assert(leaf_zero_at(d, i) && vendor_at(d, i + 24));
}

/// A file with a CPUID table has its first one read: the entries are none only where there is
/// no table.
pub proof fn law_cpuid_table_is_read(d: Seq<u8>, i: int, entries: Seq<KvmCpuidEntry2>)
    requires
        table_at(d, i),
        cpuid_entries(d, entries),
    ensures
        entries.len() > 0,
{
    let c = choose|c: int| first_table(d, c) && #[trigger] table_entries(d, c, entries);
    assert(table_at(d, c));
}

} // verus!
