//! What is read out of a vmstate file is what was written into it.
//!
//! Each law speaks of a file's bytes, as [`encoding`](crate::encoding) lays values out, and of
//! what a call on that file returns.

use crate::bytes::{le_at, r16, r32, r64, signed};
use crate::encoding::{
    dtable_bytes, ioapic_bytes, lapic_bytes, le_bytes, lemma_le_bytes_len, lemma_number_reads_back,
    lemma_number_stands, lemma_room, lemma_row_len, lemma_row_reads_back, lemma_written_parts,
    regs_bytes, row, segment_bytes, sregs_bytes, written_at, xcr_bytes, xcr_row, xcrs_bytes,
};
use crate::kvm::{
    KvmDtable, KvmLapicState, KvmRegs, KvmSegment, KvmSregs, KvmXcr, KvmXcrs, KvmXsave,
};
use crate::layout::{
    adj, anchor_at, detect_offset_shift, first_anchor, layout_shift, lemma_first_anchor_is_shift,
    VmStateError,
};
use crate::laws::law_anchor_gives_layout;
use crate::vmstate::{
    dtable_at, parse_ioapic_redirtbl, parse_lapic, parse_regs, parse_seg, parse_sregs, parse_xcrs,
    parse_xsave, regs_at, seg_at,
};
use vstd::prelude::*;

verus! {

/// A number in 2, 4 or 8 bytes, the lowest first, is read as itself, wherever it stands.
pub proof fn law_number_is_read_as_written(data: &[u8], o: usize, v: nat, a: u16, b: u32, c: u64)
    ensures
        written_at(data@, o as int, le_bytes(v, 2)) && v <= u16::MAX ==> call_requires(
            r16,
            (data, o),
        ) && (call_ensures(r16, (data, o), a) ==> a == v),
        written_at(data@, o as int, le_bytes(v, 4)) && v <= u32::MAX ==> call_requires(
            r32,
            (data, o),
        ) && (call_ensures(r32, (data, o), b) ==> b == v),
        written_at(data@, o as int, le_bytes(v, 8)) && v <= u64::MAX ==> call_requires(
            r64,
            (data, o),
        ) && (call_ensures(r64, (data, o), c) ==> c == v),
{
    lemma_room();
    if written_at(data@, o as int, le_bytes(v, 2)) && v <= u16::MAX {
        lemma_number_reads_back(data@, o as int, v, 2);
    }
    if written_at(data@, o as int, le_bytes(v, 4)) && v <= u32::MAX {
        lemma_number_reads_back(data@, o as int, v, 4);
    }
    if written_at(data@, o as int, le_bytes(v, 8)) && v <= u64::MAX {
        lemma_number_reads_back(data@, o as int, v, 8);
    }
}

/// A byte and the signed number that it is read as differ by a multiple of 256.
pub proof fn law_signed_byte_is_congruent(b: u8, v: i8)
    requires
        call_ensures(signed, (b,), v),
    ensures
        (v - b) % 256 == 0,
{
}

/// What a file of a booted 64-bit guest holds at `i` and 0x2564 bytes further on, whatever stands
/// between and around: the I/O APIC's base address, and EFER with or without no-execute pages.
pub open spec fn guest_at(d: Seq<u8>, i: int) -> bool {
    &&& written_at(d, i, le_bytes(0xFEC0_0000, 8))
    &&& written_at(d, i + 0x2564, le_bytes(0xD01, 8)) || written_at(
        d,
        i + 0x2564,
        le_bytes(0x501, 8),
    )
}

/// `guest_at` holds at `c` and nowhere before.
pub open spec fn first_guest_at(d: Seq<u8>, c: int) -> bool {
    guest_at(d, c) && forall|j: int| 0 <= j < c ==> !#[trigger] guest_at(d, j)
}

/// A guest stands exactly where the reader finds an anchor.
pub proof fn lemma_guest_is_anchor(d: Seq<u8>, i: int)
    ensures
        guest_at(d, i) <==> anchor_at(d, i),
{
    lemma_room();
    lemma_le_bytes_len(0xFEC0_0000, 8);
    lemma_le_bytes_len(0xD01, 8);
    lemma_le_bytes_len(0x501, 8);
    if guest_at(d, i) {
        lemma_number_reads_back(d, i, 0xFEC0_0000, 8);
        if written_at(d, i + 0x2564, le_bytes(0xD01, 8)) {
            lemma_number_reads_back(d, i + 0x2564, 0xD01, 8);
        } else {
            lemma_number_reads_back(d, i + 0x2564, 0x501, 8);
        }
    }
    if anchor_at(d, i) {
        lemma_number_stands(d, i, 8);
        lemma_number_stands(d, i + 0x2564, 8);
    }
}

/// The first guest of a file fixes the displacement, and a file without one has none.
pub proof fn lemma_guest_is_layout(d: Seq<u8>)
    ensures
        layout_shift(d) is None ==> forall|i: int| !#[trigger] guest_at(d, i),
        layout_shift(d) matches Some(shift) ==> first_guest_at(d, 0x591 - shift),
        forall|c: int| #[trigger] first_guest_at(d, c) ==> layout_shift(d) == Some(0x591 - c),
{
    assert forall|i: int| #[trigger] guest_at(d, i) == anchor_at(d, i) by {
        lemma_guest_is_anchor(d, i);
    }
    if layout_shift(d) is None {
        assert forall|i: int| !#[trigger] guest_at(d, i) by {
            if guest_at(d, i) {
                law_anchor_gives_layout(d, i);
            }
        }
    } else {
        let c = choose|c: int| first_anchor(d, c);
        assert(first_anchor(d, c));
        assert forall|j: int| 0 <= j < c implies !#[trigger] guest_at(d, j) by {
            assert(!anchor_at(d, j));
        }
        assert(guest_at(d, c));
    }
    assert forall|c: int| #[trigger] first_guest_at(d, c) implies layout_shift(d) == Some(
        0x591 - c,
    ) by {
        assert forall|j: int| 0 <= j < c implies !#[trigger] anchor_at(d, j) by {
            assert(!guest_at(d, j));
        }
        lemma_first_anchor_is_shift(d, c);
    }
}

/// A file with a base address and, at its distance, an EFER is recognised, whatever all its
/// other bytes are, by that pair or an earlier one.
pub proof fn law_guest_is_recognised(data: &[u8], i: int, res: Result<isize, VmStateError>)
    requires
        guest_at(data@, i),
        call_ensures(detect_offset_shift, (data,), res),
    ensures
        res matches Ok(shift) && 0x591 - i <= shift,
{
    lemma_guest_is_layout(data@);
    lemma_guest_is_anchor(data@, i);
    law_anchor_gives_layout(data@, i);
}

/// A displacement is only found where a base address and an EFER stand, and it is that of the
/// first such pair. A file is refused only where there is none. Every file is looked at.
pub proof fn law_recognised_file_holds_guest(data: &[u8], res: Result<isize, VmStateError>)
    requires
        call_ensures(detect_offset_shift, (data,), res),
    ensures
        match res {
            Ok(shift) => first_guest_at(data@, 0x591 - shift),
            Err(e) => e == VmStateError::LayoutNotFound && forall|i: int|
                !#[trigger] guest_at(data@, i),
        },
        data@.len() <= isize::MAX ==> call_requires(detect_offset_shift, (data,)),
{
    lemma_guest_is_layout(data@);
}

/// Replacing bytes outside the two fields by which a file was recognised never makes it an
/// unrecognised one, nor moves its sections back.
pub proof fn law_other_bytes_do_not_matter(
    before: &[u8],
    after: &[u8],
    shift: isize,
    res: Result<isize, VmStateError>,
)
    requires
        call_ensures(detect_offset_shift, (before,), Ok::<isize, VmStateError>(shift)),
        call_ensures(detect_offset_shift, (after,), res),
        before@.len() == after@.len(),
        forall|k: int|
            0x591 - shift <= k < 0x599 - shift || 0x2AF5 - shift <= k < 0x2AFD - shift
                ==> #[trigger] before@[k] == after@[k],
    ensures
        res matches Ok(other) && shift <= other,
{
    let c = 0x591 - shift;
    lemma_guest_is_layout(before@);
    lemma_le_bytes_len(0xFEC0_0000, 8);
    lemma_le_bytes_len(0xD01, 8);
    lemma_le_bytes_len(0x501, 8);
    assert(first_guest_at(before@, c));
    lemma_guest_is_anchor(before@, c);
    assert(before@.subrange(c, c + 8) =~= after@.subrange(c, c + 8));
    assert(before@.subrange(c + 0x2564, c + 0x256c) =~= after@.subrange(c + 0x2564, c + 0x256c));
    assert(guest_at(after@, c));
    law_guest_is_recognised(after, c, res);
}

/// Moving a reference offset is undone by adding the displacement.
pub proof fn law_displacement_is_subtracted(reference: usize, shift: isize, offset: usize)
    requires
        call_ensures(adj, (reference, shift), offset),
    ensures
        offset + shift == reference,
{
}

/// General-purpose registers that stand at `o` are the ones that are read there.
pub proof fn lemma_regs_stand(d: Seq<u8>, o: int, r: KvmRegs, q: KvmRegs)
    requires
        written_at(d, o, regs_bytes(r)),
        regs_at(d, o, q),
    ensures
        q == r,
        o + 144 <= d.len(),
{
    let vs = seq![
        r.rax as nat,
        r.rbx as nat,
        r.rcx as nat,
        r.rdx as nat,
        r.rsi as nat,
        r.rdi as nat,
        r.rsp as nat,
        r.rbp as nat,
        r.r8 as nat,
        r.r9 as nat,
        r.r10 as nat,
        r.r11 as nat,
        r.r12 as nat,
        r.r13 as nat,
        r.r14 as nat,
        r.r15 as nat,
        r.rip as nat,
        r.rflags as nat,
    ];
    lemma_room();
    lemma_row_len(vs, 8);
    assert forall|k: int| 0 <= k < 18 implies #[trigger] vs[k] == le_at(
        d,
        o + 8 * k,
        8,
    ) by {
        lemma_row_reads_back(d, o, vs, 8, k);
    }
    assert(vs[0] == r.rax && vs[1] == r.rbx && vs[2] == r.rcx && vs[3] == r.rdx);
    assert(vs[4] == r.rsi && vs[5] == r.rdi && vs[6] == r.rsp && vs[7] == r.rbp);
    assert(vs[8] == r.r8 && vs[9] == r.r9 && vs[10] == r.r10 && vs[11] == r.r11);
    assert(vs[12] == r.r12 && vs[13] == r.r13 && vs[14] == r.r14 && vs[15] == r.r15);
    assert(vs[16] == r.rip && vs[17] == r.rflags);
}

/// The general-purpose registers are read back from the bytes of `kvm_regs`, each into its own
/// field.
pub proof fn law_regs_read_back(data: &[u8], o: usize, r: KvmRegs, out: KvmRegs)
    requires
        written_at(data@, o as int, regs_bytes(r)),
        call_ensures(parse_regs, (data, o), out),
    ensures
        out == r,
        call_requires(parse_regs, (data, o)),
{
    lemma_regs_stand(data@, o as int, r, out);
}

proof fn lemma_segment_stands(d: Seq<u8>, o: int, g: KvmSegment, q: KvmSegment)
    requires
        written_at(d, o, segment_bytes(g)),
        seg_at(d, o, q),
    ensures
        q == g,
        o + 24 <= d.len(),
        segment_bytes(g).len() == 24,
{
    let base = le_bytes(g.base as nat, 8);
    let limit = le_bytes(g.limit as nat, 4);
    let selector = le_bytes(g.selector as nat, 2);
    let rest = seq![g.type_, g.present, g.dpl, g.db, g.s, g.l, g.g, g.avl, g.unusable, g.padding];
    lemma_room();
    lemma_le_bytes_len(g.base as nat, 8);
    lemma_le_bytes_len(g.limit as nat, 4);
    lemma_le_bytes_len(g.selector as nat, 2);
    lemma_written_parts(d, o, base + limit + selector, rest);
    lemma_written_parts(d, o, base + limit, selector);
    lemma_written_parts(d, o, base, limit);
    lemma_number_reads_back(d, o, g.base as nat, 8);
    lemma_number_reads_back(d, o + 8, g.limit as nat, 4);
    lemma_number_reads_back(d, o + 12, g.selector as nat, 2);
    assert forall|k: int| 0 <= k < 10 implies #[trigger] rest[k] == d[o + 14 + k] by {
        assert(d.subrange(o + 14, o + 24)[k] == rest[k]);
    }
    assert(rest[0] == g.type_ && rest[1] == g.present && rest[2] == g.dpl && rest[3] == g.db);
    assert(rest[4] == g.s && rest[5] == g.l && rest[6] == g.g && rest[7] == g.avl);
    assert(rest[8] == g.unusable && rest[9] == g.padding);
}

/// A segment register is read back from the bytes of `kvm_segment`, each part into its own field.
pub proof fn law_segment_reads_back(data: &[u8], o: usize, g: KvmSegment, out: KvmSegment)
    requires
        written_at(data@, o as int, segment_bytes(g)),
        call_ensures(parse_seg, (data, o), out),
    ensures
        out == g,
        call_requires(parse_seg, (data, o)),
{
    lemma_segment_stands(data@, o as int, g, out);
}

proof fn lemma_dtable_stands(d: Seq<u8>, o: int, t: KvmDtable, padding: Seq<u8>, q: KvmDtable)
    requires
        written_at(d, o, dtable_bytes(t, padding)),
        padding.len() == 6,
        dtable_at(d, o, q),
    ensures
        q.base == t.base,
        q.limit == t.limit,
        q.padding@ == seq![0u16, 0, 0],
{
    let base = le_bytes(t.base as nat, 8);
    let limit = le_bytes(t.limit as nat, 2);
    lemma_room();
    lemma_le_bytes_len(t.base as nat, 8);
    lemma_le_bytes_len(t.limit as nat, 2);
    lemma_written_parts(d, o, base + limit, padding);
    lemma_written_parts(d, o, base, limit);
    lemma_number_reads_back(d, o, t.base as nat, 8);
    lemma_number_reads_back(d, o + 8, t.limit as nat, 2);
    assert(q.padding@ =~= seq![0u16, 0, 0]);
}

proof fn lemma_segment_bytes_len(g: KvmSegment)
    ensures
        segment_bytes(g).len() == 24,
{
    lemma_le_bytes_len(g.base as nat, 8);
    lemma_le_bytes_len(g.limit as nat, 4);
    lemma_le_bytes_len(g.selector as nat, 2);
}

/// The special registers are read back from the bytes of `kvm_sregs`, which stand 0x29ED less the
/// displacement into the file, each into its own field. The padding of the descriptor tables,
/// CR8 and the pending interrupts come out as zero whatever the file holds for them.
pub proof fn law_sregs_read_back(
    data: &[u8],
    shift: isize,
    s: KvmSregs,
    gdt_padding: Seq<u8>,
    idt_padding: Seq<u8>,
    cr8: u64,
    out: KvmSregs,
)
    requires
        gdt_padding.len() == 6,
        idt_padding.len() == 6,
        written_at(data@, 0x29ED - shift, sregs_bytes(s, gdt_padding, idt_padding, cr8)),
        call_ensures(parse_sregs, (data, shift), out),
    ensures
        out.cs == s.cs,
        out.ds == s.ds,
        out.es == s.es,
        out.fs == s.fs,
        out.gs == s.gs,
        out.ss == s.ss,
        out.tr == s.tr,
        out.ldt == s.ldt,
        out.gdt.base == s.gdt.base,
        out.gdt.limit == s.gdt.limit,
        out.gdt.padding@ == seq![0u16, 0, 0],
        out.idt.base == s.idt.base,
        out.idt.limit == s.idt.limit,
        out.idt.padding@ == seq![0u16, 0, 0],
        out.cr0 == s.cr0,
        out.cr2 == s.cr2,
        out.cr3 == s.cr3,
        out.cr4 == s.cr4,
        out.cr8 == 0,
        out.efer == s.efer,
        out.apic_base == s.apic_base,
        out.interrupt_bitmap@ == seq![0u64, 0, 0, 0],
        call_requires(parse_sregs, (data, shift)),
{
    let d = data@;
    let o = 0x29ED - shift;
    let a1 = segment_bytes(s.cs);
    let a2 = a1 + segment_bytes(s.ds);
    let a3 = a2 + segment_bytes(s.es);
    let a4 = a3 + segment_bytes(s.fs);
    let a5 = a4 + segment_bytes(s.gs);
    let a6 = a5 + segment_bytes(s.ss);
    let a7 = a6 + segment_bytes(s.tr);
    let a8 = a7 + segment_bytes(s.ldt);
    let gdt = dtable_bytes(s.gdt, gdt_padding);
    let idt = dtable_bytes(s.idt, idt_padding);
    let vs = seq![
        s.cr0 as nat,
        s.cr2 as nat,
        s.cr3 as nat,
        s.cr4 as nat,
        cr8 as nat,
        s.efer as nat,
        s.apic_base as nat,
    ];
    lemma_segment_bytes_len(s.cs);
    lemma_segment_bytes_len(s.ds);
    lemma_segment_bytes_len(s.es);
    lemma_segment_bytes_len(s.fs);
    lemma_segment_bytes_len(s.gs);
    lemma_segment_bytes_len(s.ss);
    lemma_segment_bytes_len(s.tr);
    lemma_segment_bytes_len(s.ldt);
    lemma_le_bytes_len(s.gdt.base as nat, 8);
    lemma_le_bytes_len(s.gdt.limit as nat, 2);
    lemma_le_bytes_len(s.idt.base as nat, 8);
    lemma_le_bytes_len(s.idt.limit as nat, 2);
    lemma_row_len(vs, 8);
    lemma_written_parts(d, o, a8 + gdt + idt, row(vs, 8));
    lemma_written_parts(d, o, a8 + gdt, idt);
    lemma_written_parts(d, o, a8, gdt);
    lemma_written_parts(d, o, a7, segment_bytes(s.ldt));
    lemma_written_parts(d, o, a6, segment_bytes(s.tr));
    lemma_written_parts(d, o, a5, segment_bytes(s.ss));
    lemma_written_parts(d, o, a4, segment_bytes(s.gs));
    lemma_written_parts(d, o, a3, segment_bytes(s.fs));
    lemma_written_parts(d, o, a2, segment_bytes(s.es));
    lemma_written_parts(d, o, a1, segment_bytes(s.ds));
    lemma_segment_stands(d, o, s.cs, out.cs);
    lemma_segment_stands(d, o + 24, s.ds, out.ds);
    lemma_segment_stands(d, o + 48, s.es, out.es);
    lemma_segment_stands(d, o + 72, s.fs, out.fs);
    lemma_segment_stands(d, o + 96, s.gs, out.gs);
    lemma_segment_stands(d, o + 120, s.ss, out.ss);
    lemma_segment_stands(d, o + 144, s.tr, out.tr);
    lemma_segment_stands(d, o + 168, s.ldt, out.ldt);
    lemma_dtable_stands(d, o + 192, s.gdt, gdt_padding, out.gdt);
    lemma_dtable_stands(d, o + 208, s.idt, idt_padding, out.idt);
    lemma_room();
    lemma_row_reads_back(d, o + 224, vs, 8, 0);
    lemma_row_reads_back(d, o + 224, vs, 8, 1);
    lemma_row_reads_back(d, o + 224, vs, 8, 2);
    lemma_row_reads_back(d, o + 224, vs, 8, 3);
    lemma_row_reads_back(d, o + 224, vs, 8, 5);
    lemma_row_reads_back(d, o + 224, vs, 8, 6);
    assert(out.interrupt_bitmap@ =~= seq![0u64, 0, 0, 0]);
}

/// The register page of the local APIC is read back register by register.
pub proof fn law_lapic_reads_back(data: &[u8], o: usize, l: KvmLapicState, out: KvmLapicState)
    requires
        written_at(data@, o as int, lapic_bytes(l)),
        call_ensures(parse_lapic, (data, o), out),
    ensures
        out.regs@ == l.regs@,
        call_requires(parse_lapic, (data, o)),
{
    let b = lapic_bytes(l);
    assert forall|i: int| 0 <= i < 1024 implies #[trigger] out.regs@[i] == l.regs@[i] by {
        assert(data@.subrange(o as int, o + 1024)[i] == b[i]);
    }
    assert(out.regs@ =~= l.regs@);
}

/// The redirection table is read back from an I/O APIC section, whatever its header holds.
pub proof fn law_redirection_table_reads_back(
    data: &[u8],
    o: usize,
    base: u64,
    ioregsel: u32,
    id: u32,
    irr: u32,
    pad: u32,
    tbl: Seq<u64>,
    out: [u64; 24],
)
    requires
        tbl.len() == 24,
        written_at(data@, o as int, ioapic_bytes(base, ioregsel, id, irr, pad, tbl)),
        call_ensures(parse_ioapic_redirtbl, (data, o), out),
    ensures
        out@ == tbl,
{
    let d = data@;
    let head = seq![ioregsel as nat, id as nat, irr as nat, pad as nat];
    let vs = tbl.map_values(|v: u64| v as nat);
    lemma_room();
    lemma_le_bytes_len(base as nat, 8);
    lemma_row_len(head, 4);
    lemma_row_len(vs, 8);
    lemma_written_parts(d, o as int, le_bytes(base as nat, 8) + row(head, 4), row(vs, 8));
    assert forall|i: int| 0 <= i < 24 implies #[trigger] out@[i] == tbl[i] by {
        assert(vs[i] == tbl[i] as nat);
        lemma_row_reads_back(d, o + 24, vs, 8, i);
    }
    assert(out@ =~= tbl);
}

/// Of a redirection table that the file cuts off nothing is read: every entry is zero. Reading it
/// is never refused.
pub proof fn law_cut_redirection_table_is_zero(data: &[u8], o: usize, out: [u64; 24])
    requires
        call_ensures(parse_ioapic_redirtbl, (data, o), out),
    ensures
        data@.len() < o + 216 ==> forall|i: int| 0 <= i < 24 ==> #[trigger] out@[i] == 0,
        call_requires(parse_ioapic_redirtbl, (data, o)),
{
}

proof fn lemma_xcr_row_len(list: Seq<KvmXcr>)
    ensures
        xcr_row(list).len() == 16 * list.len(),
    decreases list.len(),
{
    if list.len() > 0 {
        lemma_xcr_row_len(list.drop_last());
        lemma_le_bytes_len(list.last().xcr as nat, 4);
        lemma_le_bytes_len(list.last().reserved as nat, 4);
        lemma_le_bytes_len(list.last().value as nat, 8);
    }
}

/// Register `k` of a row stands 16 bytes behind the one before it.
proof fn lemma_xcr_stands(b: Seq<u8>, o: int, list: Seq<KvmXcr>, k: int)
    requires
        written_at(b, o, xcr_row(list)),
        0 <= k < list.len(),
    ensures
        written_at(b, o + 16 * k, xcr_bytes(list[k])),
        xcr_bytes(list[k]).len() == 16,
    decreases list.len(),
{
    let front = list.drop_last();
    lemma_xcr_row_len(front);
    lemma_written_parts(b, o, xcr_row(front), xcr_bytes(list.last()));
    if k < front.len() {
        lemma_xcr_stands(b, o, front, k);
    } else {
        lemma_xcr_row_len(list);
    }
}

/// The extended control registers are read back from the bytes of `kvm_xcrs`: the count, the
/// flags and the registers. Where the file ends early, the registers that it holds whole are read
/// back. All other slots, and the padding, are zero.
pub proof fn law_xcrs_read_back(
    data: &[u8],
    o: usize,
    flags: u32,
    list: Seq<KvmXcr>,
    held: int,
    out: KvmXcrs,
)
    requires
        1 <= list.len() <= 16,
        24 <= held <= xcrs_bytes(flags, list).len(),
        written_at(data@, o as int, xcrs_bytes(flags, list).take(held)),
        held == xcrs_bytes(flags, list).len() || o + held == data@.len(),
        call_ensures(parse_xcrs, (data, o), out),
    ensures
        out.nr_xcrs == list.len(),
        out.flags == flags,
        forall|i: int|
            0 <= i < list.len() && 24 + 16 * i <= held ==> #[trigger] out.xcrs@[i] == list[i],
        forall|i: int|
            0 <= i < 16 && (list.len() <= i || held < 24 + 16 * i) ==> #[trigger] out.xcrs@[i] == (
            KvmXcr { xcr: 0, reserved: 0, value: 0 }),
        out.padding@ == Seq::new(16, |i: int| 0u64),
{
    let d = data@;
    let at = o as int;
    let b = xcrs_bytes(flags, list);
    let nr = le_bytes(list.len(), 4);
    let fl = le_bytes(flags as nat, 4);
    lemma_room();
    lemma_le_bytes_len(list.len(), 4);
    lemma_le_bytes_len(flags as nat, 4);
    lemma_xcr_row_len(list);
    assert(b.subrange(0, b.len() as int) =~= b);
    lemma_written_parts(b, 0, nr + fl, xcr_row(list));
    lemma_written_parts(b, 0, nr, fl);
    lemma_same_as_written(d, at, b, held, 0, nr);
    lemma_same_as_written(d, at, b, held, 4, fl);
    lemma_number_reads_back(d, at, list.len(), 4);
    lemma_number_reads_back(d, at + 4, flags as nat, 4);
    assert forall|i: int| 0 <= i < list.len() && 24 + 16 * i <= held implies #[trigger] out.xcrs@[i]
        == list[i] by {
        let x = list[i];
        lemma_xcr_stands(b, 8, list, i);
        lemma_same_as_written(d, at, b, held, 8 + 16 * i, xcr_bytes(x));
        let p = at + 8 + 16 * i;
        let xcr = le_bytes(x.xcr as nat, 4);
        let reserved = le_bytes(x.reserved as nat, 4);
        lemma_le_bytes_len(x.xcr as nat, 4);
        lemma_le_bytes_len(x.reserved as nat, 4);
        lemma_written_parts(d, p, xcr + reserved, le_bytes(x.value as nat, 8));
        lemma_written_parts(d, p, xcr, reserved);
        lemma_number_reads_back(d, p, x.xcr as nat, 4);
        lemma_number_reads_back(d, p + 4, x.reserved as nat, 4);
        lemma_number_reads_back(d, p + 8, x.value as nat, 8);
    }
    assert(out.padding@ =~= Seq::new(16, |i: int| 0u64));
}

/// A part of `b` that lies inside its first `held` bytes stands where these stand.
proof fn lemma_same_as_written(d: Seq<u8>, o: int, b: Seq<u8>, held: int, p: int, part: Seq<u8>)
    requires
        0 <= held <= b.len(),
        written_at(d, o, b.take(held)),
        written_at(b, p, part),
        p + part.len() <= held,
    ensures
        written_at(d, o + p, part),
{
    let all = d.subrange(o, o + held);
    assert forall|k: int| 0 <= k < part.len() implies d.subrange(o + p, o + p + part.len())[k]
        == part[k] by {
        assert(all[p + k] == b.take(held)[p + k]);
        assert(b.subrange(p, p + part.len())[k] == part[k]);
    }
    assert(d.subrange(o + p, o + p + part.len()) =~= part);
}

/// A count of extended control registers outside 1 to 16 is kept, and the flags with it, but no
/// register is read. Where fewer than 24 bytes are left, everything is zero. Reading is never
/// refused.
pub proof fn law_odd_xcrs_are_blank(data: &[u8], o: usize, nr: u32, flags: u32, out: KvmXcrs)
    requires
        call_ensures(parse_xcrs, (data, o), out),
        data@.len() < o + 24 || {
            &&& nr == 0 || 16 < nr
            &&& written_at(data@, o as int, le_bytes(nr as nat, 4) + le_bytes(flags as nat, 4))
        },
    ensures
        data@.len() < o + 24 ==> out.nr_xcrs == 0 && out.flags == 0,
        o + 24 <= data@.len() ==> out.nr_xcrs == nr && out.flags == flags,
        out.xcrs@ == Seq::new(16, |i: int| KvmXcr { xcr: 0, reserved: 0, value: 0 }),
        out.padding@ == Seq::new(16, |i: int| 0u64),
        call_requires(parse_xcrs, (data, o)),
{
    if o + 24 <= data@.len() {
        lemma_room();
        lemma_le_bytes_len(nr as nat, 4);
        lemma_written_parts(
            data@,
            o as int,
            le_bytes(nr as nat, 4),
            le_bytes(flags as nat, 4),
        );
        lemma_number_reads_back(data@, o as int, nr as nat, 4);
        lemma_number_reads_back(data@, o + 4, flags as nat, 4);
    }
    assert(out.xcrs@ =~= Seq::new(16, |i: int| KvmXcr { xcr: 0, reserved: 0, value: 0 }));
    assert(out.padding@ =~= Seq::new(16, |i: int| 0u64));
}

/// Each word of the extended state is read back; a word that the file does not hold whole is
/// zero. Reading is never refused.
pub proof fn law_xsave_reads_back(data: &[u8], o: usize, i: int, word: u32, out: KvmXsave)
    requires
        0 <= i < 1024,
        call_ensures(parse_xsave, (data, o), out),
    ensures
        written_at(data@, o + 4 * i, le_bytes(word as nat, 4)) ==> out.region@[i] == word,
        data@.len() < o + 4 * i + 4 ==> out.region@[i] == 0,
        call_requires(parse_xsave, (data, o)),
{
    lemma_room();
    if written_at(data@, o + 4 * i, le_bytes(word as nat, 4)) {
        lemma_number_reads_back(data@, o + 4 * i, word as nat, 4);
    }
}

} // verus!
