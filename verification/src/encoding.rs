//! How the writer of a vmstate file lays its values out: the bytes that a value becomes.
//!
//! Everything here starts from the values, one field after the other in the order in which the
//! structures declare them, and knows nothing of where or how a file is read.

use crate::bytes::le_at;
use crate::kvm::{
    KvmCpuidEntry2, KvmDtable, KvmLapicState, KvmRegs, KvmSegment, KvmSregs, KvmXcr,
};
use vstd::prelude::*;

verus! {

/// `v` in `n` bytes, the lowest first.
pub open spec fn le_bytes(v: nat, n: nat) -> Seq<u8>
    decreases n,
{
    if n == 0 {
        Seq::empty()
    } else {
        seq![(v % 256) as u8] + le_bytes(v / 256, (n - 1) as nat)
    }
}

/// The values `vs` one after the other, each in `n` bytes.
pub open spec fn row(vs: Seq<nat>, n: nat) -> Seq<u8>
    decreases vs.len(),
{
    if vs.len() == 0 {
        Seq::empty()
    } else {
        row(vs.drop_last(), n) + le_bytes(vs.last(), n)
    }
}

/// The bytes `b` stand in `d` at `o`.
pub open spec fn written_at(d: Seq<u8>, o: int, b: Seq<u8>) -> bool {
    0 <= o && o + b.len() <= d.len() && d.subrange(o, o + b.len()) == b
}

/// `kvm_regs`, field by field.
pub open spec fn regs_bytes(r: KvmRegs) -> Seq<u8> {
    row(
        seq![
            r.rax as nat,
            r.rbx as nat,
            r.rcx as nat,
            r.rdx as nat,
            r.rsi as nat,
            r.rdi as nat,
            r.rsp as nat,
            r.rbp as nat,
            r.r8 as nat,
            r.r9 as nat,
            r.r10 as nat,
            r.r11 as nat,
            r.r12 as nat,
            r.r13 as nat,
            r.r14 as nat,
            r.r15 as nat,
            r.rip as nat,
            r.rflags as nat,
        ],
        8,
    )
}

/// `kvm_segment`, field by field.
pub open spec fn segment_bytes(g: KvmSegment) -> Seq<u8> {
    le_bytes(g.base as nat, 8) + le_bytes(g.limit as nat, 4) + le_bytes(g.selector as nat, 2)
        + seq![
        g.type_,
        g.present,
        g.dpl,
        g.db,
        g.s,
        g.l,
        g.g,
        g.avl,
        g.unusable,
        g.padding,
    ]
}

/// `kvm_dtable`, field by field; `padding` is what stands in its last six bytes.
pub open spec fn dtable_bytes(t: KvmDtable, padding: Seq<u8>) -> Seq<u8> {
    le_bytes(t.base as nat, 8) + le_bytes(t.limit as nat, 2) + padding
}

/// `kvm_sregs`, field by field up to the APIC base. What stands in the padding of the two
/// descriptor tables and for CR8 is given apart.
pub open spec fn sregs_bytes(
    s: KvmSregs,
    gdt_padding: Seq<u8>,
    idt_padding: Seq<u8>,
    cr8: u64,
) -> Seq<u8> {
    segment_bytes(s.cs) + segment_bytes(s.ds) + segment_bytes(s.es) + segment_bytes(s.fs)
        + segment_bytes(s.gs) + segment_bytes(s.ss) + segment_bytes(s.tr) + segment_bytes(s.ldt)
        + dtable_bytes(s.gdt, gdt_padding) + dtable_bytes(s.idt, idt_padding) + row(
        seq![
            s.cr0 as nat,
            s.cr2 as nat,
            s.cr3 as nat,
            s.cr4 as nat,
            cr8 as nat,
            s.efer as nat,
            s.apic_base as nat,
        ],
        8,
    )
}

/// The register page of the local APIC, each signed register as the byte that it is modulo 256.
pub open spec fn lapic_bytes(l: KvmLapicState) -> Seq<u8> {
    Seq::new(1024, |i: int| (l.regs@[i] as int % 256) as u8)
}

/// The I/O APIC section: base address, register select, id, interrupt requests and padding, then
/// the redirection table.
pub open spec fn ioapic_bytes(
    base: u64,
    ioregsel: u32,
    id: u32,
    irr: u32,
    pad: u32,
    tbl: Seq<u64>,
) -> Seq<u8> {
    le_bytes(base as nat, 8) + row(seq![ioregsel as nat, id as nat, irr as nat, pad as nat], 4)
        + row(tbl.map_values(|v: u64| v as nat), 8)
}

/// `kvm_xcr`, field by field.
pub open spec fn xcr_bytes(x: KvmXcr) -> Seq<u8> {
    le_bytes(x.xcr as nat, 4) + le_bytes(x.reserved as nat, 4) + le_bytes(x.value as nat, 8)
}

/// Extended control registers in a row.
pub open spec fn xcr_row(list: Seq<KvmXcr>) -> Seq<u8>
    decreases list.len(),
{
    if list.len() == 0 {
        Seq::empty()
    } else {
        xcr_row(list.drop_last()) + xcr_bytes(list.last())
    }
}

/// `kvm_xcrs` as far as it is used: the count, the flags, the registers.
pub open spec fn xcrs_bytes(flags: u32, list: Seq<KvmXcr>) -> Seq<u8> {
    le_bytes(list.len(), 4) + le_bytes(flags as nat, 4) + xcr_row(list)
}

/// A CPUID entry: the size of what follows, the seven fields, and `rest`, what stands in the
/// padding.
pub open spec fn cpuid_entry_bytes(e: KvmCpuidEntry2, rest: Seq<u8>) -> Seq<u8> {
    le_bytes(0x28, 8) + row(
        seq![
            e.function as nat,
            e.index as nat,
            e.flags as nat,
            e.eax as nat,
            e.ebx as nat,
            e.ecx as nat,
            e.edx as nat,
        ],
        4,
    ) + rest
}

/// CPUID entries in a row, each with its own padding.
pub open spec fn cpuid_entry_row(entries: Seq<KvmCpuidEntry2>, rests: Seq<Seq<u8>>) -> Seq<u8>
    decreases entries.len(),
{
    if entries.len() == 0 {
        Seq::empty()
    } else {
        cpuid_entry_row(entries.drop_last(), rests.drop_last()) + cpuid_entry_bytes(
            entries.last(),
            rests.last(),
        )
    }
}

/// A CPUID table: the count, the capacity, the entries.
pub open spec fn cpuid_table_bytes(
    capacity: nat,
    entries: Seq<KvmCpuidEntry2>,
    rests: Seq<Seq<u8>>,
) -> Seq<u8> {
    le_bytes(entries.len(), 8) + le_bytes(capacity, 8) + cpuid_entry_row(entries, rests)
}

/// The record of a model-specific register: index, reserved word, value.
pub open spec fn msr_bytes(index: nat, value: nat) -> Seq<u8> {
    le_bytes(index, 4) + le_bytes(0, 4) + le_bytes(value, 8)
}

/// How many numbers fit in `n` bytes.
pub open spec fn room(n: nat) -> nat
    decreases n,
{
    if n == 0 {
        1
    } else {
        256 * room((n - 1) as nat)
    }
}

/// The room of the sizes in use.
pub proof fn lemma_room()
    ensures
        room(2) == 0x1_0000,
        room(4) == 0x1_0000_0000,
        room(8) == 0x1_0000_0000_0000_0000,
{
    reveal_with_fuel(room, 9);
}

/// `n` bytes are `n` bytes.
pub proof fn lemma_le_bytes_len(v: nat, n: nat)
    ensures
        le_bytes(v, n).len() == n,
    decreases n,
{
    if n > 0 {
        lemma_le_bytes_len(v / 256, (n - 1) as nat);
    }
}

/// A row is as long as its values together.
pub proof fn lemma_row_len(vs: Seq<nat>, n: nat)
    ensures
        row(vs, n).len() == n * vs.len(),
    decreases vs.len(),
{
    if vs.len() > 0 {
        lemma_row_len(vs.drop_last(), n);
        lemma_le_bytes_len(vs.last(), n);
        let k = vs.drop_last().len();
        assert(n * (k + 1) == n * k + n) by (nonlinear_arith);
    } else {
        assert(n * 0 == 0) by (nonlinear_arith);
    }
}

/// Bytes that stand at `o` one group after the other stand there group by group.
pub proof fn lemma_written_parts(d: Seq<u8>, o: int, a: Seq<u8>, b: Seq<u8>)
    ensures
        written_at(d, o, a + b) <==> written_at(d, o, a) && written_at(d, o + a.len(), b),
{
    let n = a.len() as int;
    let m = b.len() as int;
    if written_at(d, o, a + b) {
        let all = d.subrange(o, o + n + m);
        assert(all == a + b);
        assert(d.subrange(o, o + n) =~= all.take(n));
        assert((a + b).take(n) =~= a);
        assert(d.subrange(o + n, o + n + m) =~= all.skip(n));
        assert((a + b).skip(n) =~= b);
    }
    if written_at(d, o, a) && written_at(d, o + n, b) {
        assert(d.subrange(o, o + n + m) =~= d.subrange(o, o + n) + d.subrange(o + n, o + n + m));
    }
}

/// A number is read as it was written.
pub proof fn lemma_number_reads_back(d: Seq<u8>, o: int, v: nat, n: nat)
    requires
        written_at(d, o, le_bytes(v, n)),
        v < room(n),
    ensures
        le_at(d, o, n) == v,
        o + n <= d.len(),
    decreases n,
{
    lemma_le_bytes_len(v, n);
    if n > 0 {
        let first = seq![(v % 256) as u8];
        let rest = le_bytes(v / 256, (n - 1) as nat);
        lemma_written_parts(d, o, first, rest);
        assert(d.subrange(o, o + 1)[0] == first[0]);
        lemma_number_reads_back(d, o + 1, v / 256, (n - 1) as nat);
    }
}

/// A number that is read stands there as it would have been written.
pub proof fn lemma_number_stands(d: Seq<u8>, o: int, n: nat)
    requires
        0 <= o,
        o + n <= d.len(),
    ensures
        written_at(d, o, le_bytes(le_at(d, o, n), n)),
        le_at(d, o, n) < room(n),
    decreases n,
{
    let v = le_at(d, o, n);
    if n > 0 {
        lemma_number_stands(d, o + 1, (n - 1) as nat);
        assert(v % 256 == d[o] as nat && v / 256 == le_at(d, o + 1, (n - 1) as nat));
        let first = seq![(v % 256) as u8];
        let rest = le_bytes(v / 256, (n - 1) as nat);
        assert(d.subrange(o, o + 1) =~= first);
        lemma_written_parts(d, o, first, rest);
    } else {
        assert(d.subrange(o, o) =~= Seq::<u8>::empty());
    }
}

/// Value `k` of a row is read as it was written.
pub proof fn lemma_row_reads_back(d: Seq<u8>, o: int, vs: Seq<nat>, n: nat, k: int)
    requires
        written_at(d, o, row(vs, n)),
        0 <= k < vs.len(),
        vs[k] < room(n),
    ensures
        le_at(d, o + n * k, n) == vs[k],
        o + n * k + n <= d.len(),
    decreases vs.len(),
{
    let front = vs.drop_last();
    lemma_row_len(front, n);
    lemma_written_parts(d, o, row(front, n), le_bytes(vs.last(), n));
    if k < front.len() {
        lemma_row_reads_back(d, o, front, n, k);
    } else {
        lemma_number_reads_back(d, o + n * k, vs.last(), n);
    }
}

/// Values that are read one after the other stand there as a row.
pub proof fn lemma_row_stands(d: Seq<u8>, o: int, vs: Seq<nat>, n: nat)
    requires
        0 <= o,
        o + n * vs.len() <= d.len(),
        forall|k: int| 0 <= k < vs.len() ==> #[trigger] vs[k] == le_at(d, o + n * k, n),
    ensures
        written_at(d, o, row(vs, n)),
    decreases vs.len(),
{
    if vs.len() > 0 {
        let front = vs.drop_last();
        let k = front.len() as int;
        assert(n * (k + 1) == n * k + n) by (nonlinear_arith);
        assert(0 <= n * k) by (nonlinear_arith)
            requires
                0 <= k,
        ;
        assert forall|j: int| 0 <= j < front.len() implies #[trigger] front[j] == le_at(
            d,
            o + n * j,
            n,
        ) by {
            assert(vs[j] == front[j]);
        }
        lemma_row_stands(d, o, front, n);
        lemma_row_len(front, n);
        assert(vs[k] == le_at(d, o + n * k, n));
        lemma_number_stands(d, o + n * k, n);
        lemma_written_parts(d, o, row(front, n), le_bytes(vs.last(), n));
    } else {
        assert(d.subrange(o, o) =~= Seq::<u8>::empty());
    }
}

} // verus!
