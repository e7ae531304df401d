//! What is read out of the two tables that lie anywhere in a vmstate file, the model-specific
//! registers and CPUID, is what was written into them, and a file's state is its parts.

use crate::bytes::{le_at, lemma_le_at_bound};
use crate::cpuid::{
    cpuid_entry_at, entry_header_at, first_table, leaf_zero_at, parse_cpuid, table_at,
    table_entries, vendor_at, ENTRY_SIZE,
};
use crate::encoding::{
    cpuid_entry_bytes, cpuid_entry_row, cpuid_table_bytes, le_bytes, lemma_le_bytes_len,
    lemma_number_reads_back, lemma_number_stands, lemma_room, lemma_row_len, lemma_row_reads_back,
    lemma_row_stands, lemma_written_parts, msr_bytes, row, written_at,
};
use crate::kvm::{KvmCpuidEntry2, KvmMsrEntry};
use crate::laws::{law_last_record_is_read, law_msrs_in_file_order};
use crate::msrs::{is_wanted, last_record_at, msr_record_at, parse_msrs};
use vstd::prelude::*;

verus! {

/// The values that a restored guest can have in the registers that it needs: STAR not zero, LSTAR
/// and CSTAR in the kernel's half of the address space or zero, any flag mask and kernel GS base,
/// and the two pages of the KVM clock below 4 GiB but not at zero.
pub open spec fn believable(index: u32, value: u64) -> bool {
    match index {
        0xc0000081 => 1 <= value,
        0xc0000082 => value == 0 || 0xffffffff80000001 <= value,
        0xc0000083 => value == 0 || 0xffffffff80000001 <= value,
        0xc0000084 => true,
        0xc0000102 => true,
        0x4b564d00 => 1 <= value <= 0xffffffff,
        0x4b564d01 => 1 <= value <= 0xffffffff,
        _ => false,
    }
}

/// The record of register `index` with a believable `value` stands at `i`, and some byte follows.
pub open spec fn msr_stands(d: Seq<u8>, i: int, index: u32, value: u64) -> bool {
    &&& believable(index, value)
    &&& written_at(d, i, msr_bytes(index as nat, value as nat))
    &&& i + 16 < d.len()
}

/// A register is believed with exactly the values that it can have.
pub proof fn law_believable_values_are_wanted(index: u32, value: u64, b: bool)
    requires
        call_ensures(is_wanted, (index, value), b),
    ensures
        b <==> believable(index, value),
        call_requires(is_wanted, (index, value)),
{
}

proof fn lemma_msr_stands(d: Seq<u8>, i: int, index: u32, value: u64)
    ensures
        msr_stands(d, i, index, value) <==> msr_record_at(d, i) && le_at(d, i, 4) == index && le_at(
            d,
            i + 8,
            8,
        ) == value,
{
    let a = le_bytes(index as nat, 4);
    let z = le_bytes(0, 4);
    let v = le_bytes(value as nat, 8);
    lemma_room();
    lemma_le_bytes_len(index as nat, 4);
    lemma_le_bytes_len(0, 4);
    lemma_le_bytes_len(value as nat, 8);
    lemma_written_parts(d, i, a + z, v);
    lemma_written_parts(d, i, a, z);
    if msr_stands(d, i, index, value) {
        lemma_number_reads_back(d, i, index as nat, 4);
        lemma_number_reads_back(d, i + 4, 0, 4);
        lemma_number_reads_back(d, i + 8, value as nat, 8);
    }
    if msr_record_at(d, i) && le_at(d, i, 4) == index && le_at(d, i + 8, 8) == value {
        lemma_number_stands(d, i, 4);
        lemma_number_stands(d, i + 4, 4);
        lemma_number_stands(d, i + 8, 8);
    }
}

/// A register whose record stands in a file, with no other record of it behind, is read with the
/// value of that record.
pub proof fn law_standing_msr_is_read(
    data: &[u8],
    i: int,
    index: u32,
    value: u64,
    out: Vec<KvmMsrEntry>,
)
    requires
        msr_stands(data@, i, index, value),
        forall|j: int, other: u64| i < j ==> !#[trigger] msr_stands(data@, j, index, other),
        call_ensures(parse_msrs, (data,), out),
    ensures
        out@.contains(KvmMsrEntry { index, reserved: 0, data: value }),
{
    let d = data@;
    lemma_msr_stands(d, i, index, value);
    assert forall|j: int| i < j && #[trigger] msr_record_at(d, j) implies le_at(d, j, 4) != le_at(
        d,
        i,
        4,
    ) by {
        lemma_le_at_bound(d, j + 8);
        let other = le_at(d, j + 8, 8) as u64;
        lemma_msr_stands(d, j, index, other);
        assert(!msr_stands(d, j, index, other));
    }
    law_last_record_is_read(d, i);
}

/// Every register that is read stands in the file with its value, and no other record of it
/// stands behind. The registers come in the order in which these records stand: `places` says
/// where. Every file is read.
pub proof fn law_read_msrs_stand(data: &[u8], out: Vec<KvmMsrEntry>) -> (places: Seq<int>)
    requires
        call_ensures(parse_msrs, (data,), out),
    ensures
        places.len() == out@.len(),
        forall|j: int, k: int| 0 <= j < k < places.len() ==> places[j] < places[k],
        forall|k: int|
            0 <= k < places.len() ==> (#[trigger] out@[k]).reserved == 0 && msr_stands(
                data@,
                places[k],
                out@[k].index,
                out@[k].data,
            ),
        forall|k: int, j: int, other: u64|
            0 <= k < places.len() && places[k] < j ==> !#[trigger] msr_stands(
                data@,
                j,
                out@[k].index,
                other,
            ),
        call_requires(parse_msrs, (data,)),
{
    let d = data@;
    let places = law_msrs_in_file_order(d);
    assert forall|k: int| 0 <= k < places.len() implies (#[trigger] out@[k]).reserved == 0
        && msr_stands(d, places[k], out@[k].index, out@[k].data) by {
        assert(last_record_at(d, places[k]));
        lemma_le_at_bound(d, places[k]);
        lemma_le_at_bound(d, places[k] + 8);
        lemma_msr_stands(d, places[k], out@[k].index, out@[k].data);
    }
    assert forall|k: int, j: int, other: u64|
        0 <= k < places.len() && places[k] < j implies !#[trigger] msr_stands(
        d,
        j,
        out@[k].index,
        other,
    ) by {
        assert(last_record_at(d, places[k]));
        lemma_le_at_bound(d, places[k]);
        lemma_msr_stands(d, j, out@[k].index, other);
    }
    places
}

/// What a writer can have put into a CPUID table: 1 to 256 entries within the capacity, of which
/// the first is leaf 0 with the name of AMD ("Auth") or Intel ("Genu"), and padding of 12 bytes
/// each.
pub open spec fn sound_table(
    capacity: nat,
    entries: Seq<KvmCpuidEntry2>,
    rests: Seq<Seq<u8>>,
) -> bool {
    &&& 1 <= entries.len() <= capacity <= 256
    &&& entries[0].function == 0
    &&& entries[0].index == 0
    &&& entries[0].ebx == 0x68747541 || entries[0].ebx == 0x756e6547
    &&& rests.len() == entries.len()
    &&& forall|k: int| 0 <= k < rests.len() ==> (#[trigger] rests[k]).len() == 12
    &&& forall|k: int|
        0 <= k < entries.len() ==> (#[trigger] entries[k]).padding@ == seq![0u32, 0, 0]
}

/// Such a table stands at `i`.
pub open spec fn table_stands(
    d: Seq<u8>,
    i: int,
    capacity: nat,
    entries: Seq<KvmCpuidEntry2>,
    rests: Seq<Seq<u8>>,
) -> bool {
    sound_table(capacity, entries, rests) && written_at(
        d,
        i,
        cpuid_table_bytes(capacity, entries, rests),
    )
}

/// The fields of an entry, in order.
spec fn cpuid_fields(e: KvmCpuidEntry2) -> Seq<nat> {
    seq![
        e.function as nat,
        e.index as nat,
        e.flags as nat,
        e.eax as nat,
        e.ebx as nat,
        e.ecx as nat,
        e.edx as nat,
    ]
}

/// An entry stands at `o` exactly where the parser finds its header and its fields.
proof fn lemma_entry_stands(d: Seq<u8>, o: int, e: KvmCpuidEntry2, rest: Seq<u8>)
    requires
        rest.len() == 12,
        e.padding@ == seq![0u32, 0, 0],
    ensures
        written_at(d, o, cpuid_entry_bytes(e, rest)) ==> entry_header_at(d, o) && cpuid_entry_at(
            d,
            o,
            e,
        ),
        0 <= o && entry_header_at(d, o) && cpuid_entry_at(d, o, e) && rest == d.subrange(
            o + 36,
            o + 48,
        ) ==> written_at(d, o, cpuid_entry_bytes(e, rest)),
        cpuid_entry_bytes(e, rest).len() == 48,
{
    let h = le_bytes(0x28, 8);
    let vs = cpuid_fields(e);
    lemma_room();
    lemma_le_bytes_len(0x28, 8);
    lemma_row_len(vs, 4);
    lemma_written_parts(d, o, h + row(vs, 4), rest);
    lemma_written_parts(d, o, h, row(vs, 4));
    if written_at(d, o, cpuid_entry_bytes(e, rest)) {
        lemma_number_reads_back(d, o, 0x28, 8);
        lemma_row_reads_back(d, o + 8, vs, 4, 0);
        lemma_row_reads_back(d, o + 8, vs, 4, 1);
        lemma_row_reads_back(d, o + 8, vs, 4, 2);
        lemma_row_reads_back(d, o + 8, vs, 4, 3);
        lemma_row_reads_back(d, o + 8, vs, 4, 4);
        lemma_row_reads_back(d, o + 8, vs, 4, 5);
        lemma_row_reads_back(d, o + 8, vs, 4, 6);
    }
    if 0 <= o && entry_header_at(d, o) && cpuid_entry_at(d, o, e) && rest == d.subrange(
        o + 36,
        o + 48,
    ) {
        lemma_number_stands(d, o, 8);
        lemma_row_stands(d, o + 8, vs, 4);
    }
}

/// The parser finds each of `entries`, the first at `o`.
spec fn entries_found(d: Seq<u8>, o: int, entries: Seq<KvmCpuidEntry2>) -> bool {
    forall|k: int| 0 <= k < entries.len() ==> entry_found(d, o + 48 * k, #[trigger] entries[k])
}

/// The parser finds entry `e` at `o`.
spec fn entry_found(d: Seq<u8>, o: int, e: KvmCpuidEntry2) -> bool {
    entry_header_at(d, o) && cpuid_entry_at(d, o, e)
}

/// `rests` is what stands in the padding of the entries from `o` on.
spec fn rests_found(d: Seq<u8>, o: int, rests: Seq<Seq<u8>>) -> bool {
    forall|k: int|
        0 <= k < rests.len() ==> #[trigger] rests[k] == d.subrange(
            o + 48 * k + 36,
            o + 48 * k + 48,
        )
}

/// Entries stand in a row exactly where the parser finds each of them.
proof fn lemma_entry_row_stands(
    d: Seq<u8>,
    o: int,
    entries: Seq<KvmCpuidEntry2>,
    rests: Seq<Seq<u8>>,
)
    requires
        rests.len() == entries.len(),
        forall|k: int| 0 <= k < rests.len() ==> (#[trigger] rests[k]).len() == 12,
        forall|k: int|
            0 <= k < entries.len() ==> (#[trigger] entries[k]).padding@ == seq![0u32, 0, 0],
    ensures
        cpuid_entry_row(entries, rests).len() == 48 * entries.len(),
        written_at(d, o, cpuid_entry_row(entries, rests)) ==> entries_found(d, o, entries),
        0 <= o <= d.len() && entries_found(d, o, entries) && rests_found(d, o, rests)
            ==> written_at(d, o, cpuid_entry_row(entries, rests)),
    decreases entries.len(),
{
    if entries.len() > 0 {
        let es = entries.drop_last();
        let rs = rests.drop_last();
        let n = es.len() as int;
        assert forall|k: int| 0 <= k < n implies (#[trigger] rs[k]).len() == 12 by {
            assert(rests[k].len() == 12);
        }
        assert forall|k: int| 0 <= k < n implies (#[trigger] es[k]).padding@ == seq![
            0u32,
            0,
            0,
        ] by {
            assert(entries[k].padding@ == seq![0u32, 0, 0]);
        }
        lemma_entry_row_stands(d, o, es, rs);
        assert(rests[n].len() == 12 && entries[n].padding@ == seq![0u32, 0, 0]);
        lemma_entry_stands(d, o + 48 * n, entries[n], rests[n]);
        lemma_written_parts(
            d,
            o,
            cpuid_entry_row(es, rs),
            cpuid_entry_bytes(entries.last(), rests.last()),
        );
        if written_at(d, o, cpuid_entry_row(entries, rests)) {
            assert forall|k: int| 0 <= k < entries.len() implies entry_found(
                d,
                o + 48 * k,
                #[trigger] entries[k],
            ) by {
                if k < n {
                    assert(es[k] == entries[k]);
                }
            }
            assert(entries_found(d, o, entries));
        }
        if 0 <= o <= d.len() && entries_found(d, o, entries) && rests_found(d, o, rests) {
            assert forall|k: int| 0 <= k < n implies entry_found(
                d,
                o + 48 * k,
                #[trigger] es[k],
            ) by {
                assert(es[k] == entries[k]);
            }
            assert forall|k: int| 0 <= k < n implies #[trigger] rs[k] == d.subrange(
                o + 48 * k + 36,
                o + 48 * k + 48,
            ) by {
                assert(rs[k] == rests[k]);
            }
            assert(entries_found(d, o, es) && rests_found(d, o, rs));
            assert(entry_found(d, o + 48 * n, entries[n]));
            assert(rests[n] == d.subrange(o + 48 * n + 36, o + 48 * n + 48));
        }
    } else {
        if 0 <= o <= d.len() {
            assert(d.subrange(o, o) =~= Seq::<u8>::empty());
        }
    }
}

/// The vendor's name as a number and as letters.
proof fn lemma_vendor(d: Seq<u8>, o: int)
    requires
        0 <= o,
        o + 4 <= d.len(),
    ensures
        vendor_at(d, o) <==> le_at(d, o, 4) == 0x68747541 || le_at(d, o, 4) == 0x756e6547,
{
    let name = d.subrange(o, o + 4);
    let amd = seq![0x41u8, 0x75, 0x74, 0x68];
    let intel = seq![0x47u8, 0x65, 0x6e, 0x75];
    assert(name[0] == d[o] && name[1] == d[o + 1] && name[2] == d[o + 2] && name[3] == d[o + 3]);
    reveal_with_fuel(le_at, 5);
    if le_at(d, o, 4) == 0x68747541 {
        assert(name =~= amd);
    }
    if le_at(d, o, 4) == 0x756e6547 {
        assert(name =~= intel);
    }
    assert(amd[0] == 0x41 && amd[1] == 0x75 && amd[2] == 0x74 && amd[3] == 0x68);
    assert(intel[0] == 0x47 && intel[1] == 0x65 && intel[2] == 0x6e && intel[3] == 0x75);
}

/// A table that stands in a file is found by the parser.
proof fn lemma_standing_table(
    d: Seq<u8>,
    i: int,
    capacity: nat,
    entries: Seq<KvmCpuidEntry2>,
    rests: Seq<Seq<u8>>,
)
    requires
        table_stands(d, i, capacity, entries, rests),
    ensures
        table_at(d, i + 16),
        table_entries(d, i + 16, entries),
{
    let count = le_bytes(entries.len(), 8);
    let cap = le_bytes(capacity, 8);
    lemma_room();
    lemma_le_bytes_len(entries.len(), 8);
    lemma_le_bytes_len(capacity, 8);
    lemma_written_parts(d, i, count + cap, cpuid_entry_row(entries, rests));
    lemma_written_parts(d, i, count, cap);
    lemma_number_reads_back(d, i, entries.len(), 8);
    lemma_number_reads_back(d, i + 8, capacity, 8);
    lemma_entry_row_stands(d, i + 16, entries, rests);
    assert forall|k: int| 0 <= k < entries.len() implies #[trigger] entry_header_at(
        d,
        i + 16 + ENTRY_SIZE * k,
    ) by {
        assert(entry_found(d, i + 16 + 48 * k, entries[k]));
    }
    assert(entry_header_at(d, i + 16 + ENTRY_SIZE * 0));
    assert(entry_found(d, i + 16 + 48 * 0, entries[0]));
    lemma_vendor(d, i + 16 + 24);
    assert(leaf_zero_at(d, i + 16));
}

/// A table that the parser finds stands in the file.
proof fn lemma_found_table(d: Seq<u8>, i: int, entries: Seq<KvmCpuidEntry2>) -> (found: (
    nat,
    Seq<Seq<u8>>,
))
    requires
        table_at(d, i),
        table_entries(d, i, entries),
    ensures
        table_stands(d, i - 16, found.0, entries, found.1),
{
    let capacity = le_at(d, i - 8, 8);
    let rests = Seq::new(
        entries.len(),
        |k: int| d.subrange(i + 48 * k + 36, i + 48 * k + 48),
    );
    assert forall|k: int| 0 <= k < entries.len() implies entry_found(
        d,
        i + 48 * k,
        #[trigger] entries[k],
    ) by {
        assert(entry_header_at(d, i + ENTRY_SIZE * k));
    }
    assert forall|k: int| 0 <= k < rests.len() implies (#[trigger] rests[k]).len() == 12 by {
        assert(entry_found(d, i + 48 * k, entries[k]));
    }
    assert forall|k: int| 0 <= k < entries.len() implies (#[trigger] entries[k]).padding@ == seq![
        0u32,
        0,
        0,
    ] by {
        assert(entry_found(d, i + 48 * k, entries[k]));
        assert(entries[k].padding@ =~= seq![0u32, 0, 0]);
    }
    assert(entries_found(d, i, entries) && rests_found(d, i, rests));
    lemma_entry_row_stands(d, i, entries, rests);
    assert(entry_found(d, i + 48 * 0, entries[0]));
    lemma_vendor(d, i + 24);
    let count = le_bytes(entries.len(), 8);
    let cap = le_bytes(capacity, 8);
    lemma_le_bytes_len(entries.len(), 8);
    lemma_le_bytes_len(capacity, 8);
    lemma_number_stands(d, i - 16, 8);
    lemma_number_stands(d, i - 8, 8);
    lemma_written_parts(d, i - 16, count + cap, cpuid_entry_row(entries, rests));
    lemma_written_parts(d, i - 16, count, cap);
    (capacity, rests)
}

proof fn lemma_same_entries(d: Seq<u8>, i: int, a: Seq<KvmCpuidEntry2>, b: Seq<KvmCpuidEntry2>)
    requires
        table_entries(d, i, a),
        table_entries(d, i, b),
    ensures
        a == b,
{
    assert forall|k: int| 0 <= k < a.len() implies a[k] == b[k] by {
        assert(cpuid_entry_at(d, i + ENTRY_SIZE * k, a[k]));
        assert(cpuid_entry_at(d, i + ENTRY_SIZE * k, b[k]));
        assert(a[k].padding =~= b[k].padding);
    }
    assert(a =~= b);
}

/// A CPUID table is read back entry by entry, whatever its padding and whatever bytes stand
/// before and behind it, as long as no entry's header stands before its first entry.
pub proof fn law_cpuid_table_reads_back(
    data: &[u8],
    front: Seq<u8>,
    capacity: nat,
    entries: Seq<KvmCpuidEntry2>,
    rests: Seq<Seq<u8>>,
    tail: Seq<u8>,
    out: Vec<KvmCpuidEntry2>,
)
    requires
        sound_table(capacity, entries, rests),
        data@ == front + cpuid_table_bytes(capacity, entries, rests) + tail,
        forall|j: int|
            16 <= j < front.len() + 16 ==> !#[trigger] written_at(data@, j, le_bytes(0x28, 8)),
        call_ensures(parse_cpuid, (data,), out),
    ensures
        out@ == entries,
        call_requires(parse_cpuid, (data,)),
{
    let d = data@;
    let i = front.len() as int;
    let table = cpuid_table_bytes(capacity, entries, rests);
    assert(d.subrange(i, i + table.len()) =~= table);
    lemma_standing_table(d, i, capacity, entries, rests);
    assert forall|j: int| 0 <= j < i + 16 implies !#[trigger] table_at(d, j) by {
        if table_at(d, j) {
            lemma_number_stands(d, j, 8);
            assert(!written_at(d, j, le_bytes(0x28, 8)));
        }
    }
    let c = choose|c: int| first_table(d, c) && #[trigger] table_entries(d, c, out@);
    assert(first_table(d, c) && table_entries(d, c, out@)) by {
        if out@.len() == 0 && forall|k: int| !#[trigger] table_at(d, k) {
            assert(table_at(d, i + 16));
        }
    }
    assert(c == i + 16) by {
        if c > i + 16 {
            assert(!table_at(d, i + 16));
        }
    }
    lemma_same_entries(d, c, out@, entries);
}

/// CPUID entries that are read stand in the file as a table, and no table stands before it. None
/// are read exactly where no table stands anywhere.
pub proof fn law_read_cpuid_table_stands(data: &[u8], out: Vec<KvmCpuidEntry2>) -> (found: (
    int,
    nat,
    Seq<Seq<u8>>,
))
    requires
        call_ensures(parse_cpuid, (data,), out),
    ensures
        out@.len() > 0 ==> table_stands(data@, found.0, found.1, out@, found.2),
        forall|i: int, capacity: nat, entries: Seq<KvmCpuidEntry2>, rests: Seq<Seq<u8>>| #[trigger]
            table_stands(data@, i, capacity, entries, rests) ==> out@.len() > 0 && found.0 <= i,
{
    let d = data@;
    if exists|c: int| first_table(d, c) && #[trigger] table_entries(d, c, out@) {
        let c = choose|c: int| first_table(d, c) && #[trigger] table_entries(d, c, out@);
        let table = lemma_found_table(d, c, out@);
        assert forall|
            i: int,
            capacity: nat,
            entries: Seq<KvmCpuidEntry2>,
            rests: Seq<Seq<u8>>,
        | #[trigger] table_stands(d, i, capacity, entries, rests) implies out@.len() > 0 && c - 16
            <= i by {
            lemma_standing_table(d, i, capacity, entries, rests);
            if i + 16 < c {
                assert(!table_at(d, i + 16));
            }
        }
        (c - 16, table.0, table.1)
    } else {
        assert forall|
            i: int,
            capacity: nat,
            entries: Seq<KvmCpuidEntry2>,
            rests: Seq<Seq<u8>>,
        | !(#[trigger] table_stands(d, i, capacity, entries, rests)) by {
            if table_stands(d, i, capacity, entries, rests) {
                lemma_standing_table(d, i, capacity, entries, rests);
                assert(table_at(d, i + 16));
            }
        }
        (0, 0, Seq::empty())
    }
}

} // verus!
