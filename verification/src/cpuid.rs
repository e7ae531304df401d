//! The CPUID table of a vmstate file.
//!
//! The table is stored as a count, a capacity, and then the entries, each behind an 8-byte
//! header that holds the entry's size. It lies at no fixed distance from the other sections, so
//! it is found by its first entry: leaf 0, which spells the processor vendor's name.

use crate::bytes::{le_at, r32, r64};
use crate::kvm::KvmCpuidEntry2;
use vstd::prelude::*;

verus! {

/// Header and payload of an entry together.
pub const ENTRY_SIZE: usize = 48;

/// What the header of an entry holds: the size of the payload.
pub const HEADER_VAL: u64 = 0x28;

/// The largest table that is believed.
pub const MAX_ENTRIES: u64 = 256;

/// The first four letters of a known vendor's name, AuthenticAMD or GenuineIntel, at `o`.
pub open spec fn vendor_at(d: Seq<u8>, o: int) -> bool {
    let name = d.subrange(o, o + 4);
    name == seq![0x41u8, 0x75, 0x74, 0x68] || name == seq![0x47u8, 0x65, 0x6e, 0x75]
}

/// An entry header at `o`, with the whole entry inside `d`.
pub open spec fn entry_header_at(d: Seq<u8>, o: int) -> bool {
    &&& o + ENTRY_SIZE <= d.len()
    &&& le_at(d, o, 8) == HEADER_VAL
}

/// The entry at `i`, which lies inside `d`, is leaf 0 with a known vendor.
pub open spec fn leaf_zero_at(d: Seq<u8>, i: int) -> bool {
    &&& 0 <= i <= d.len() - ENTRY_SIZE
    &&& le_at(d, i, 8) == HEADER_VAL
    &&& le_at(d, i + 8, 4) == 0
    &&& le_at(d, i + 12, 4) == 0
    &&& vendor_at(d, i + 24)
}

/// The number of entries that a table whose first entry is at `i` claims.
pub open spec fn table_count(d: Seq<u8>, i: int) -> nat {
    le_at(d, i - 16, 8)
}

/// A table starts at `i`: leaf 0 stands there behind a count of 1 to 256 and a capacity of no
/// less than the count and no more than 256, and every entry that the count claims is there.
pub open spec fn table_at(d: Seq<u8>, i: int) -> bool {
    &&& leaf_zero_at(d, i)
    &&& 16 <= i
    &&& 1 <= table_count(d, i) <= le_at(d, i - 8, 8) <= MAX_ENTRIES
    &&& forall|j: int|
        0 <= j < table_count(d, i) ==> #[trigger] entry_header_at(d, i + ENTRY_SIZE * j)
}

/// The first table of `d` starts at `i`.
pub open spec fn first_table(d: Seq<u8>, i: int) -> bool {
    &&& table_at(d, i)
    &&& forall|j: int| 0 <= j < i ==> !#[trigger] table_at(d, j)
}

/// `e` holds the entry whose header is at `o`; its padding is zero whatever the file holds.
pub open spec fn cpuid_entry_at(d: Seq<u8>, o: int, e: KvmCpuidEntry2) -> bool {
    &&& e.function == le_at(d, o + 8, 4)
    &&& e.index == le_at(d, o + 12, 4)
    &&& e.flags == le_at(d, o + 16, 4)
    &&& e.eax == le_at(d, o + 20, 4)
    &&& e.ebx == le_at(d, o + 24, 4)
    &&& e.ecx == le_at(d, o + 28, 4)
    &&& e.edx == le_at(d, o + 32, 4)
    &&& forall|k: int| 0 <= k < 3 ==> #[trigger] e.padding@[k] == 0
}

/// `entries` are the entries, in file order, of the table that starts at `i`.
pub open spec fn table_entries(d: Seq<u8>, i: int, entries: Seq<KvmCpuidEntry2>) -> bool {
    &&& entries.len() == table_count(d, i)
    &&& forall|j: int|
        0 <= j < entries.len() ==> cpuid_entry_at(d, i + ENTRY_SIZE * j, #[trigger] entries[j])
}

/// `entries` are the entries of the first table of `d`, or none where `d` has no table.
pub open spec fn cpuid_entries(d: Seq<u8>, entries: Seq<KvmCpuidEntry2>) -> bool {
    ||| exists|i: int| first_table(d, i) && #[trigger] table_entries(d, i, entries)
    ||| entries.len() == 0 && forall|i: int| !#[trigger] table_at(d, i)
}

/// Whether a known vendor's name starts at `o`.
fn is_vendor(d: &[u8], o: usize) -> (b: bool)
    requires
        o + 4 <= d.len(),
    ensures
        b == vendor_at(d@, o as int),
{
    let amd: bool = d[o] == 0x41 && d[o + 1] == 0x75 && d[o + 2] == 0x74 && d[o + 3] == 0x68;
    let intel: bool = d[o] == 0x47 && d[o + 1] == 0x65 && d[o + 2] == 0x6e && d[o + 3] == 0x75;
    proof {
        let name = d@.subrange(o as int, o + 4);
        let amd_name = seq![0x41u8, 0x75, 0x74, 0x68];
        let intel_name = seq![0x47u8, 0x65, 0x6e, 0x75];
        assert(name[0] == d@[o as int] && name[1] == d@[o + 1] && name[2] == d@[o + 2] && name[3]
            == d@[o + 3]);
        if amd {
            assert(name =~= amd_name);
        }
        if intel {
            assert(name =~= intel_name);
        }
        assert(amd_name[0] == 0x41 && amd_name[1] == 0x75 && amd_name[2] == 0x74 && amd_name[3]
            == 0x68);
        assert(intel_name[0] == 0x47 && intel_name[1] == 0x65 && intel_name[2] == 0x6e
            && intel_name[3] == 0x75);
    }
    amd || intel
}

/// Reads the `count` entries from `i` on; `None` where one of them is cut off or has another
/// header.
fn read_entries(data: &[u8], i: usize, count: usize) -> (res: Option<Vec<KvmCpuidEntry2>>)
    requires
        i <= data.len(),
        count <= 256,
    ensures
        match res {
            Some(entries) => {
                &&& entries@.len() == count
                &&& forall|j: int|
                    0 <= j < count ==> #[trigger] entry_header_at(data@, i + ENTRY_SIZE * j)
                &&& forall|j: int|
                    0 <= j < count ==> cpuid_entry_at(
                        data@,
                        i + ENTRY_SIZE * j,
                        #[trigger] entries@[j],
                    )
            },
            None => exists|j: int|
                0 <= j < count && !#[trigger] entry_header_at(data@, i + ENTRY_SIZE * j),
        },
{
    let mut entries: Vec<KvmCpuidEntry2> = Vec::with_capacity(count);
    let mut j: usize = 0;
    while j < count
        invariant
            j <= count <= 256,
            i <= data.len(),
            entries@.len() == j,
            forall|k: int| 0 <= k < j ==> #[trigger] entry_header_at(data@, i + ENTRY_SIZE * k),
            forall|k: int|
                0 <= k < j ==> cpuid_entry_at(data@, i + ENTRY_SIZE * k, #[trigger] entries@[k]),
        decreases count - j,
    {
        if data.len() - i < j * ENTRY_SIZE + ENTRY_SIZE {
            assert(!entry_header_at(data@, i + ENTRY_SIZE * (j as int)));
            return None;
        }
        let off: usize = i + j * ENTRY_SIZE;
        if r64(data, off) != HEADER_VAL {
            assert(!entry_header_at(data@, i + ENTRY_SIZE * (j as int)));
            return None;
        }
        let entry: KvmCpuidEntry2 = KvmCpuidEntry2 {
            function: r32(data, off + 8),
            index: r32(data, off + 12),
            flags: r32(data, off + 16),
            eax: r32(data, off + 20),
            ebx: r32(data, off + 24),
            ecx: r32(data, off + 28),
            edx: r32(data, off + 32),
            padding: [0u32; 3],
        };
        entries.push(entry);
        j = j + 1;
    }
    Some(entries)
}

/// Reads the first CPUID table of a file; no entries where it has none.
pub fn parse_cpuid(data: &[u8]) -> (entries: Vec<KvmCpuidEntry2>)
    ensures
        cpuid_entries(data@, entries@),
{
    let n: usize = data.len();
    let mut i: usize = 0;
    while n >= ENTRY_SIZE && i <= n - ENTRY_SIZE
        invariant
            n == data.len(),
            forall|j: int| 0 <= j < i ==> !#[trigger] table_at(data@, j),
        decreases n - i,
    {
        if r64(data, i) == HEADER_VAL && r32(data, i + 8) == 0 && r32(data, i + 12) == 0
            && is_vendor(data, i + 24) && i >= 16 {
            let count: u64 = r64(data, i - 16);
            let capacity: u64 = r64(data, i - 8);
            if count != 0 && count <= MAX_ENTRIES && capacity >= count && capacity <= MAX_ENTRIES {
                let found: Option<Vec<KvmCpuidEntry2>> = read_entries(data, i, count as usize);
                if let Some(entries) = found {
                    assert(first_table(data@, i as int));
                    assert(table_entries(data@, i as int, entries@));
                    return entries;
                }
            }
        }
        i = i + 1;
    }
    Vec::new()
}

} // verus!
