//! The model-specific registers of a vmstate file.
//!
//! Register records (index, reserved word, value) are recognised wherever they stand, byte by
//! byte, by a short list of indices that a restored guest needs and by the values that these
//! can have.

use crate::bytes::{le_at, lemma_le_at_bound, r32, r64};
use crate::kvm::KvmMsrEntry;
use vstd::prelude::*;

verus! {

/// Whether register `index` is wanted and `value` is believable for it: the system call
/// segments (not zero), the system call entry points (kernel addresses, or zero), the flag mask
/// and the kernel GS base (anything), and the two KVM clock pages (below 4 GiB, not zero).
pub open spec fn wanted(index: nat, value: nat) -> bool {
    ||| index == 0xc0000081 && value != 0
    ||| (index == 0xc0000082 || index == 0xc0000083) && (value > 0xffffffff80000000 || value == 0)
    ||| index == 0xc0000084
    ||| index == 0xc0000102
    ||| (index == 0x4b564d00 || index == 0x4b564d01) && 0 < value < 0x100000000
}

/// The 16 bytes at `i` are the record of a wanted register, and some byte follows them.
pub open spec fn msr_record_at(d: Seq<u8>, i: int) -> bool {
    &&& 0 <= i < d.len() - 16
    &&& le_at(d, i + 4, 4) == 0
    &&& wanted(le_at(d, i, 4), le_at(d, i + 8, 8))
}

/// The record at `i` is the last of `d` for its register.
pub open spec fn last_record_at(d: Seq<u8>, i: int) -> bool {
    &&& msr_record_at(d, i)
    &&& forall|j: int|
        i < j && #[trigger] msr_record_at(d, j) ==> le_at(d, j, 4) != le_at(d, i, 4)
}

/// The register that the record at `i` sets.
pub open spec fn msr_entry(d: Seq<u8>, i: int) -> KvmMsrEntry {
    KvmMsrEntry { index: le_at(d, i, 4) as u32, reserved: 0, data: le_at(d, i + 8, 8) as u64 }
}

/// Of each wanted register the last record, as far as it lies at `i` or behind, in file order.
pub open spec fn last_records(d: Seq<u8>, i: int) -> Seq<KvmMsrEntry>
    decreases d.len() - i,
{
    if i >= d.len() - 16 {
        Seq::empty()
    } else if last_record_at(d, i) {
        seq![msr_entry(d, i)] + last_records(d, i + 1)
    } else {
        last_records(d, i + 1)
    }
}

/// `entries` set register `index`.
pub open spec fn sets(entries: Seq<KvmMsrEntry>, index: nat) -> bool {
    exists|k: int| 0 <= k < entries.len() && #[trigger] entries[k].index == index
}

/// A register is set by the last records from `i` on exactly where one of its records lies
/// there.
pub proof fn lemma_last_records_set(d: Seq<u8>, i: int, index: nat)
    requires
        0 <= i,
    ensures
        sets(last_records(d, i), index) <==> exists|j: int|
            i <= j && #[trigger] msr_record_at(d, j) && le_at(d, j, 4) == index,
    decreases d.len() - i,
{
    if i >= d.len() - 16 {
        assert(!sets(last_records(d, i), index));
    } else {
        lemma_last_records_set(d, i + 1, index);
        let rest = last_records(d, i + 1);
        let all = last_records(d, i);
        lemma_le_at_bound(d, i);
        if last_record_at(d, i) {
            assert(all == seq![msr_entry(d, i)] + rest);
            if le_at(d, i, 4) == index {
                assert(all[0].index == index);
                assert(msr_record_at(d, i));
            } else {
                if sets(all, index) {
                    let k = choose|k: int| 0 <= k < all.len() && #[trigger] all[k].index == index;
                    assert(rest[k - 1].index == index);
                }
                if sets(rest, index) {
                    let k = choose|k: int| 0 <= k < rest.len() && #[trigger] rest[k].index == index;
                    assert(all[k + 1].index == index);
                }
            }
        } else {
            assert(all == rest);
            if msr_record_at(d, i) && le_at(d, i, 4) == index {
                let j = choose|j: int|
                    i < j && #[trigger] msr_record_at(d, j) && le_at(d, j, 4) == le_at(d, i, 4);
                assert(msr_record_at(d, j));
                assert(i + 1 <= j && le_at(d, j, 4) == index);
            }
        }
    }
}

/// Whether `value` is believable for the wanted register `index`.
pub fn is_wanted(index: u32, value: u64) -> (b: bool)
    ensures
        b == wanted(index as nat, value as nat),
{
    match index {
        0xc0000081 => value != 0,
        0xc0000082 | 0xc0000083 => value > 0xffffffff80000000 || value == 0,
        0xc0000084 | 0xc0000102 => true,
        0x4b564d00 | 0x4b564d01 => value != 0 && value < 0x100000000,
        _ => false,
    }
}

/// Whether one of `entries` sets register `index`.
fn is_set(entries: &Vec<KvmMsrEntry>, index: u32) -> (b: bool)
    ensures
        b == sets(entries@, index as nat),
{
    let mut k: usize = 0;
    while k < entries.len()
        invariant
            k <= entries@.len(),
            forall|m: int| 0 <= m < k ==> #[trigger] entries@[m].index != index,
        decreases entries@.len() - k,
    {
        if entries[k].index == index {
            assert(entries@[k as int].index == index as nat);
            return true;
        }
        k = k + 1;
    }
    false
}

/// Reads the wanted registers of a file. Of several records for one register the last counts,
/// and the registers come in the order of the records that count.
pub fn parse_msrs(data: &[u8]) -> (entries: Vec<KvmMsrEntry>)
    ensures
        entries@ == last_records(data@, 0),
{
    let mut entries: Vec<KvmMsrEntry> = Vec::new();
    let n: usize = data.len();
    let mut i: usize = if n >= 16 {
        n - 16
    } else {
        0
    };
    while i > 0
        invariant
            n == data.len(),
            i > 0 ==> i + 16 <= n,
            entries@ == last_records(data@, i as int),
        decreases i,
    {
        i = i - 1;
        let index: u32 = r32(data, i);
        let value: u64 = r64(data, i + 8);
        proof {
            lemma_last_records_set(data@, i + 1, index as nat);
        }
        if r32(data, i + 4) == 0 && is_wanted(index, value) && !is_set(&entries, index) {
            let ghost rest = entries@;
            assert forall|j: int| i < j && #[trigger] msr_record_at(data@, j) implies le_at(
                data@,
                j,
                4,
            ) != le_at(data@, i as int, 4) by {
                assert(i + 1 <= j);
            }
            assert(last_record_at(data@, i as int));
            entries.insert(0, KvmMsrEntry { index, reserved: 0, data: value });
            assert(entries@ =~= seq![msr_entry(data@, i as int)] + rest);
        } else {
            assert(!last_record_at(data@, i as int)) by {
                if msr_record_at(data@, i as int) {
                    let j = choose|j: int|
                        i + 1 <= j && #[trigger] msr_record_at(data@, j) && le_at(data@, j, 4)
                            == index as nat;
                    assert(msr_record_at(data@, j));
                }
            }
        }
    }
    entries
}

} // verus!
