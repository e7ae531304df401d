//! Little-endian reads out of a byte slice.

use vstd::prelude::*;

verus! {

/// The number that the `n` bytes of `d` starting at `o` spell in little-endian order.
pub open spec fn le_at(d: Seq<u8>, o: int, n: nat) -> nat
    decreases n,
{
    if n == 0 {
        0
    } else {
        d[o] as nat + 256 * le_at(d, o + 1, (n - 1) as nat)
    }
}

/// The value of a byte read as a two's complement number.
pub open spec fn signed_byte(b: u8) -> int {
    if b < 128 {
        b as int
    } else {
        b - 256
    }
}

/// Reads the 64-bit number at offset `o`.
pub fn r64(d: &[u8], o: usize) -> (v: u64)
    requires
        o + 8 <= d.len(),
    ensures
        v == le_at(d@, o as int, 8),
{
    proof {
        reveal_with_fuel(le_at, 9);
    }
    d[o] as u64 + 0x100 * (d[o + 1] as u64) + 0x1_0000 * (d[o + 2] as u64) + 0x100_0000 * (d[o
        + 3] as u64) + 0x1_0000_0000 * (d[o + 4] as u64) + 0x100_0000_0000 * (d[o + 5] as u64)
        + 0x1_0000_0000_0000 * (d[o + 6] as u64) + 0x100_0000_0000_0000 * (d[o + 7] as u64)
}

/// Reads the 32-bit number at offset `o`.
pub fn r32(d: &[u8], o: usize) -> (v: u32)
    requires
        o + 4 <= d.len(),
    ensures
        v == le_at(d@, o as int, 4),
{
    proof {
        reveal_with_fuel(le_at, 5);
    }
    d[o] as u32 + 0x100 * (d[o + 1] as u32) + 0x1_0000 * (d[o + 2] as u32) + 0x100_0000 * (d[o
        + 3] as u32)
}

/// Reads the 16-bit number at offset `o`.
pub fn r16(d: &[u8], o: usize) -> (v: u16)
    requires
        o + 2 <= d.len(),
    ensures
        v == le_at(d@, o as int, 2),
{
    proof {
        reveal_with_fuel(le_at, 3);
    }
    d[o] as u16 + 0x100 * (d[o + 1] as u16)
}

/// Reinterprets a byte as a signed one, bit for bit.
pub fn signed(b: u8) -> (v: i8)
    ensures
        v == signed_byte(b),
{
    proof {
        assert((b < 128 ==> b as i8 == b) && (b >= 128 ==> b as i8 == b - 256)) by (bit_vector);
    }
    #[verifier::truncate]
    (b as i8)
}

/// Numbers of two, four and eight bytes fit the machine integers of that many bytes.
pub proof fn lemma_le_at_bound(d: Seq<u8>, o: int)
    ensures
        le_at(d, o, 2) <= u16::MAX,
        le_at(d, o, 4) <= u32::MAX,
        le_at(d, o, 8) <= u64::MAX,
{
    reveal_with_fuel(le_at, 9);
}

/// A little-endian number is fixed by the bytes it is read from.
pub proof fn lemma_le_at_same_bytes(d: Seq<u8>, o: int, e: Seq<u8>, p: int, n: nat)
    requires
        forall|k: int| 0 <= k < n ==> #[trigger] d[o + k] == e[p + k],
    ensures
        le_at(d, o, n) == le_at(e, p, n),
    decreases n,
{
    if n > 0 {
        assert(d[o + 0] == e[p + 0]);
        assert forall|k: int| 0 <= k < n - 1 implies #[trigger] d[(o + 1) + k] == e[(p + 1) + k] by {
            assert(d[o + (k + 1)] == e[p + (k + 1)]);
        }
        lemma_le_at_same_bytes(d, o + 1, e, p + 1, (n - 1) as nat);
    }
}

} // verus!
