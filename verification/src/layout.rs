//! Where the sections of a vmstate file lie.
//!
//! The offsets below are those of one known file, written by Firecracker v1.12.0 for one
//! x86_64 vCPU. In other files the sections keep their distances but start earlier or later,
//! because variable-length sections precede them. The I/O APIC section starts with a well-known
//! address, which serves as the anchor from which the displacement is found.

use crate::bytes::{le_at, r64};
use vstd::prelude::*;

verus! {

pub const REF_IOAPIC: usize = 0x0591;

pub const REF_LAPIC: usize = 0x2541;

pub const REF_REGS: usize = 0x2955;

pub const REF_SEGS: usize = 0x29ED;

pub const REF_GDT: usize = 0x2AAD;

pub const REF_IDT: usize = 0x2ABD;

pub const REF_CR: usize = 0x2ACD;

pub const REF_EFER: usize = 0x2AF5;

pub const REF_APIC_BASE: usize = 0x2AFD;

pub const REF_XCRS: usize = 0x2B75;

pub const REF_XSAVE: usize = 0x2D0D;

/// Standard base address of the I/O APIC's registers.
pub const IOAPIC_BASE: u64 = 0xFEC0_0000;

/// Why a file is not taken for a vmstate file.
#[derive(Clone, Copy, Debug, PartialEq, Eq, Structural)]
pub enum VmStateError {
    /// No I/O APIC base address with a plausible EFER at its distance was found.
    LayoutNotFound,
}

impl VmStateError {
    /// The error in words.
    pub fn message(&self) -> (text: &'static str)
        ensures
            text@ == "cannot detect vmstate layout: IOAPIC base address 0xFEC00000 not found"@,
    {
        match self {
            VmStateError::LayoutNotFound => {
                "cannot detect vmstate layout: IOAPIC base address 0xFEC00000 not found"
            },
        }
    }
}

/// Where the section with reference offset `reference` lies in a file displaced by `shift`.
pub open spec fn placed(reference: usize, shift: int) -> int {
    reference - shift
}

/// An EFER value that a 64-bit guest has: long mode enabled and active, system calls enabled,
/// with or without no-execute pages.
pub open spec fn plausible_efer(efer: nat) -> bool {
    efer == 0xD01 || efer == 0x501
}

/// Offset `i` of `d` holds the I/O APIC base address, and a plausible EFER lies where it would
/// lie if the I/O APIC section started at `i`.
pub open spec fn anchor_at(d: Seq<u8>, i: int) -> bool {
    let efer = i + (REF_EFER - REF_IOAPIC);
    &&& 0 <= i < d.len() - 8
    &&& le_at(d, i, 8) == IOAPIC_BASE
    &&& efer + 8 <= d.len()
    &&& plausible_efer(le_at(d, efer, 8))
}

/// Offset `i` is the first anchor of `d`.
pub open spec fn first_anchor(d: Seq<u8>, i: int) -> bool {
    &&& anchor_at(d, i)
    &&& forall|j: int| 0 <= j < i ==> !#[trigger] anchor_at(d, j)
}

/// The displacement of the sections of `d` against their reference offsets, fixed by the first
/// anchor; `None` where `d` has no anchor.
pub open spec fn layout_shift(d: Seq<u8>) -> Option<int> {
    if exists|i: int| first_anchor(d, i) {
        Some(REF_IOAPIC - (choose|i: int| first_anchor(d, i)))
    } else {
        None
    }
}

/// The first anchor fixes the displacement.
pub proof fn lemma_first_anchor_is_shift(d: Seq<u8>, i: int)
    requires
        first_anchor(d, i),
    ensures
        layout_shift(d) == Some(REF_IOAPIC - i),
{
    let c = choose|c: int| first_anchor(d, c);
    assert(first_anchor(d, c));
    assert(c == i) by {
        if c < i {
            assert(!anchor_at(d, c));
        }
        if i < c {
            assert(!anchor_at(d, i));
        }
    }
}

/// Finds the displacement of a file's sections by its first anchor: the signed number to
/// subtract from a reference offset.
pub fn detect_offset_shift(data: &[u8]) -> (res: Result<isize, VmStateError>)
    requires
        data@.len() <= isize::MAX,
    ensures
        match res {
            Ok(shift) => layout_shift(data@) == Some(shift as int),
            Err(e) => layout_shift(data@) is None && e == VmStateError::LayoutNotFound,
        },
{
    let n: usize = data.len();
    let mut i: usize = 0;
    while n >= 8 && i < n - 8
        invariant
            n == data@.len(),
            n <= isize::MAX,
            forall|j: int| 0 <= j < i ==> !#[trigger] anchor_at(data@, j),
        decreases n - i,
    {
        if r64(data, i) == IOAPIC_BASE && n - i >= REF_EFER - REF_IOAPIC + 8 {
            let shift: isize = REF_IOAPIC as isize - i as isize;
            let efer: u64 = r64(data, adj(REF_EFER, shift));
            if efer == 0xD01 || efer == 0x501 {
                proof {
                    assert(first_anchor(data@, i as int));
                    lemma_first_anchor_is_shift(data@, i as int);
                }
                return Ok(shift);
            }
        }
        i = i + 1;
    }
    proof {
        if layout_shift(data@) is Some {
            let c = choose|c: int| first_anchor(data@, c);
            assert(first_anchor(data@, c));
            assert(anchor_at(data@, c));
        }
    }
    Err(VmStateError::LayoutNotFound)
}

/// Moves a reference offset to where the section lies in a file displaced by `shift`.
pub fn adj(reference: usize, shift: isize) -> (offset: usize)
    requires
        0 <= reference - shift <= usize::MAX,
    ensures
        offset == placed(reference, shift as int),
{
    (reference as i128 - shift as i128) as usize
}

} // verus!
