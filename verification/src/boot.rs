//! The boot coordinator's decisions: which hart initializes the system,
//! and where each hart's platform-interrupt-controller enable words live.
//!
//! The hardware side — CSR writes, the MMIO stores themselves, the
//! release flag and the final branch — stays with the platform; these
//! functions fix the addresses and the role split.

use vstd::prelude::*;

verus! {

/// The hart that clears BSS, initializes the environment, loads the
/// kernel and releases the others. Hart 0 is the platform's low-power
/// management core and is skipped.
pub const BOOT_HART: u64 = 1;

/// Base of hart 0's PLIC enable words.
pub const HART0_PLIC_IE_BASE: u64 = 0x0C00_2000;

/// Base of hart 1's PLIC enable words; each further hart's block lies
/// 100 bytes on.
pub const PLIC_IE_BASE: u64 = 0x0C00_2080;

/// The mask preserving the reserved bits of the fifth enable word.
pub const PLIC_IE_TAIL_MASK: u32 = 0xF800_0000;

/// Whether this hart runs the initialization and release sequence.
pub fn is_boot_hart(hart_id: u64) -> (r: bool)
    ensures
        r == (hart_id == BOOT_HART),
{
    hart_id == BOOT_HART
}

/// Address of the first PLIC enable word of `hart_id`'s context.
pub fn plic_enable_base(hart_id: u64) -> (r: u64)
    requires
        hart_id <= 0xFFFF_FFFF,
    ensures
        r == (if hart_id == 0 {
            HART0_PLIC_IE_BASE as int
        } else {
            PLIC_IE_BASE + (hart_id - 1) * 100
        }),
{
    if hart_id == 0 {
        HART0_PLIC_IE_BASE
    } else {
        PLIC_IE_BASE + (hart_id - 1) * 100
    }
}

/// Value to store into the `idx`-th of the five enable words, given its
/// current value: the first four clear outright, the fifth keeps only
/// its reserved bits.
pub fn plic_enable_word(idx: u64, current: u32) -> (r: u32)
    requires
        idx < 5,
    ensures
        r == (if idx < 4 {
            0u32
        } else {
            current & PLIC_IE_TAIL_MASK
        }),
{
    if idx < 4 {
        0
    } else {
        current & PLIC_IE_TAIL_MASK
    }
}

} // verus!
