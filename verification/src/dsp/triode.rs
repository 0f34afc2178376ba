//! Lookups in a stage's plate table.

use vstd::prelude::*;

verus! {

/// Number of entries in the solved plate-voltage table.
pub const TABLE_SIZE: usize = 1024;

/// `n` held to the last table entry.
pub open spec fn last_at_most(n: int) -> int {
    if n < TABLE_SIZE {
        n
    } else {
        TABLE_SIZE - 1
    }
}

/// The four entries around table position `base` that cubic interpolation
/// reads: the one before, the one at the position and the two behind, each held
/// inside the table.
pub fn neighbours(base: usize) -> (entries: (usize, usize, usize, usize))
    ensures
        entries.1 == last_at_most(base as int),
        entries.0 == (if entries.1 == 0 {
            0
        } else {
            entries.1 - 1
        }),
        entries.2 == last_at_most(entries.1 + 1),
        entries.3 == last_at_most(entries.1 + 2),
        1 <= base < 1022 ==> entries.0 == base - 1 && entries.1 == base && entries.2 == base + 1
            && entries.3 == base + 2,
        base == 0 ==> entries == (0usize, 0usize, 1usize, 2usize),
        base == 1022 ==> entries == (1021usize, 1022usize, 1023usize, 1023usize),
        base >= 1023 ==> entries == (1022usize, 1023usize, 1023usize, 1023usize),
        entries.0 < TABLE_SIZE,
        entries.1 < TABLE_SIZE,
        entries.2 < TABLE_SIZE,
        entries.3 < TABLE_SIZE,
{
    let last: usize = TABLE_SIZE - 1;
    let at: usize = if base < last {
        base
    } else {
        last
    };
    let before: usize = if at > 0 {
        at - 1
    } else {
        0
    };
    let next: usize = if at + 1 < last {
        at + 1
    } else {
        last
    };
    let after: usize = if at + 2 < last {
        at + 2
    } else {
        last
    };
    (before, at, next, after)
}

} // verus!
