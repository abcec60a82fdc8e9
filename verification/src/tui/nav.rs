//! Moving a cursor over the rows of a list.

use vstd::prelude::*;

verus! {

/// The row reached from row `i` by `delta` steps in a list of `l` rows. A
/// move past the last row ends on the last row, a move before the first
/// row on the first.
pub open spec fn moved(i: int, delta: int, l: int) -> int {
    if i + delta >= l {
        l - 1
    } else if i + delta < 0 {
        0
    } else {
        i + delta
    }
}

/// The row that a jump to `n` selects in a list of `l` rows: a negative
/// `n` counts from the end, so that -1 is the last row; 0 is the first
/// row; a positive `n` is the number of a row, counted from 1. A jump
/// beyond either end stops at that end.
pub open spec fn jump_target(n: int, l: int) -> int {
    if n < 0 {
        if l + n < 0 {
            0
        } else {
            l + n
        }
    } else if n == 0 {
        0
    } else if n > l {
        l - 1
    } else {
        n - 1
    }
}

/// The row reached from row `i` by `delta` steps in a list of `l` rows. In
/// a list without rows there is nowhere to go, and the result is `i`.
pub fn move_by(i: usize, delta: isize, l: usize) -> (r: usize)
    ensures
        r == if l == 0 {
            i as int
        } else {
            moved(i as int, delta as int, l as int)
        },
        l > 0 ==> r < l,
{
    if l == 0 {
        return i;
    }
    match i.checked_add_signed(delta) {
        Some(j) => if j >= l {
            l - 1
        } else {
            j
        },
        None => if delta < 0 {
            0
        } else {
            l - 1
        },
    }
}

/// The row that a jump to `n` selects in a list of `l` rows.
pub(crate) fn jump_to(n: isize, l: usize) -> (r: usize)
    requires
        l > 0,
    ensures
        r == jump_target(n as int, l as int),
        r < l,
{
    if n < 0 {
        match l.checked_add_signed(n) {
            Some(j) => j,
            None => 0,
        }
    } else if n == 0 {
        0
    } else {
        let row: usize = (n - 1) as usize;
        if row >= l {
            l - 1
        } else {
            row
        }
    }
}

/// A move in a list that has rows ends on one of its rows. A move by at
/// least the length of the list ends on the last row, and a move by
/// nothing leaves the cursor where it is.
pub proof fn lemma_moved(i: int, delta: int, l: int)
    requires
        0 <= i < l,
    ensures
        0 <= moved(i, delta, l) <= l - 1,
        delta >= l ==> moved(i, delta, l) == l - 1,
        moved(i, 0, l) == i,
{
}

/// A jump in a list that has rows ends on one of its rows: on the last row
/// for -1, on the first for 0, and on row `n - 1` for `n` from 1 to the
/// length of the list.
pub proof fn lemma_jump_target(n: int, l: int)
    requires
        l > 0,
    ensures
        0 <= jump_target(n, l) <= l - 1,
        jump_target(-1, l) == l - 1,
        jump_target(0, l) == 0,
        1 <= n <= l ==> jump_target(n, l) == n - 1,
{
}

} // verus!
