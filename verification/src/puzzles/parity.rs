//! Why only arrangements of even inversion parity can be solved: no move
//! changes the parity, and the solved arrangement has none.

use crate::puzzles::eight_puzzle::inversions;
use crate::puzzles::eight_puzzle::inversions_with;
use crate::puzzles::eight_puzzle::lemma_blank_in_grid;
use crate::puzzles::eight_puzzle::lemma_move_back;
use crate::puzzles::eight_puzzle::one_blank;
use crate::puzzles::eight_puzzle::solvable;
use crate::puzzles::eight_puzzle::target_cell;
use crate::puzzles::eight_puzzle::EightPuzzleState;
use crate::puzzles::eight_puzzle::SlideMove;
use crate::search::solver::answers;
use crate::search::solver::SearchReport;
use crate::search::state::is_solution;
use crate::search::state::is_walk;
use crate::search::state::SearchState;
use vstd::prelude::*;

verus! {

/// One for a pair of tiles of which the larger comes first, zero otherwise;
/// the blank is no tile.
pub open spec fn out_of_order(first: u8, second: u8) -> int {
    if first != 0 && second != 0 && first > second {
        1
    } else {
        0
    }
}

/// The number of out-of-order pairs among nine cells, written out pair by
/// pair.
#[verifier::opaque]
pub open spec fn count9(a: u8, b: u8, c: u8, d: u8, e: u8, f: u8, g: u8, h: u8, i: u8) -> int {
    out_of_order(a, b) + out_of_order(a, c) + out_of_order(a, d) + out_of_order(a, e) + out_of_order(a, f) + out_of_order(a, g) + out_of_order(a, h) + out_of_order(a, i) + out_of_order(b, c) + out_of_order(b, d) + out_of_order(b, e) + out_of_order(b, f) + out_of_order(b, g) + out_of_order(b, h) + out_of_order(b, i) + out_of_order(c, d) + out_of_order(c, e) + out_of_order(c, f) + out_of_order(c, g) + out_of_order(c, h) + out_of_order(c, i) + out_of_order(d, e) + out_of_order(d, f) + out_of_order(d, g) + out_of_order(d, h) + out_of_order(d, i) + out_of_order(e, f) + out_of_order(e, g) + out_of_order(e, h) + out_of_order(e, i) + out_of_order(f, g) + out_of_order(f, h) + out_of_order(f, i) + out_of_order(g, h) + out_of_order(g, i) + out_of_order(h, i)
}

/// The number of out-of-order pairs of an arrangement.
pub open spec fn pair_count(t: Seq<u8>) -> int {
    count9(t[0], t[1], t[2], t[3], t[4], t[5], t[6], t[7], t[8])
}

/// The out-of-order pairs that start in cell 0, written out.
proof fn lemma_row_0(t: Seq<u8>)
    requires
        t.len() == 9,
    ensures
        inversions_with(t, 0, 9) == out_of_order(t[0], t[1]) + out_of_order(t[0], t[2]) + out_of_order(t[0], t[3]) + out_of_order(t[0], t[4]) + out_of_order(t[0], t[5]) + out_of_order(t[0], t[6]) + out_of_order(t[0], t[7]) + out_of_order(t[0], t[8]),
{
    assert(inversions_with(t, 0, 1) == 0);
    assert(inversions_with(t, 0, 2) == out_of_order(t[0], t[1]));
    assert(inversions_with(t, 0, 3) == out_of_order(t[0], t[1]) + out_of_order(t[0], t[2]));
    assert(inversions_with(t, 0, 4) == out_of_order(t[0], t[1]) + out_of_order(t[0], t[2]) + out_of_order(t[0], t[3]));
    assert(inversions_with(t, 0, 5) == out_of_order(t[0], t[1]) + out_of_order(t[0], t[2]) + out_of_order(t[0], t[3]) + out_of_order(t[0], t[4]));
    assert(inversions_with(t, 0, 6) == out_of_order(t[0], t[1]) + out_of_order(t[0], t[2]) + out_of_order(t[0], t[3]) + out_of_order(t[0], t[4]) + out_of_order(t[0], t[5]));
    assert(inversions_with(t, 0, 7) == out_of_order(t[0], t[1]) + out_of_order(t[0], t[2]) + out_of_order(t[0], t[3]) + out_of_order(t[0], t[4]) + out_of_order(t[0], t[5]) + out_of_order(t[0], t[6]));
    assert(inversions_with(t, 0, 8) == out_of_order(t[0], t[1]) + out_of_order(t[0], t[2]) + out_of_order(t[0], t[3]) + out_of_order(t[0], t[4]) + out_of_order(t[0], t[5]) + out_of_order(t[0], t[6]) + out_of_order(t[0], t[7]));
}

/// The out-of-order pairs that start in cell 1, written out.
proof fn lemma_row_1(t: Seq<u8>)
    requires
        t.len() == 9,
    ensures
        inversions_with(t, 1, 9) == out_of_order(t[1], t[2]) + out_of_order(t[1], t[3]) + out_of_order(t[1], t[4]) + out_of_order(t[1], t[5]) + out_of_order(t[1], t[6]) + out_of_order(t[1], t[7]) + out_of_order(t[1], t[8]),
{
    assert(inversions_with(t, 1, 2) == 0);
    assert(inversions_with(t, 1, 3) == out_of_order(t[1], t[2]));
    assert(inversions_with(t, 1, 4) == out_of_order(t[1], t[2]) + out_of_order(t[1], t[3]));
    assert(inversions_with(t, 1, 5) == out_of_order(t[1], t[2]) + out_of_order(t[1], t[3]) + out_of_order(t[1], t[4]));
    assert(inversions_with(t, 1, 6) == out_of_order(t[1], t[2]) + out_of_order(t[1], t[3]) + out_of_order(t[1], t[4]) + out_of_order(t[1], t[5]));
    assert(inversions_with(t, 1, 7) == out_of_order(t[1], t[2]) + out_of_order(t[1], t[3]) + out_of_order(t[1], t[4]) + out_of_order(t[1], t[5]) + out_of_order(t[1], t[6]));
    assert(inversions_with(t, 1, 8) == out_of_order(t[1], t[2]) + out_of_order(t[1], t[3]) + out_of_order(t[1], t[4]) + out_of_order(t[1], t[5]) + out_of_order(t[1], t[6]) + out_of_order(t[1], t[7]));
}

/// The out-of-order pairs that start in cell 2, written out.
proof fn lemma_row_2(t: Seq<u8>)
    requires
        t.len() == 9,
    ensures
        inversions_with(t, 2, 9) == out_of_order(t[2], t[3]) + out_of_order(t[2], t[4]) + out_of_order(t[2], t[5]) + out_of_order(t[2], t[6]) + out_of_order(t[2], t[7]) + out_of_order(t[2], t[8]),
{
    assert(inversions_with(t, 2, 3) == 0);
    assert(inversions_with(t, 2, 4) == out_of_order(t[2], t[3]));
    assert(inversions_with(t, 2, 5) == out_of_order(t[2], t[3]) + out_of_order(t[2], t[4]));
    assert(inversions_with(t, 2, 6) == out_of_order(t[2], t[3]) + out_of_order(t[2], t[4]) + out_of_order(t[2], t[5]));
    assert(inversions_with(t, 2, 7) == out_of_order(t[2], t[3]) + out_of_order(t[2], t[4]) + out_of_order(t[2], t[5]) + out_of_order(t[2], t[6]));
    assert(inversions_with(t, 2, 8) == out_of_order(t[2], t[3]) + out_of_order(t[2], t[4]) + out_of_order(t[2], t[5]) + out_of_order(t[2], t[6]) + out_of_order(t[2], t[7]));
}

/// The out-of-order pairs that start in cell 3, written out.
proof fn lemma_row_3(t: Seq<u8>)
    requires
        t.len() == 9,
    ensures
        inversions_with(t, 3, 9) == out_of_order(t[3], t[4]) + out_of_order(t[3], t[5]) + out_of_order(t[3], t[6]) + out_of_order(t[3], t[7]) + out_of_order(t[3], t[8]),
{
    assert(inversions_with(t, 3, 4) == 0);
    assert(inversions_with(t, 3, 5) == out_of_order(t[3], t[4]));
    assert(inversions_with(t, 3, 6) == out_of_order(t[3], t[4]) + out_of_order(t[3], t[5]));
    assert(inversions_with(t, 3, 7) == out_of_order(t[3], t[4]) + out_of_order(t[3], t[5]) + out_of_order(t[3], t[6]));
    assert(inversions_with(t, 3, 8) == out_of_order(t[3], t[4]) + out_of_order(t[3], t[5]) + out_of_order(t[3], t[6]) + out_of_order(t[3], t[7]));
}

/// The out-of-order pairs that start in cell 4, written out.
proof fn lemma_row_4(t: Seq<u8>)
    requires
        t.len() == 9,
    ensures
        inversions_with(t, 4, 9) == out_of_order(t[4], t[5]) + out_of_order(t[4], t[6]) + out_of_order(t[4], t[7]) + out_of_order(t[4], t[8]),
{
    assert(inversions_with(t, 4, 5) == 0);
    assert(inversions_with(t, 4, 6) == out_of_order(t[4], t[5]));
    assert(inversions_with(t, 4, 7) == out_of_order(t[4], t[5]) + out_of_order(t[4], t[6]));
    assert(inversions_with(t, 4, 8) == out_of_order(t[4], t[5]) + out_of_order(t[4], t[6]) + out_of_order(t[4], t[7]));
}

/// The out-of-order pairs that start in cell 5, written out.
proof fn lemma_row_5(t: Seq<u8>)
    requires
        t.len() == 9,
    ensures
        inversions_with(t, 5, 9) == out_of_order(t[5], t[6]) + out_of_order(t[5], t[7]) + out_of_order(t[5], t[8]),
{
    assert(inversions_with(t, 5, 6) == 0);
    assert(inversions_with(t, 5, 7) == out_of_order(t[5], t[6]));
    assert(inversions_with(t, 5, 8) == out_of_order(t[5], t[6]) + out_of_order(t[5], t[7]));
}

/// The out-of-order pairs that start in cell 6, written out.
proof fn lemma_row_6(t: Seq<u8>)
    requires
        t.len() == 9,
    ensures
        inversions_with(t, 6, 9) == out_of_order(t[6], t[7]) + out_of_order(t[6], t[8]),
{
    assert(inversions_with(t, 6, 7) == 0);
    assert(inversions_with(t, 6, 8) == out_of_order(t[6], t[7]));
}

/// The out-of-order pairs that start in cell 7, written out.
proof fn lemma_row_7(t: Seq<u8>)
    requires
        t.len() == 9,
    ensures
        inversions_with(t, 7, 9) == out_of_order(t[7], t[8]),
{
    assert(inversions_with(t, 7, 8) == 0);
}


/// The pair-by-pair count is the inversion count.
pub proof fn lemma_pair_count(t: Seq<u8>)
    requires
        t.len() == 9,
    ensures
        inversions(t, 9) == pair_count(t),
{
    reveal(count9);
    lemma_row_0(t);
    lemma_row_1(t);
    lemma_row_2(t);
    lemma_row_3(t);
    lemma_row_4(t);
    lemma_row_5(t);
    lemma_row_6(t);
    lemma_row_7(t);
    assert(inversions(t, 1) == inversions_with(t, 0, 9)) by {
        assert(inversions(t, 0) == 0);
    }
    assert(inversions(t, 2) == inversions(t, 1) + inversions_with(t, 1, 9));
    assert(inversions(t, 4) == inversions(t, 3) + inversions_with(t, 3, 9));
    assert(inversions(t, 6) == inversions(t, 5) + inversions_with(t, 5, 9));
    assert(inversions(t, 8) == inversions(t, 7) + inversions_with(t, 7, 9));
}

/// No two cells hold the same value.
pub open spec fn all_distinct(t: Seq<u8>) -> bool {
    forall|i: int, j: int| 0 <= i < 9 && 0 <= j < 9 && i != j ==> t[i] != t[j]
}

proof fn lemma_updown_0_0(a: u8, b: u8, c: u8, d: u8, e: u8, f: u8, g: u8, h: u8, i: u8)
    requires
        a == 0,
        d != 0,
        b != 0,
        c != 0,
        d != b,
        d != c,
    ensures
        (count9(d, b, c, a, e, f, g, h, i) - count9(a, b, c, d, e, f, g, h, i)) % 2 == 0,
{
    reveal(count9);
}

proof fn lemma_updown_0_1(a: u8, b: u8, c: u8, d: u8, e: u8, f: u8, g: u8, h: u8, i: u8)
    requires
        d == 0,
        a != 0,
        b != 0,
        c != 0,
        a != b,
        a != c,
    ensures
        (count9(d, b, c, a, e, f, g, h, i) - count9(a, b, c, d, e, f, g, h, i)) % 2 == 0,
{
    reveal(count9);
}

proof fn lemma_updown_1_0(a: u8, b: u8, c: u8, d: u8, e: u8, f: u8, g: u8, h: u8, i: u8)
    requires
        b == 0,
        e != 0,
        c != 0,
        d != 0,
        e != c,
        e != d,
    ensures
        (count9(a, e, c, d, b, f, g, h, i) - count9(a, b, c, d, e, f, g, h, i)) % 2 == 0,
{
    reveal(count9);
}

proof fn lemma_updown_1_1(a: u8, b: u8, c: u8, d: u8, e: u8, f: u8, g: u8, h: u8, i: u8)
    requires
        e == 0,
        b != 0,
        c != 0,
        d != 0,
        b != c,
        b != d,
    ensures
        (count9(a, e, c, d, b, f, g, h, i) - count9(a, b, c, d, e, f, g, h, i)) % 2 == 0,
{
    reveal(count9);
    assert(count9(a, e, c, d, b, f, g, h, i) - count9(a, b, c, d, e, f, g, h, i) == out_of_order(c, b) + out_of_order(d, b) - out_of_order(b, c) - out_of_order(b, d));
}

proof fn lemma_updown_2_0(a: u8, b: u8, c: u8, d: u8, e: u8, f: u8, g: u8, h: u8, i: u8)
    requires
        c == 0,
        f != 0,
        d != 0,
        e != 0,
        f != d,
        f != e,
    ensures
        (count9(a, b, f, d, e, c, g, h, i) - count9(a, b, c, d, e, f, g, h, i)) % 2 == 0,
{
    reveal(count9);
}

proof fn lemma_updown_2_1(a: u8, b: u8, c: u8, d: u8, e: u8, f: u8, g: u8, h: u8, i: u8)
    requires
        f == 0,
        c != 0,
        d != 0,
        e != 0,
        c != d,
        c != e,
    ensures
        (count9(a, b, f, d, e, c, g, h, i) - count9(a, b, c, d, e, f, g, h, i)) % 2 == 0,
{
    reveal(count9);
}

proof fn lemma_updown_3_0(a: u8, b: u8, c: u8, d: u8, e: u8, f: u8, g: u8, h: u8, i: u8)
    requires
        d == 0,
        g != 0,
        e != 0,
        f != 0,
        g != e,
        g != f,
    ensures
        (count9(a, b, c, g, e, f, d, h, i) - count9(a, b, c, d, e, f, g, h, i)) % 2 == 0,
{
    reveal(count9);
    assert(count9(a, b, c, g, e, f, d, h, i) - count9(a, b, c, d, e, f, g, h, i) == out_of_order(g, e) + out_of_order(g, f) - out_of_order(e, g) - out_of_order(f, g));
}

proof fn lemma_updown_3_1(a: u8, b: u8, c: u8, d: u8, e: u8, f: u8, g: u8, h: u8, i: u8)
    requires
        g == 0,
        d != 0,
        e != 0,
        f != 0,
        d != e,
        d != f,
    ensures
        (count9(a, b, c, g, e, f, d, h, i) - count9(a, b, c, d, e, f, g, h, i)) % 2 == 0,
{
    reveal(count9);
}

proof fn lemma_updown_4_0(a: u8, b: u8, c: u8, d: u8, e: u8, f: u8, g: u8, h: u8, i: u8)
    requires
        e == 0,
        h != 0,
        f != 0,
        g != 0,
        h != f,
        h != g,
    ensures
        (count9(a, b, c, d, h, f, g, e, i) - count9(a, b, c, d, e, f, g, h, i)) % 2 == 0,
{
    reveal(count9);
    assert(count9(a, b, c, d, h, f, g, e, i) - count9(a, b, c, d, e, f, g, h, i) == out_of_order(h, f) + out_of_order(h, g) - out_of_order(f, h) - out_of_order(g, h));
}

proof fn lemma_updown_4_1(a: u8, b: u8, c: u8, d: u8, e: u8, f: u8, g: u8, h: u8, i: u8)
    requires
        h == 0,
        e != 0,
        f != 0,
        g != 0,
        e != f,
        e != g,
    ensures
        (count9(a, b, c, d, h, f, g, e, i) - count9(a, b, c, d, e, f, g, h, i)) % 2 == 0,
{
    reveal(count9);
}

proof fn lemma_updown_5_0(a: u8, b: u8, c: u8, d: u8, e: u8, f: u8, g: u8, h: u8, i: u8)
    requires
        f == 0,
        i != 0,
        g != 0,
        h != 0,
        i != g,
        i != h,
    ensures
        (count9(a, b, c, d, e, i, g, h, f) - count9(a, b, c, d, e, f, g, h, i)) % 2 == 0,
{
    reveal(count9);
}

proof fn lemma_updown_5_1(a: u8, b: u8, c: u8, d: u8, e: u8, f: u8, g: u8, h: u8, i: u8)
    requires
        i == 0,
        f != 0,
        g != 0,
        h != 0,
        f != g,
        f != h,
    ensures
        (count9(a, b, c, d, e, i, g, h, f) - count9(a, b, c, d, e, f, g, h, i)) % 2 == 0,
{
    reveal(count9);
}


/// Trading the blank with the cell next to it in its row keeps the number of
/// out-of-order pairs.
pub proof fn lemma_sideways_keeps_count(before: Seq<u8>, after: Seq<u8>, b: int)
    requires
        before.len() == 9,
        after.len() == 9,
        0 <= b < 8,
        before[b] == 0 || before[b + 1] == 0,
        after[b] == before[b + 1],
        after[b + 1] == before[b],
        forall|k: int| 0 <= k < 9 && k != b && k != b + 1 ==> after[k] == before[k],
    ensures
        pair_count(after) == pair_count(before),
{
    reveal(count9);
}

proof fn lemma_updown_at_0(before: Seq<u8>, after: Seq<u8>)
    requires
        before.len() == 9,
        after.len() == 9,
        all_distinct(before),
        before[0] == 0 || before[3] == 0,
        after[0] == before[3],
        after[3] == before[0],
        forall|k: int| 0 <= k < 9 && k != 0 && k != 3 ==> after[k] == before[k],
    ensures
        pair_count(after) % 2 == pair_count(before) % 2,
{
    if before[0] == 0 {
        lemma_updown_0_0(before[0], before[1], before[2], before[3], before[4], before[5], before[6], before[7], before[8]);
    } else {
        lemma_updown_0_1(before[0], before[1], before[2], before[3], before[4], before[5], before[6], before[7], before[8]);
    }
}

proof fn lemma_updown_at_1(before: Seq<u8>, after: Seq<u8>)
    requires
        before.len() == 9,
        after.len() == 9,
        all_distinct(before),
        before[1] == 0 || before[4] == 0,
        after[1] == before[4],
        after[4] == before[1],
        forall|k: int| 0 <= k < 9 && k != 1 && k != 4 ==> after[k] == before[k],
    ensures
        pair_count(after) % 2 == pair_count(before) % 2,
{
    if before[1] == 0 {
        lemma_updown_1_0(before[0], before[1], before[2], before[3], before[4], before[5], before[6], before[7], before[8]);
    } else {
        lemma_updown_1_1(before[0], before[1], before[2], before[3], before[4], before[5], before[6], before[7], before[8]);
    }
}

proof fn lemma_updown_at_2(before: Seq<u8>, after: Seq<u8>)
    requires
        before.len() == 9,
        after.len() == 9,
        all_distinct(before),
        before[2] == 0 || before[5] == 0,
        after[2] == before[5],
        after[5] == before[2],
        forall|k: int| 0 <= k < 9 && k != 2 && k != 5 ==> after[k] == before[k],
    ensures
        pair_count(after) % 2 == pair_count(before) % 2,
{
    if before[2] == 0 {
        lemma_updown_2_0(before[0], before[1], before[2], before[3], before[4], before[5], before[6], before[7], before[8]);
    } else {
        lemma_updown_2_1(before[0], before[1], before[2], before[3], before[4], before[5], before[6], before[7], before[8]);
    }
}

proof fn lemma_updown_at_3(before: Seq<u8>, after: Seq<u8>)
    requires
        before.len() == 9,
        after.len() == 9,
        all_distinct(before),
        before[3] == 0 || before[6] == 0,
        after[3] == before[6],
        after[6] == before[3],
        forall|k: int| 0 <= k < 9 && k != 3 && k != 6 ==> after[k] == before[k],
    ensures
        pair_count(after) % 2 == pair_count(before) % 2,
{
    if before[3] == 0 {
        lemma_updown_3_0(before[0], before[1], before[2], before[3], before[4], before[5], before[6], before[7], before[8]);
    } else {
        lemma_updown_3_1(before[0], before[1], before[2], before[3], before[4], before[5], before[6], before[7], before[8]);
    }
}

proof fn lemma_updown_at_4(before: Seq<u8>, after: Seq<u8>)
    requires
        before.len() == 9,
        after.len() == 9,
        all_distinct(before),
        before[4] == 0 || before[7] == 0,
        after[4] == before[7],
        after[7] == before[4],
        forall|k: int| 0 <= k < 9 && k != 4 && k != 7 ==> after[k] == before[k],
    ensures
        pair_count(after) % 2 == pair_count(before) % 2,
{
    if before[4] == 0 {
        lemma_updown_4_0(before[0], before[1], before[2], before[3], before[4], before[5], before[6], before[7], before[8]);
    } else {
        lemma_updown_4_1(before[0], before[1], before[2], before[3], before[4], before[5], before[6], before[7], before[8]);
    }
}

proof fn lemma_updown_at_5(before: Seq<u8>, after: Seq<u8>)
    requires
        before.len() == 9,
        after.len() == 9,
        all_distinct(before),
        before[5] == 0 || before[8] == 0,
        after[5] == before[8],
        after[8] == before[5],
        forall|k: int| 0 <= k < 9 && k != 5 && k != 8 ==> after[k] == before[k],
    ensures
        pair_count(after) % 2 == pair_count(before) % 2,
{
    if before[5] == 0 {
        lemma_updown_5_0(before[0], before[1], before[2], before[3], before[4], before[5], before[6], before[7], before[8]);
    } else {
        lemma_updown_5_1(before[0], before[1], before[2], before[3], before[4], before[5], before[6], before[7], before[8]);
    }
}

/// Trading the blank with the cell below or above it changes the number of
/// out-of-order pairs by an even number.
pub proof fn lemma_updown_keeps_parity(before: Seq<u8>, after: Seq<u8>, b: int)
    requires
        before.len() == 9,
        after.len() == 9,
        0 <= b < 6,
        all_distinct(before),
        before[b] == 0 || before[b + 3] == 0,
        after[b] == before[b + 3],
        after[b + 3] == before[b],
        forall|k: int| 0 <= k < 9 && k != b && k != b + 3 ==> after[k] == before[k],
    ensures
        pair_count(after) % 2 == pair_count(before) % 2,
{
    if b == 0 {
        lemma_updown_at_0(before, after);
    }
    if b == 1 {
        lemma_updown_at_1(before, after);
    }
    if b == 2 {
        lemma_updown_at_2(before, after);
    }
    if b == 3 {
        lemma_updown_at_3(before, after);
    }
    if b == 4 {
        lemma_updown_at_4(before, after);
    }
    if b == 5 {
        lemma_updown_at_5(before, after);
    }
}

/// A move into an arrangement of distinct values with one blank starts from
/// such an arrangement, of the same inversion parity.
pub proof fn lemma_move_keeps_parity(before: EightPuzzleState, mv: SlideMove)
    requires
        before.slid(mv) is Some,
        one_blank(before.slid(mv)->0),
        all_distinct(before.slid(mv)->0.tiles@),
    ensures
        one_blank(before),
        all_distinct(before.tiles@),
        pair_count(before.tiles@) % 2 == pair_count(before.slid(mv)->0.tiles@) % 2,
{
    let after = before.slid(mv)->0;
    let b = before.blank();
    let t = target_cell(b, mv)->0;
    lemma_move_back(before, mv);
    lemma_blank_in_grid(before.tiles@, 0);
    if t == b + 1 {
        lemma_sideways_keeps_count(before.tiles@, after.tiles@, b);
    } else if t == b - 1 {
        lemma_sideways_keeps_count(before.tiles@, after.tiles@, t);
    } else if t == b + 3 {
        lemma_updown_keeps_parity(before.tiles@, after.tiles@, b);
    } else {
        lemma_updown_keeps_parity(before.tiles@, after.tiles@, t);
    }
}

/// Along a walk into the solved arrangement every arrangement has even
/// inversion parity.
proof fn lemma_parity_along_solution(path: Seq<EightPuzzleState>, at: int)
    requires
        is_walk(path),
        0 <= at < path.len(),
        path.last().goal(),
    ensures
        one_blank(path[at]),
        all_distinct(path[at].tiles@),
        pair_count(path[at].tiles@) % 2 == 0,
    decreases path.len() - at,
{
    if at == path.len() - 1 {
        let last = path[at];
        lemma_blank_in_grid(last.tiles@, 0);
        assert(pair_count(last.tiles@) == 0) by {
            reveal(count9);
        }
    } else {
        lemma_parity_along_solution(path, at + 1);
        let here = path[at];
        let next = path[at + 1];
        if here.slid(SlideMove::Up) == Some(next) {
            lemma_move_keeps_parity(here, SlideMove::Up);
        } else if here.slid(SlideMove::Down) == Some(next) {
            lemma_move_keeps_parity(here, SlideMove::Down);
        } else if here.slid(SlideMove::Left) == Some(next) {
            lemma_move_keeps_parity(here, SlideMove::Left);
        } else if here.slid(SlideMove::Right) == Some(next) {
            lemma_move_keeps_parity(here, SlideMove::Right);
        }
    }
}

/// An arrangement from which the solved one can be reached has even
/// inversion parity.
pub proof fn lemma_solution_needs_even_parity(
    start: EightPuzzleState,
    path: Seq<EightPuzzleState>,
)
    requires
        is_solution(start, path),
    ensures
        solvable(start.tiles@),
{
    lemma_parity_along_solution(path, 0);
    lemma_pair_count(start.tiles@);
}

/// A search from an arrangement of odd inversion parity finds nothing.
pub proof fn lemma_odd_parity_is_never_solved(
    start: EightPuzzleState,
    report: SearchReport<EightPuzzleState>,
)
    requires
        answers(start, report),
        !solvable(start.tiles@),
    ensures
        !report.goal_found,
        report.path@.len() == 0,
{
    if report.goal_found {
        lemma_solution_needs_even_parity(start, report.path@);
    }
}

} // verus!
