use vstd::prelude::*;
use crate::positions::{spiral, spiral_from};
use crate::runs::{Pos, col_run, col_run_rev, row_run, row_run_rev};

verus! {

/// `q` is a grid neighbour of `p`: one row or one column away.
pub open spec fn unit_move(p: Pos, q: Pos) -> bool {
    let dr = q.0 - p.0;
    let dc = q.1 - p.1;
    (dr == 0 && (dc == 1 || dc == -1)) || (dc == 0 && (dr == 1 || dr == -1))
}

/// The move from `p` to `q`, as (rows down, columns right).
pub open spec fn dir(p: Pos, q: Pos) -> (int, int) {
    (q.0 - p.0, q.1 - p.1)
}

/// Move `d2` keeps the heading of move `d1`, or turns a quarter clockwise
/// from it (right, then down, then left, then up).
pub open spec fn straight_or_clockwise(d1: (int, int), d2: (int, int)) -> bool {
    d2 == d1 || d2 == (d1.1, -d1.0)
}

pub open spec fn step_ok(s: Seq<Pos>, i: int) -> bool {
    unit_move(s[i], s[i + 1])
}

pub open spec fn turn_ok(s: Seq<Pos>, i: int) -> bool {
    straight_or_clockwise(dir(s[i], s[i + 1]), dir(s[i + 1], s[i + 2]))
}

/// Each position of `s` is a grid neighbour of the one before.
pub open spec fn is_walk(s: Seq<Pos>) -> bool {
    forall|i: int| 0 <= i < s.len() - 1 ==> #[trigger] step_ok(s, i)
}

/// Along `s` every move goes on straight or turns a quarter clockwise.
pub open spec fn turns_clockwise(s: Seq<Pos>) -> bool {
    forall|i: int| 0 <= i < s.len() - 2 ==> #[trigger] turn_ok(s, i)
}

/// Joining two clockwise walks where the join is a neighbour move that turns
/// clockwise (or goes on) on both sides gives a clockwise walk.
pub proof fn lemma_walk_concat(a: Seq<Pos>, b: Seq<Pos>)
    requires
        a.len() >= 1,
        b.len() >= 1,
        is_walk(a),
        is_walk(b),
        turns_clockwise(a),
        turns_clockwise(b),
        unit_move(a.last(), b[0]),
        a.len() >= 2 ==> straight_or_clockwise(dir(a[a.len() - 2], a.last()), dir(a.last(), b[0])),
        b.len() >= 2 ==> straight_or_clockwise(dir(a.last(), b[0]), dir(b[0], b[1])),
    ensures
        is_walk(a + b),
        turns_clockwise(a + b),
{
    let s = a + b;
    let n = a.len() as int;
    assert forall|i: int| 0 <= i < s.len() - 1 implies #[trigger] step_ok(s, i) by {
        if i < n - 1 {
            assert(step_ok(a, i));
            assert(s[i] == a[i] && s[i + 1] == a[i + 1]);
        } else if i == n - 1 {
            assert(s[i] == a[n - 1] && s[i + 1] == b[0]);
        } else {
            assert(step_ok(b, i - n));
            assert(s[i] == b[i - n] && s[i + 1] == b[i - n + 1]);
        }
    }
    assert forall|i: int| 0 <= i < s.len() - 2 implies #[trigger] turn_ok(s, i) by {
        if i < n - 2 {
            assert(turn_ok(a, i));
            assert(s[i] == a[i] && s[i + 1] == a[i + 1] && s[i + 2] == a[i + 2]);
        } else if i == n - 2 {
            assert(s[i] == a[n - 2] && s[i + 1] == a[n - 1] && s[i + 2] == b[0]);
        } else if i == n - 1 {
            assert(s[i] == a[n - 1] && s[i + 1] == b[0] && s[i + 2] == b[1]);
        } else {
            assert(turn_ok(b, i - n));
            assert(s[i] == b[i - n] && s[i + 1] == b[i - n + 1] && s[i + 2] == b[i - n + 2]);
        }
    }
}

/// A walk that always moves by the same unit step is a clockwise walk.
pub proof fn lemma_straight_walk(s: Seq<Pos>, d: (int, int))
    requires
        d == (0int, 1int) || d == (1int, 0int) || d == (0int, -1int) || d == (-1int, 0int),
        forall|i: int| 0 <= i < s.len() - 1 ==> #[trigger] dir(s[i], s[i + 1]) == d,
    ensures
        is_walk(s),
        turns_clockwise(s),
{
    assert forall|i: int| 0 <= i < s.len() - 1 implies #[trigger] step_ok(s, i) by {
        assert(dir(s[i], s[i + 1]) == d);
    }
    assert forall|i: int| 0 <= i < s.len() - 2 implies #[trigger] turn_ok(s, i) by {
        let j = i + 1;
        assert(dir(s[i], s[i + 1]) == d);
        assert(dir(s[j], s[j + 1]) == d);
    }
}

proof fn lemma_runs_walk(t: int, b: int, l: int, r: int)
    requires
        0 <= t < b <= usize::MAX,
        0 <= l < r <= usize::MAX,
    ensures
        is_walk(row_run(t, l, r)) && turns_clockwise(row_run(t, l, r)),
        is_walk(col_run(r - 1, t + 1, b)) && turns_clockwise(col_run(r - 1, t + 1, b)),
        is_walk(row_run_rev(b - 1, l, r - 1)) && turns_clockwise(row_run_rev(b - 1, l, r - 1)),
        is_walk(col_run_rev(l, t + 1, b - 1)) && turns_clockwise(col_run_rev(l, t + 1, b - 1)),
{
    let s1 = row_run(t, l, r);
    assert forall|i: int| 0 <= i < s1.len() - 1 implies #[trigger] dir(s1[i], s1[i + 1]) == (0int, 1int) by {}
    lemma_straight_walk(s1, (0int, 1int));
    let s2 = col_run(r - 1, t + 1, b);
    assert forall|i: int| 0 <= i < s2.len() - 1 implies #[trigger] dir(s2[i], s2[i + 1]) == (1int, 0int) by {}
    lemma_straight_walk(s2, (1int, 0int));
    let s3 = row_run_rev(b - 1, l, r - 1);
    assert forall|i: int| 0 <= i < s3.len() - 1 implies #[trigger] dir(s3[i], s3[i + 1]) == (0int, -1int) by {}
    lemma_straight_walk(s3, (0int, -1int));
    let s4 = col_run_rev(l, t + 1, b - 1);
    assert forall|i: int| 0 <= i < s4.len() - 1 implies #[trigger] dir(s4[i], s4[i + 1]) == (-1int, 0int) by {}
    lemma_straight_walk(s4, (-1int, 0int));
}

/// The outer ring of a rectangle at least two rows high and two columns
/// wide, as the spiral lists it: top row right, right column down, bottom
/// row left, left column up.
pub open spec fn ring(t: int, b: int, l: int, r: int) -> Seq<Pos> {
    row_run(t, l, r) + col_run(r - 1, t + 1, b) + row_run_rev(b - 1, l, r - 1) + col_run_rev(l, t + 1, b - 1)
}

#[verifier::spinoff_prover]
proof fn lemma_ring_first_three(t: int, b: int, l: int, r: int)
    requires
        0 <= t,
        t + 2 <= b <= usize::MAX,
        0 <= l,
        l + 2 <= r <= usize::MAX,
    ensures
        ({
            let a = row_run(t, l, r) + col_run(r - 1, t + 1, b) + row_run_rev(b - 1, l, r - 1);
            &&& a.len() >= 3
            &&& a[0] == (t as usize, l as usize)
            &&& a[1] == (t as usize, (l + 1) as usize)
            &&& is_walk(a)
            &&& turns_clockwise(a)
            &&& a.last() == ((b - 1) as usize, l as usize)
            &&& a[a.len() - 2] == ((b - 1) as usize, (l + 1) as usize)
        }),
{
    let s1 = row_run(t, l, r);
    let s2 = col_run(r - 1, t + 1, b);
    let s3 = row_run_rev(b - 1, l, r - 1);
    lemma_runs_walk(t, b, l, r);
    lemma_walk_concat(s1, s2);
    let a12 = s1 + s2;
    assert(a12.last() == ((b - 1) as usize, (r - 1) as usize));
    if s2.len() >= 2 {
        assert(a12[a12.len() - 2] == s2[s2.len() - 2]);
    } else {
        assert(a12[a12.len() - 2] == s1.last());
    }
    assert(a12[a12.len() - 2] == ((b - 2) as usize, (r - 1) as usize));
    lemma_walk_concat(a12, s3);
    let a123 = a12 + s3;
    assert(a123.last() == ((b - 1) as usize, l as usize));
    if s3.len() >= 2 {
        assert(a123[a123.len() - 2] == s3[s3.len() - 2]);
    } else {
        assert(a123[a123.len() - 2] == a12.last());
    }
    assert(a123[0] == s1[0] && a123[1] == s1[1]);
}

#[verifier::spinoff_prover]
proof fn lemma_ring_walk(t: int, b: int, l: int, r: int)
    requires
        0 <= t,
        t + 2 <= b <= usize::MAX,
        0 <= l,
        l + 2 <= r <= usize::MAX,
    ensures
        ring(t, b, l, r).len() >= 3,
        ring(t, b, l, r)[0] == (t as usize, l as usize),
        ring(t, b, l, r)[1] == (t as usize, (l + 1) as usize),
        is_walk(ring(t, b, l, r)),
        turns_clockwise(ring(t, b, l, r)),
        ring(t, b, l, r).last() == ((t + 1) as usize, l as usize),
        b - t >= 3 ==> ring(t, b, l, r)[ring(t, b, l, r).len() - 2] == ((t + 2) as usize, l as usize),
{
    lemma_ring_first_three(t, b, l, r);
    lemma_runs_walk(t, b, l, r);
    let a = row_run(t, l, r) + col_run(r - 1, t + 1, b) + row_run_rev(b - 1, l, r - 1);
    let s4 = col_run_rev(l, t + 1, b - 1);
    if b - t == 2 {
        assert(ring(t, b, l, r) =~= a);
    } else {
        lemma_walk_concat(a, s4);
        let a4 = a + s4;
        assert(a4 == ring(t, b, l, r));
        assert(a4.last() == s4.last());
        if s4.len() >= 2 {
            assert(a4[a4.len() - 2] == s4[s4.len() - 2]);
        } else {
            assert(a4[a4.len() - 2] == a.last());
        }
        assert(a4[0] == a[0] && a4[1] == a[1]);
    }
}

/// The spiral over a non-empty rectangle starts at its top-left corner, walks
/// from each cell to a neighbour, and only goes on or turns clockwise; its
/// first move is to the right, or down when the rectangle is one column wide.
#[verifier::spinoff_prover]
pub proof fn lemma_spiral_from_is_clockwise_walk(t: int, b: int, l: int, r: int)
    requires
        0 <= t < b <= usize::MAX,
        0 <= l < r <= usize::MAX,
    ensures
        spiral_from(t, b, l, r).len() >= 1,
        spiral_from(t, b, l, r)[0] == (t as usize, l as usize),
        is_walk(spiral_from(t, b, l, r)),
        turns_clockwise(spiral_from(t, b, l, r)),
        spiral_from(t, b, l, r).len() >= 2 ==> dir(spiral_from(t, b, l, r)[0], spiral_from(t, b, l, r)[1])
            == (if l + 1 < r {
            (0int, 1int)
        } else {
            (1int, 0int)
        }),
    decreases b - t,
{
    let s = spiral_from(t, b, l, r);
    let s1 = row_run(t, l, r);
    let s2 = col_run(r - 1, t + 1, b);
    lemma_runs_walk(t, b, l, r);
    if b - t == 1 {
        assert(spiral_from(t + 1, b, if l < r - 1 { l + 1 } else { l }, r - 1) =~= Seq::<Pos>::empty());
        assert(s =~= s1);
    } else if r - l == 1 {
        assert(spiral_from(t + 1, b - 1, l, r - 1) =~= Seq::<Pos>::empty());
        assert(s =~= s1 + s2);
        lemma_walk_concat(s1, s2);
    } else {
        let rest = spiral_from(t + 1, b - 1, l + 1, r - 1);
        let rg = ring(t, b, l, r);
        assert(s == rg + rest);
        lemma_ring_walk(t, b, l, r);
        if t + 1 < b - 1 && l + 1 < r - 1 {
            lemma_spiral_from_is_clockwise_walk(t + 1, b - 1, l + 1, r - 1);
            lemma_walk_concat(rg, rest);
            assert(s[0] == rg[0] && s[1] == rg[1]);
        } else {
            assert(rest =~= Seq::<Pos>::empty());
            assert(s =~= rg);
        }
    }
}

/// Law: the swirl over a non-empty rectangle is a clockwise spiral walk: it
/// starts in the top-left corner, first moves right (down when the rectangle
/// is one column wide), goes from each cell to a neighbouring cell, and only
/// ever goes on or turns a quarter clockwise.
pub proof fn lemma_swirl_is_clockwise_walk(rows: usize, cols: usize)
    requires
        rows >= 1,
        cols >= 1,
    ensures
        spiral(rows as int, cols as int).len() >= 1,
        spiral(rows as int, cols as int)[0] == (0usize, 0usize),
        is_walk(spiral(rows as int, cols as int)),
        turns_clockwise(spiral(rows as int, cols as int)),
        spiral(rows as int, cols as int).len() >= 2 ==> dir(
            spiral(rows as int, cols as int)[0],
            spiral(rows as int, cols as int)[1],
        ) == (if cols >= 2 {
            (0int, 1int)
        } else {
            (1int, 0int)
        }),
{
    lemma_spiral_from_is_clockwise_walk(0, rows as int, 0, cols as int);
}

} // verus!
