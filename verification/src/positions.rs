use vstd::prelude::*;
use crate::animator::Animator;
use crate::cell::{Cell, grid_cols};
use crate::runs::{Pos, row_run, row_run_rev, col_run, col_run_rev, in_rect, lists_once, lemma_row_run, lemma_row_run_rev, lemma_col_run, lemma_col_run_rev, lemma_concat_lists_once};

verus! {

/// Every cell of the grid, row by row, each row left to right.
pub open spec fn row_major(g: Seq<Vec<Cell>>) -> Seq<Pos>
    decreases g.len(),
{
    if g.len() == 0 {
        Seq::empty()
    } else {
        row_major(g.drop_last()) + row_run(g.len() - 1, 0, g.last()@.len() as int)
    }
}

/// The position names a cell of the grid.
pub open spec fn in_grid(g: Seq<Vec<Cell>>, p: Pos) -> bool {
    p.0 < g.len() && p.1 < g[p.0 as int]@.len()
}

/// The clockwise spiral over rows `[t, b)` and columns `[l, r)`: the top row
/// left to right, the right column downwards, the bottom row right to left,
/// the left column upwards, then the same again one ring further in.
pub open spec fn spiral_from(t: int, b: int, l: int, r: int) -> Seq<Pos>
    decreases b - t,
{
    if t < b && l < r {
        let t1 = t + 1;
        let r1 = r - 1;
        let b1 = if t1 < b { b - 1 } else { b };
        let l1 = if l < r1 { l + 1 } else { l };
        let bottom = if t1 < b { row_run_rev(b - 1, l, r1) } else { Seq::empty() };
        let left = if l < r1 { col_run_rev(l, t1, b1) } else { Seq::empty() };
        row_run(t, l, r) + col_run(r1, t1, b) + bottom + left + spiral_from(t1, b1, l1, r1)
    } else {
        Seq::empty()
    }
}

/// The spiral over a `rows` by `cols` rectangle, from its top-left corner inwards.
pub open spec fn spiral(rows: int, cols: int) -> Seq<Pos> {
    spiral_from(0, rows, 0, cols)
}

/// Law: the row-major listing names every cell of the grid exactly once.
pub proof fn lemma_row_major_lists_each_cell_once(g: Seq<Vec<Cell>>)
    requires
        g.len() <= usize::MAX,
        forall|r: int| 0 <= r < g.len() ==> #[trigger] g[r]@.len() <= usize::MAX,
    ensures
        lists_once(row_major(g), |p: Pos| in_grid(g, p)),
    decreases g.len(),
{
    if g.len() > 0 {
        let h = g.drop_last();
        let last = g.len() - 1;
        let w = g.last()@.len() as int;
        assert forall|r: int| 0 <= r < h.len() implies #[trigger] h[r]@.len() <= usize::MAX by {
            assert(h[r] == g[r]);
        }
        lemma_row_major_lists_each_cell_once(h);
        lemma_row_run(last, 0, w);
        let ina = |p: Pos| in_grid(h, p);
        let inb = |p: Pos| p.0 == last && 0 <= p.1 < w;
        lemma_concat_lists_once(row_major(h), row_run(last, 0, w), ina, inb);
        let s = row_major(g);
        assert forall|p: Pos| #[trigger] s.contains(p) <==> in_grid(g, p) by {
            assert((ina(p) || inb(p)) <==> in_grid(g, p));
        }
    }
}

/// Law: the spiral over a rectangle names each of its cells exactly once.
pub proof fn lemma_spiral_from_lists_each_cell_once(t: int, b: int, l: int, r: int)
    requires
        0 <= t <= b <= usize::MAX,
        0 <= l <= r <= usize::MAX,
    ensures
        lists_once(spiral_from(t, b, l, r), |p: Pos| in_rect(p, t, b, l, r)),
    decreases b - t,
{
    let s = spiral_from(t, b, l, r);
    if t < b && l < r {
        let t1 = t + 1;
        let r1 = r - 1;
        let b1 = if t1 < b { b - 1 } else { b };
        let l1 = if l < r1 { l + 1 } else { l };
        let s1 = row_run(t, l, r);
        let s2 = col_run(r1, t1, b);
        let s3 = if t1 < b { row_run_rev(b - 1, l, r1) } else { Seq::<Pos>::empty() };
        let s4 = if l < r1 { col_run_rev(l, t1, b1) } else { Seq::<Pos>::empty() };
        let s5 = spiral_from(t1, b1, l1, r1);
        let p1 = |p: Pos| p.0 == t && l <= p.1 < r;
        let p2 = |p: Pos| p.1 == r1 && t1 <= p.0 < b;
        let p3 = |p: Pos| t1 < b && p.0 == b - 1 && l <= p.1 < r1;
        let p4 = |p: Pos| l < r1 && p.1 == l && t1 <= p.0 < b1;
        let p5 = |p: Pos| in_rect(p, t1, b1, l1, r1);
        lemma_row_run(t, l, r);
        lemma_col_run(r1, t1, b);
        if t1 < b {
            lemma_row_run_rev(b - 1, l, r1);
        }
        assert(lists_once(s3, p3));
        if l < r1 {
            lemma_col_run_rev(l, t1, b1);
        }
        assert(lists_once(s4, p4));
        lemma_spiral_from_lists_each_cell_once(t1, b1, l1, r1);
        let q12 = |p: Pos| p1(p) || p2(p);
        lemma_concat_lists_once(s1, s2, p1, p2);
        let q123 = |p: Pos| q12(p) || p3(p);
        lemma_concat_lists_once(s1 + s2, s3, q12, p3);
        let q1234 = |p: Pos| q123(p) || p4(p);
        lemma_concat_lists_once(s1 + s2 + s3, s4, q123, p4);
        lemma_concat_lists_once(s1 + s2 + s3 + s4, s5, q1234, p5);
        assert(s == s1 + s2 + s3 + s4 + s5);
        assert forall|p: Pos| #[trigger] s.contains(p) <==> in_rect(p, t, b, l, r) by {
            assert((q1234(p) || p5(p)) <==> in_rect(p, t, b, l, r));
        }
    } else {
        assert forall|p: Pos| #[trigger] s.contains(p) <==> in_rect(p, t, b, l, r) by {}
    }
}

/// Law: the swirl visits every cell of the `rows` by `cols` rectangle exactly once.
pub proof fn lemma_spiral_lists_each_cell_once(rows: usize, cols: usize)
    ensures
        lists_once(spiral(rows as int, cols as int), |p: Pos| p.0 < rows && p.1 < cols),
{
    lemma_spiral_from_lists_each_cell_once(0, rows as int, 0, cols as int);
    let s = spiral(rows as int, cols as int);
    assert forall|p: Pos| #[trigger] s.contains(p) <==> (p.0 < rows && p.1 < cols) by {
        assert(in_rect(p, 0, rows as int, 0, cols as int) <==> (p.0 < rows && p.1 < cols));
    }
}

impl Animator {
    /// Every cell of the grid, row by row, each row left to right.
    pub fn all_positions(&self) -> (ps: Vec<Pos>)
        ensures
            ps@ == row_major(self.grid@),
    {
        let g = &self.grid;
        let mut ps: Vec<Pos> = Vec::new();
        let mut r: usize = 0;
        while r < g.len()
            invariant
                r <= g@.len(),
                ps@ == row_major(g@.take(r as int)),
            decreases g@.len() - r,
        {
            let n = g[r].len();
            let ghost base = ps@;
            let mut c: usize = 0;
            while c < n
                invariant
                    r < g@.len(),
                    n == g@[r as int]@.len(),
                    c <= n,
                    ps@ == base + row_run(r as int, 0, c as int),
                decreases n - c,
            {
                ps.push((r, c));
                proof {
                    assert(row_run(r as int, 0, c + 1) =~= row_run(r as int, 0, c as int).push(
                        (r, c),
                    ));
                }
                c = c + 1;
            }
            proof {
                let t = g@.take(r + 1);
                assert(t.drop_last() =~= g@.take(r as int));
                assert(t.last() == g@[r as int]);
            }
            r = r + 1;
        }
        assert(g@.take(g@.len() as int) =~= g@);
        ps
    }

    /// The swirl order: a clockwise spiral over the rectangle spanned by the
    /// number of rows and the width of the first row, from the top-left
    /// corner towards the centre.
    pub fn spiral_positions(&self) -> (ps: Vec<Pos>)
        ensures
            ps@ == spiral(self.grid@.len() as int, grid_cols(self.grid@)),
    {
        let rows = self.grid.len();
        if rows == 0 {
            return Vec::new();
        }
        let cols = self.grid[0].len();
        if cols == 0 {
            return Vec::new();
        }
        let mut ps: Vec<Pos> = Vec::new();
        let mut top: usize = 0;
        let mut bot: usize = rows;
        let mut left: usize = 0;
        let mut right: usize = cols;
        while top < bot && left < right
            invariant
                top <= bot <= rows,
                left <= right <= cols,
                ps@ + spiral_from(top as int, bot as int, left as int, right as int) == spiral(
                    rows as int,
                    cols as int,
                ),
            decreases bot - top,
        {
            let ghost s0 = ps@;
            let ghost (t0, b0, l0, r0) = (top as int, bot as int, left as int, right as int);
            let mut c = left;
            while c < right
                invariant
                    left <= c <= right,
                    ps@ == s0 + row_run(top as int, left as int, c as int),
                decreases right - c,
            {
                ps.push((top, c));
                proof {
                    assert(row_run(top as int, left as int, c + 1) =~= row_run(
                        top as int,
                        left as int,
                        c as int,
                    ).push((top, c)));
                }
                c = c + 1;
            }
            top = top + 1;
            let ghost s1 = ps@;
            let mut r = top;
            while r < bot
                invariant
                    top <= r <= bot,
                    0 < right,
                    ps@ == s1 + col_run(right - 1, top as int, r as int),
                decreases bot - r,
            {
                ps.push((r, right - 1));
                proof {
                    assert(col_run(right - 1, top as int, r + 1) =~= col_run(
                        right - 1,
                        top as int,
                        r as int,
                    ).push((r, (right - 1) as usize)));
                }
                r = r + 1;
            }
            right = right - 1;
            let ghost s2 = ps@;
            if top < bot {
                let mut c = right;
                while c > left
                    invariant
                        left <= c <= right,
                        0 < bot,
                        ps@ == s2 + row_run_rev(bot - 1, c as int, right as int),
                    decreases c - left,
                {
                    ps.push((bot - 1, c - 1));
                    proof {
                        assert(row_run_rev(bot - 1, c - 1, right as int) =~= row_run_rev(
                            bot - 1,
                            c as int,
                            right as int,
                        ).push(((bot - 1) as usize, (c - 1) as usize)));
                    }
                    c = c - 1;
                }
                bot = bot - 1;
            }
            let ghost s3 = ps@;
            if left < right {
                let mut r = bot;
                while r > top
                    invariant
                        top <= r <= bot,
                        ps@ == s3 + col_run_rev(left as int, r as int, bot as int),
                    decreases r - top,
                {
                    ps.push((r - 1, left));
                    proof {
                        assert(col_run_rev(left as int, r - 1, bot as int) =~= col_run_rev(
                            left as int,
                            r as int,
                            bot as int,
                        ).push(((r - 1) as usize, left)));
                    }
                    r = r - 1;
                }
                left = left + 1;
            }
            proof {
                let t1 = t0 + 1;
                let r1 = r0 - 1;
                let b1 = if t1 < b0 { b0 - 1 } else { b0 };
                let l1 = if l0 < r1 { l0 + 1 } else { l0 };
                let sb = if t1 < b0 { row_run_rev(b0 - 1, l0, r1) } else { Seq::<Pos>::empty() };
                let sl = if l0 < r1 { col_run_rev(l0, t1, b1) } else { Seq::<Pos>::empty() };
                assert(top == t1 && bot == b1 && left == l1 && right == r1);
                assert(s2 == s0 + row_run(t0, l0, r0) + col_run(r1, t1, b0));
                assert(s3 == s2 + sb);
                assert(ps@ == s3 + sl);
                assert(spiral_from(t0, b0, l0, r0) == row_run(t0, l0, r0) + col_run(r1, t1, b0)
                    + sb + sl + spiral_from(t1, b1, l1, r1));
                assert(ps@ + spiral_from(t1, b1, l1, r1) =~= s0 + spiral_from(t0, b0, l0, r0));
            }
        }
        assert(ps@ =~= ps@ + spiral_from(top as int, bot as int, left as int, right as int));
        ps
    }
}

} // verus!
