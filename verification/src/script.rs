use vstd::prelude::*;
use vstd::arithmetic::div_mod::{lemma_fundamental_div_mod, lemma_mod_pos_bound};
use crate::animator::Animator;
use crate::cell::Cell;
use crate::positions::row_major;
use crate::runs::Pos;

verus! {

/// One thing for the terminal driver to do. Cells are named by position; the
/// driver writes the cell's colour codes and glyph.
#[derive(Clone, Copy, Debug, PartialEq, Eq, Structural)]
pub enum Step {
    /// Hide the cursor and clear the screen.
    HideCursorAndClear,
    /// Show the cursor again.
    ShowCursor,
    /// Clear the screen.
    ClearScreen,
    /// Move the cursor to the top-left corner.
    Home,
    /// Move the cursor to the cell's place and write the cell.
    DrawCell(usize, usize),
    /// Move the cursor to the cell's place and write a blank.
    ClearCell(usize, usize),
    /// Write the cell where the cursor is.
    PutCell(usize, usize),
    /// Clear the rest of the current line.
    ClearLineEnd,
    /// Start a new line.
    NewLine,
    /// Flush the output.
    Flush,
    /// Note the current time as the start of a paced sequence of frames.
    StartClock,
    /// Wait until this many nanoseconds have passed since the last `StartClock`.
    SleepUntil(u64),
    /// Wait this many nanoseconds.
    Sleep(u64),
}

/// `n`, but at least 1.
pub open spec fn at_least_one(n: nat) -> nat {
    if n == 0 {
        1
    } else {
        n
    }
}

/// `a / b` rounded up.
pub open spec fn ceil_div(a: nat, b: nat) -> nat {
    ((a + b - 1) as nat / b) as nat
}

/// `a - b`, but not below zero.
pub open spec fn sat_sub(a: int, b: int) -> int {
    if a > b {
        a - b
    } else {
        0
    }
}

/// Write (or blank out) the cells at the given positions, in order.
pub open spec fn cell_steps(ps: Seq<Pos>, reveal: bool) -> Seq<Step> {
    ps.map_values(
        |p: Pos|
            if reveal {
                Step::DrawCell(p.0, p.1)
            } else {
                Step::ClearCell(p.0, p.1)
            },
    )
}

/// Draw the whole grid row by row, then flush.
pub open spec fn draw_full_steps(g: Seq<Vec<Cell>>) -> Seq<Step> {
    cell_steps(row_major(g), true).push(Step::Flush)
}

/// The frames of a batched reveal, from the frame with number `k`, whose
/// cells start at index `start` of `ps`: each frame writes the next `per`
/// cells (fewer in the last one), flushes, and waits until `frame * (k + 1)`
/// nanoseconds after the start.
pub open spec fn chunk_steps(ps: Seq<Pos>, start: int, k: int, per: int, frame: int, reveal: bool) -> Seq<Step>
    decreases ps.len() - start,
{
    if per <= 0 || start < 0 || start >= ps.len() {
        Seq::empty()
    } else {
        let end = if start + per < ps.len() {
            start + per
        } else {
            ps.len() as int
        };
        cell_steps(ps.subrange(start, end), reveal) + seq![
            Step::Flush,
            Step::SleepUntil((frame * (k + 1)) as u64),
        ] + chunk_steps(ps, end, k + 1, per, frame, reveal)
    }
}

/// Reveal (or clear) the cells `ps` over `frames` frames of equal length
/// spread over `nanos` nanoseconds; a reveal ends by drawing the whole grid.
pub open spec fn batched_steps(g: Seq<Vec<Cell>>, ps: Seq<Pos>, reveal: bool, frames: nat, nanos: nat) -> Seq<Step> {
    if ps.len() == 0 {
        Seq::empty()
    } else {
        let n = at_least_one(frames);
        seq![Step::StartClock] + chunk_steps(
            ps,
            0,
            0,
            ceil_div(ps.len(), n) as int,
            (nanos / n) as int,
            reveal,
        ) + if reveal {
            draw_full_steps(g)
        } else {
            Seq::empty()
        }
    }
}

/// Share `j` of `n` equal shares of `nanos` is at most `nanos`.
pub proof fn lemma_share_fits(nanos: int, n: int, j: int)
    requires
        0 <= nanos,
        1 <= j <= n,
    ensures
        0 <= (nanos / n) * j <= nanos,
{
    lemma_fundamental_div_mod(nanos, n);
    lemma_mod_pos_bound(nanos, n);
    let q = nanos / n;
    assert(q >= 0) by (nonlinear_arith)
        requires
            nanos == n * q + nanos % n,
            0 <= nanos % n < n,
            0 <= nanos,
    ;
    assert(0 <= q * j <= q * n) by (nonlinear_arith)
        requires
            q >= 0,
            1 <= j <= n,
    ;
}

/// With `ceil(total / n)` cells per frame, a frame that starts before the
/// end has a number below `n`.
pub proof fn lemma_frame_number_below(total: int, n: int, per: int, k: int)
    requires
        n >= 1,
        total >= 1,
        per == (total + n - 1) / n,
        0 <= k,
        k * per < total,
    ensures
        k < n,
        per >= 1,
{
    lemma_fundamental_div_mod(total + n - 1, n);
    lemma_mod_pos_bound(total + n - 1, n);
    assert(n * per >= total) by (nonlinear_arith)
        requires
            total + n - 1 == n * per + (total + n - 1) % n,
            0 <= (total + n - 1) % n < n,
    ;
    assert(per >= 1) by (nonlinear_arith)
        requires
            n * per >= total,
            total >= 1,
            n >= 1,
    ;
    assert(k < n) by (nonlinear_arith)
        requires
            k * per < total,
            n * per >= total,
            per >= 1,
    ;
}

/// How long to wait for a frame due `target` nanoseconds after the clock
/// started when `elapsed` nanoseconds have passed: nothing if it is already
/// due, else the time left.
pub fn wait_for(target: u64, elapsed: u64) -> (w: Option<u64>)
    ensures
        elapsed < target ==> w == Some((target - elapsed) as u64),
        elapsed >= target ==> w is None,
{
    if elapsed < target {
        Some(target - elapsed)
    } else {
        None
    }
}

/// Appends the write (or blank) steps for `ps[from..to]`.
fn push_cells(steps: &mut Vec<Step>, ps: &Vec<Pos>, from: usize, to: usize, reveal: bool)
    requires
        from <= to <= ps@.len(),
    ensures
        final(steps)@ == old(steps)@ + cell_steps(ps@.subrange(from as int, to as int), reveal),
{
    let ghost base = steps@;
    let mut j = from;
    while j < to
        invariant
            from <= j <= to <= ps@.len(),
            steps@ == base + cell_steps(ps@.subrange(from as int, j as int), reveal),
        decreases to - j,
    {
        let p = ps[j];
        if reveal {
            steps.push(Step::DrawCell(p.0, p.1));
        } else {
            steps.push(Step::ClearCell(p.0, p.1));
        }
        proof {
            assert(cell_steps(ps@.subrange(from as int, j + 1), reveal) =~= cell_steps(
                ps@.subrange(from as int, j as int),
                reveal,
            ).push(steps@.last()));
        }
        j = j + 1;
    }
}

impl Animator {
    /// Draws the whole grid, row by row, then flushes.
    pub fn draw_full(&self) -> (steps: Vec<Step>)
        ensures
            steps@ == draw_full_steps(self.grid@),
    {
        let ps = self.all_positions();
        let mut steps: Vec<Step> = Vec::new();
        push_cells(&mut steps, &ps, 0, ps.len(), true);
        steps.push(Step::Flush);
        assert(ps@.subrange(0, ps@.len() as int) =~= ps@);
        steps
    }

    /// Reveals (or, with `reveal` false, blanks out) the cells `ps` in order,
    /// spread evenly over `frames` frames that share the duration; a reveal
    /// ends by drawing the whole grid. `frames` is the number of frames at the
    /// effect's frame rate that fit in the duration.
    pub fn play_batched(&self, ps: &Vec<Pos>, reveal: bool, frames: usize) -> (steps: Vec<Step>)
        requires
            ps@.len() == 0 || frames <= u32::MAX,
        ensures
            steps@ == batched_steps(self.grid@, ps@, reveal, frames as nat, self.duration_nanos as nat),
    {
        let total = ps.len();
        if total == 0 {
            return Vec::new();
        }
        let n: usize = if frames == 0 { 1 } else { frames };
        let per: usize = (total - 1) / n + 1;
        proof {
            assert(per == (total + n - 1) / (n as int)) by (nonlinear_arith)
                requires
                    per == (total - 1) / (n as int) + 1,
                    n >= 1,
                    total >= 1,
            {
                lemma_fundamental_div_mod(total - 1, n as int);
                lemma_mod_pos_bound(total - 1, n as int);
                lemma_fundamental_div_mod(total + n - 1, n as int);
                lemma_mod_pos_bound(total + n - 1, n as int);
            }
        }
        let frame: u64 = self.duration_nanos / (n as u64);
        let ghost nanos = self.duration_nanos as int;
        let ghost target = chunk_steps(ps@, 0, 0, per as int, frame as int, reveal);
        let mut steps: Vec<Step> = Vec::new();
        steps.push(Step::StartClock);
        let mut start: usize = 0;
        let mut k: usize = 0;
        while start < total
            invariant
                total == ps@.len(),
                total >= 1,
                n >= 1,
                n as u64 <= u32::MAX,
                per == (total + n - 1) / (n as int),
                frame == nanos / (n as int),
                nanos == self.duration_nanos,
                start <= total,
                start < total ==> start == k * per,
                seq![Step::StartClock] + target == steps@ + chunk_steps(
                    ps@,
                    start as int,
                    k as int,
                    per as int,
                    frame as int,
                    reveal,
                ),
            decreases total - start,
        {
            proof {
                lemma_frame_number_below(total as int, n as int, per as int, k as int);
                lemma_share_fits(nanos, n as int, k + 1);
            }
            let end: usize = if per < total - start { start + per } else { total };
            let ghost before = steps@;
            push_cells(&mut steps, ps, start, end, reveal);
            steps.push(Step::Flush);
            let at: u64 = frame * ((k + 1) as u64);
            steps.push(Step::SleepUntil(at));
            proof {
                assert(steps@ =~= before + cell_steps(ps@.subrange(start as int, end as int), reveal)
                    + seq![Step::Flush, Step::SleepUntil((frame * (k + 1)) as u64)]);
                if end < total {
                    assert((k + 1) * per == k * per + per) by (nonlinear_arith);
                }
            }
            start = end;
            k = k + 1;
        }
        if reveal {
            let mut rest = self.draw_full();
            steps.append(&mut rest);
        }
        steps
    }
}

} // verus!
