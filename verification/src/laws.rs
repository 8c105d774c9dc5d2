use vstd::prelude::*;
use crate::animator::Animator;
use crate::cell::{Cell, grid_cols};
use crate::effect::{Effect, effect_name};
use crate::orders::{keys_cover, lemma_rearrangement_lists_once, lemma_reverse_lists_once, lemma_whirl_keys_ascend, lemma_whirl_lists_each_cell_once, whirl_order};
use crate::walk::{is_walk, lemma_spiral_from_is_clockwise_walk, turns_clockwise};
use crate::play::{Measurements, effect_steps, ken_burns_steps, min_int, pan_fits, pan_frame, pan_frames, pan_line, pan_lines, play_steps};
use crate::positions::{in_grid, lemma_row_major_lists_each_cell_once, lemma_spiral_lists_each_cell_once, row_major, spiral};
use crate::runs::{Pos, lists_once};
use crate::script::{Step, at_least_one, batched_steps, ceil_div, cell_steps, chunk_steps, draw_full_steps, lemma_frame_number_below, lemma_share_fits, sat_sub};

verus! {

proof fn lemma_name_shape(e: Effect)
    ensures
        e == Effect::DissolveIn ==> effect_name(e).len() == 11,
        e == Effect::DissolveOut ==> effect_name(e).len() == 12,
        e == Effect::SwirlIn ==> effect_name(e).len() == 8 && effect_name(e)[0] == 's',
        e == Effect::WhirlIn ==> effect_name(e).len() == 8 && effect_name(e)[0] == 'w',
        e == Effect::SwirlOut ==> effect_name(e).len() == 9 && effect_name(e)[0] == 's',
        e == Effect::WhirlOut ==> effect_name(e).len() == 9 && effect_name(e)[0] == 'w',
        e == Effect::KenBurns ==> effect_name(e).len() == 9 && effect_name(e)[0] == 'k',
{
    reveal_strlit("dissolve-in");
    reveal_strlit("dissolve-out");
    reveal_strlit("swirl-in");
    reveal_strlit("swirl-out");
    reveal_strlit("whirl-in");
    reveal_strlit("whirl-out");
    reveal_strlit("ken-burns");
}

/// Law: no two effects share a name, so a name parses back to its own effect.
pub proof fn lemma_effect_names_distinct(a: Effect, b: Effect)
    ensures
        effect_name(a) == effect_name(b) ==> a == b,
{
    lemma_name_shape(a);
    lemma_name_shape(b);
}

} // verus!

verus! {

/// The cells that a list of steps writes with `DrawCell` or blanks with
/// `ClearCell`, in order.
pub open spec fn touched(steps: Seq<Step>) -> Seq<Pos>
    decreases steps.len(),
{
    if steps.len() == 0 {
        Seq::empty()
    } else {
        touched(steps.drop_last()) + match steps.last() {
            Step::DrawCell(r, c) => seq![(r, c)],
            Step::ClearCell(r, c) => seq![(r, c)],
            _ => Seq::empty(),
        }
    }
}

/// Every timed wait in the steps ends at most `nanos` after its clock started.
pub open spec fn waits_within(steps: Seq<Step>, nanos: nat) -> bool {
    forall|i: int|
        0 <= i < steps.len() ==> (#[trigger] steps[i] matches Step::SleepUntil(t) ==> t <= nanos)
}

pub proof fn lemma_touched_concat(a: Seq<Step>, b: Seq<Step>)
    ensures
        touched(a + b) == touched(a) + touched(b),
    decreases b.len(),
{
    if b.len() == 0 {
        assert(a + b =~= a);
        assert(touched(a) + touched(b) =~= touched(a));
    } else {
        assert((a + b).drop_last() =~= a + b.drop_last());
        assert((a + b).last() == b.last());
        lemma_touched_concat(a, b.drop_last());
        assert(touched(a + b) =~= touched(a) + touched(b));
    }
}

pub proof fn lemma_touched_cells(ps: Seq<Pos>, reveal: bool)
    ensures
        touched(cell_steps(ps, reveal)) == ps,
    decreases ps.len(),
{
    if ps.len() > 0 {
        assert(cell_steps(ps, reveal).drop_last() =~= cell_steps(ps.drop_last(), reveal));
        lemma_touched_cells(ps.drop_last(), reveal);
        assert(ps.drop_last().push(ps.last()) =~= ps);
    } else {
        assert(cell_steps(ps, reveal) =~= Seq::<Step>::empty());
        assert(ps =~= Seq::<Pos>::empty());
    }
}

proof fn lemma_touched_flush_sleep(t: u64)
    ensures
        touched(seq![Step::Flush, Step::SleepUntil(t)]) == Seq::<Pos>::empty(),
{
    let s = seq![Step::Flush, Step::SleepUntil(t)];
    assert(s.drop_last() =~= seq![Step::Flush]);
    assert(seq![Step::Flush].drop_last() =~= Seq::<Step>::empty());
    assert(touched(Seq::<Step>::empty()) =~= Seq::<Pos>::empty());
    assert(seq![Step::Flush].last() == Step::Flush);
    assert(touched(seq![Step::Flush]) =~= Seq::<Pos>::empty());
    assert(touched(s) =~= Seq::<Pos>::empty());
}

proof fn lemma_touched_chunks(ps: Seq<Pos>, start: int, k: int, per: int, frame: int, reveal: bool)
    requires
        0 <= start <= ps.len(),
        per > 0,
    ensures
        touched(chunk_steps(ps, start, k, per, frame, reveal)) == ps.subrange(start, ps.len() as int),
    decreases ps.len() - start,
{
    if start < ps.len() {
        let end = if start + per < ps.len() {
            start + per
        } else {
            ps.len() as int
        };
        let a = cell_steps(ps.subrange(start, end), reveal);
        let b = seq![Step::Flush, Step::SleepUntil((frame * (k + 1)) as u64)];
        let c = chunk_steps(ps, end, k + 1, per, frame, reveal);
        lemma_touched_chunks(ps, end, k + 1, per, frame, reveal);
        lemma_touched_concat(a + b, c);
        lemma_touched_concat(a, b);
        lemma_touched_cells(ps.subrange(start, end), reveal);
        lemma_touched_flush_sleep((frame * (k + 1)) as u64);
        assert(ps.subrange(start, end) + ps.subrange(end, ps.len() as int) =~= ps.subrange(
            start,
            ps.len() as int,
        ));
        assert(touched(a + b) =~= ps.subrange(start, end));
    } else {
        assert(ps.subrange(start, ps.len() as int) =~= Seq::<Pos>::empty());
    }
}

/// Law: a batched effect writes (or blanks) exactly the cells it is given,
/// in the order given, spread over its frames; a reveal then draws the whole
/// grid once more.
pub proof fn lemma_batched_touches_in_order(
    g: Seq<Vec<Cell>>,
    ps: Seq<Pos>,
    reveal: bool,
    frames: nat,
    nanos: nat,
)
    requires
        ps.len() > 0,
    ensures
        touched(batched_steps(g, ps, reveal, frames, nanos)) == ps + if reveal {
            row_major(g)
        } else {
            Seq::empty()
        },
{
    let n = at_least_one(frames);
    let per = ceil_div(ps.len(), n) as int;
    assert(per > 0) by {
        lemma_frame_number_below(ps.len() as int, n as int, per, 0);
    }
    let ch = chunk_steps(ps, 0, 0, per, (nanos / n) as int, reveal);
    let tail = if reveal {
        draw_full_steps(g)
    } else {
        Seq::empty()
    };
    lemma_touched_chunks(ps, 0, 0, per, (nanos / n) as int, reveal);
    lemma_touched_concat(seq![Step::StartClock] + ch, tail);
    lemma_touched_concat(seq![Step::StartClock], ch);
    assert(seq![Step::StartClock].drop_last() =~= Seq::<Step>::empty());
    assert(touched(Seq::<Step>::empty()) =~= Seq::<Pos>::empty());
    assert(seq![Step::StartClock].last() == Step::StartClock);
    assert(touched(seq![Step::StartClock]) =~= Seq::<Pos>::empty());
    assert(ps.subrange(0, ps.len() as int) =~= ps);
    if reveal {
        let d = cell_steps(row_major(g), true);
        assert(draw_full_steps(g).drop_last() == d);
        lemma_touched_cells(row_major(g), true);
        assert(touched(tail) == row_major(g));
    } else {
        assert(touched(tail) =~= Seq::<Pos>::empty());
    }
}

pub proof fn lemma_waits_within_concat(a: Seq<Step>, b: Seq<Step>, nanos: nat)
    requires
        waits_within(a, nanos),
        waits_within(b, nanos),
    ensures
        waits_within(a + b, nanos),
{
    assert forall|i: int| 0 <= i < (a + b).len() implies (#[trigger] (a + b)[i] matches Step::SleepUntil(
        t,
    ) ==> t <= nanos) by {
        if i < a.len() {
            assert((a + b)[i] == a[i]);
        } else {
            assert((a + b)[i] == b[i - a.len()]);
        }
    }
}

proof fn lemma_cell_steps_wait_nothing(ps: Seq<Pos>, reveal: bool, nanos: nat)
    ensures
        waits_within(cell_steps(ps, reveal), nanos),
{
}

proof fn lemma_chunks_wait_within(ps: Seq<Pos>, start: int, k: int, n: int, nanos: int, reveal: bool)
    requires
        ps.len() >= 1,
        n >= 1,
        0 <= nanos <= u64::MAX,
        0 <= k,
        0 <= start,
        start < ps.len() ==> start == k * ((ps.len() + n - 1) / n),
    ensures
        waits_within(
            chunk_steps(ps, start, k, (ps.len() + n - 1) / n, nanos / n, reveal),
            nanos as nat,
        ),
    decreases ps.len() - start,
{
    let per = (ps.len() + n - 1) / n;
    if per > 0 && start < ps.len() {
        lemma_frame_number_below(ps.len() as int, n, per, k);
        lemma_share_fits(nanos, n, k + 1);
        let end = if start + per < ps.len() {
            start + per
        } else {
            ps.len() as int
        };
        if end < ps.len() {
            assert((k + 1) * per == k * per + per) by (nonlinear_arith);
        }
        lemma_chunks_wait_within(ps, end, k + 1, n, nanos, reveal);
        let a = cell_steps(ps.subrange(start, end), reveal);
        let b = seq![Step::Flush, Step::SleepUntil(((nanos / n) * (k + 1)) as u64)];
        lemma_cell_steps_wait_nothing(ps.subrange(start, end), reveal, nanos as nat);
        lemma_waits_within_concat(a, b, nanos as nat);
        lemma_waits_within_concat(a + b, chunk_steps(ps, end, k + 1, per, nanos / n, reveal), nanos as nat);
    }
}

/// Law: every frame of a batched effect is due within the effect's duration.
pub proof fn lemma_batched_waits_within_duration(
    g: Seq<Vec<Cell>>,
    ps: Seq<Pos>,
    reveal: bool,
    frames: nat,
    nanos: u64,
)
    ensures
        waits_within(batched_steps(g, ps, reveal, frames, nanos as nat), nanos as nat),
{
    if ps.len() > 0 {
        let n = at_least_one(frames) as int;
        lemma_chunks_wait_within(ps, 0, 0, n, nanos as int, reveal);
        let ch = chunk_steps(ps, 0, 0, (ps.len() + n - 1) / n, (nanos as int) / n, reveal);
        assert(ceil_div(ps.len(), n as nat) as int == (ps.len() + n - 1) / n);
        let tail = if reveal {
            draw_full_steps(g)
        } else {
            Seq::empty()
        };
        assert(waits_within(tail, nanos as nat));
        assert(waits_within(seq![Step::StartClock], nanos as nat));
        lemma_waits_within_concat(seq![Step::StartClock], ch, nanos as nat);
        lemma_waits_within_concat(seq![Step::StartClock] + ch, tail, nanos as nat);
    }
}

/// Law: whatever random order a dissolve draws, it draws every cell of the
/// grid exactly once.
pub proof fn lemma_dissolve_order_lists_each_cell_once(g: Seq<Vec<Cell>>, order: Seq<Pos>)
    requires
        g.len() <= usize::MAX,
        forall|r: int| 0 <= r < g.len() ==> #[trigger] g[r]@.len() <= usize::MAX,
        order.to_multiset() == row_major(g).to_multiset(),
    ensures
        lists_once(order, |p: Pos| in_grid(g, p)),
{
    lemma_row_major_lists_each_cell_once(g);
    lemma_rearrangement_lists_once(order, row_major(g), |p: Pos| in_grid(g, p));
}

/// Law: an animation always starts by hiding the cursor and clearing the
/// screen, and always ends by showing the cursor and flushing.
pub proof fn lemma_play_restores_cursor(a: Animator, m: Measurements, order: Seq<Pos>)
    ensures
        ({
            let s = play_steps(a, m, order);
            &&& s.len() >= 4
            &&& s[0] == Step::HideCursorAndClear
            &&& s[s.len() - 2] == Step::ShowCursor
            &&& s[s.len() - 1] == Step::Flush
        }),
{
}

} // verus!

verus! {

/// Every cell written where the cursor runs lies in the `rows` by `cols` rectangle.
pub open spec fn puts_inside(steps: Seq<Step>, rows: int, cols: int) -> bool {
    forall|i: int|
        0 <= i < steps.len() ==> (#[trigger] steps[i] matches Step::PutCell(r, c) ==> r < rows && c
            < cols)
}

pub proof fn lemma_puts_inside_concat(a: Seq<Step>, b: Seq<Step>, rows: int, cols: int)
    requires
        puts_inside(a, rows, cols),
        puts_inside(b, rows, cols),
    ensures
        puts_inside(a + b, rows, cols),
{
    assert forall|i: int| 0 <= i < (a + b).len() implies (#[trigger] (a + b)[i] matches Step::PutCell(
        r,
        c,
    ) ==> r < rows && c < cols) by {
        if i < a.len() {
            assert((a + b)[i] == a[i]);
        } else {
            assert((a + b)[i] == b[i - a.len()]);
        }
    }
}

proof fn lemma_pan_lines_inside(y: int, x: int, h: int, w: int, vh: int, rows: int, cols: int)
    requires
        0 <= y,
        0 <= x,
        y + h <= rows <= usize::MAX,
        x + w <= cols <= usize::MAX,
    ensures
        puts_inside(pan_lines(y, x, h, w, vh), rows, cols),
    decreases h,
{
    if h > 0 {
        lemma_pan_lines_inside(y, x, h - 1, w, vh, rows, cols);
        let line = pan_line(y, x, h - 1, w, vh);
        assert(puts_inside(line, rows, cols));
        lemma_puts_inside_concat(pan_lines(y, x, h - 1, w, vh), line, rows, cols);
    }
}

proof fn lemma_pan_frames_inside(m: Measurements, rows: int, cols: int, frame: int, f: int)
    requires
        pan_fits(m, rows, cols),
        2 <= rows <= usize::MAX,
        2 <= cols <= usize::MAX,
        f <= m.pan@.len(),
    ensures
        puts_inside(
            pan_frames(m.pan@, rows, cols, m.view_h as int, m.view_w as int, frame, f),
            rows,
            cols,
        ),
    decreases f,
{
    if f > 0 {
        let vh = m.view_h as int;
        let vw = m.view_w as int;
        lemma_pan_frames_inside(m, rows, cols, frame, f - 1);
        let y = m.pan@[f - 1].0 as int;
        let x = m.pan@[f - 1].1 as int;
        assert(y <= sat_sub(rows, vh) && x <= sat_sub(cols, vw));
        let lines = pan_lines(y, x, min_int(vh, rows - y), min_int(vw, cols - x), vh);
        lemma_pan_lines_inside(y, x, min_int(vh, rows - y), min_int(vw, cols - x), vh, rows, cols);
        lemma_puts_inside_concat(seq![Step::Home], lines, rows, cols);
        lemma_puts_inside_concat(seq![Step::Home] + lines, seq![Step::Flush], rows, cols);
        let before = pan_frames(m.pan@, rows, cols, vh, vw, frame, f - 1);
        let fr = pan_frame(rows, cols, vh, vw, y, x);
        lemma_puts_inside_concat(before, fr, rows, cols);
        lemma_puts_inside_concat(before + fr, seq![Step::SleepUntil((frame * f) as u64)], rows, cols);
    }
}

/// Law: the Ken Burns viewport never leaves the grid: every cell it writes
/// lies within the rows and the width of the first row.
pub proof fn lemma_ken_burns_stays_inside(g: Seq<Vec<Cell>>, nanos: nat, m: Measurements)
    requires
        g.len() <= usize::MAX,
        grid_cols(g) <= usize::MAX,
        pan_fits(m, g.len() as int, grid_cols(g)),
    ensures
        puts_inside(ken_burns_steps(g, nanos, m), g.len() as int, grid_cols(g)),
{
    let rows = g.len() as int;
    let cols = grid_cols(g);
    let vh = m.view_h as int;
    let vw = m.view_w as int;
    if rows == 0 {
    } else if rows <= 1 || cols <= 1 || (sat_sub(rows, vh) == 0 && sat_sub(cols, vw) == 0) {
        assert(puts_inside(draw_full_steps(g).push(Step::Sleep(nanos as u64)), rows, cols));
    } else {
        let n = at_least_one(m.pan@.len());
        let frame = (nanos / n) as int;
        lemma_pan_frames_inside(m, rows, cols, frame, m.pan@.len() as int);
        let pf = pan_frames(m.pan@, rows, cols, vh, vw, frame, m.pan@.len() as int);
        lemma_puts_inside_concat(seq![Step::StartClock], pf, rows, cols);
        lemma_puts_inside_concat(seq![Step::StartClock] + pf, seq![Step::ClearScreen], rows, cols);
        lemma_puts_inside_concat(
            seq![Step::StartClock] + pf + seq![Step::ClearScreen],
            draw_full_steps(g),
            rows,
            cols,
        );
    }
}

} // verus!

verus! {

proof fn lemma_pan_frames_wait_within(m: Measurements, rows: int, cols: int, nanos: int, f: int)
    requires
        0 <= nanos <= u64::MAX,
        0 <= f <= m.pan@.len(),
    ensures
        waits_within(
            pan_frames(
                m.pan@,
                rows,
                cols,
                m.view_h as int,
                m.view_w as int,
                nanos / (at_least_one(m.pan@.len()) as int),
                f,
            ),
            nanos as nat,
        ),
    decreases f,
{
    if f > 0 {
        let n = at_least_one(m.pan@.len()) as int;
        let frame = nanos / n;
        let vh = m.view_h as int;
        let vw = m.view_w as int;
        lemma_pan_frames_wait_within(m, rows, cols, nanos, f - 1);
        lemma_share_fits(nanos, n, f);
        let before = pan_frames(m.pan@, rows, cols, vh, vw, frame, f - 1);
        let fr = pan_frame(rows, cols, vh, vw, m.pan@[f - 1].0 as int, m.pan@[f - 1].1 as int);
        let lines = pan_lines(
            m.pan@[f - 1].0 as int,
            m.pan@[f - 1].1 as int,
            min_int(vh, rows - m.pan@[f - 1].0),
            min_int(vw, cols - m.pan@[f - 1].1),
            vh,
        );
        assert forall|i: int| 0 <= i < lines.len() implies !(#[trigger] lines[i] is SleepUntil) by {
            lemma_pan_lines_never_wait(
                m.pan@[f - 1].0 as int,
                m.pan@[f - 1].1 as int,
                min_int(vh, rows - m.pan@[f - 1].0),
                min_int(vw, cols - m.pan@[f - 1].1),
                vh,
                i,
            );
        }
        assert(waits_within(fr, nanos as nat)) by {
            assert forall|i: int| 0 <= i < fr.len() implies (#[trigger] fr[i] matches Step::SleepUntil(t) ==> t <= nanos) by {
                if 1 <= i < 1 + lines.len() {
                    assert(fr[i] == lines[i - 1]);
                }
            }
        }
        let w = seq![Step::SleepUntil((frame * f) as u64)];
        assert(waits_within(w, nanos as nat));
        lemma_waits_within_concat(before, fr, nanos as nat);
        lemma_waits_within_concat(before + fr, w, nanos as nat);
    }
}

proof fn lemma_pan_lines_never_wait(y: int, x: int, h: int, w: int, vh: int, i: int)
    requires
        0 <= i < pan_lines(y, x, h, w, vh).len(),
    ensures
        !(pan_lines(y, x, h, w, vh)[i] is SleepUntil),
    decreases h,
{
    if h > 0 {
        let a = pan_lines(y, x, h - 1, w, vh);
        let b = pan_line(y, x, h - 1, w, vh);
        assert(pan_lines(y, x, h, w, vh) == a + b);
        if i < a.len() {
            lemma_pan_lines_never_wait(y, x, h - 1, w, vh, i);
        } else {
            assert((a + b)[i] == b[i - a.len()]);
        }
    }
}

/// Law: every Ken Burns frame is due within the effect's duration.
pub proof fn lemma_ken_burns_waits_within_duration(g: Seq<Vec<Cell>>, nanos: u64, m: Measurements)
    ensures
        waits_within(ken_burns_steps(g, nanos as nat, m), nanos as nat),
{
    let rows = g.len() as int;
    let cols = grid_cols(g);
    let vh = m.view_h as int;
    let vw = m.view_w as int;
    if rows == 0 {
    } else if rows <= 1 || cols <= 1 || (sat_sub(rows, vh) == 0 && sat_sub(cols, vw) == 0) {
        assert(waits_within(draw_full_steps(g).push(Step::Sleep(nanos)), nanos as nat));
    } else {
        let n = at_least_one(m.pan@.len());
        lemma_pan_frames_wait_within(m, rows, cols, nanos as int, m.pan@.len() as int);
        let pf = pan_frames(m.pan@, rows, cols, vh, vw, (nanos as nat / n) as int, m.pan@.len() as int);
        assert(pf == pan_frames(m.pan@, rows, cols, vh, vw, (nanos as int) / (n as int), m.pan@.len() as int));
        assert(waits_within(seq![Step::StartClock], nanos as nat));
        assert(waits_within(seq![Step::ClearScreen], nanos as nat));
        assert(waits_within(draw_full_steps(g), nanos as nat));
        lemma_waits_within_concat(seq![Step::StartClock], pf, nanos as nat);
        lemma_waits_within_concat(seq![Step::StartClock] + pf, seq![Step::ClearScreen], nanos as nat);
        lemma_waits_within_concat(
            seq![Step::StartClock] + pf + seq![Step::ClearScreen],
            draw_full_steps(g),
            nanos as nat,
        );
    }
}

} // verus!

verus! {

/// Law: swirl-in writes the cells along the clockwise spiral from the
/// top-left corner: the cells it writes before the closing full redraw start
/// in the corner, go from each cell to a neighbour, only go on or turn
/// clockwise, and name every cell of the rectangle once.
pub proof fn lemma_swirl_in_walks_clockwise_from_the_corner(a: Animator, m: Measurements, order: Seq<Pos>)
    requires
        a.effect == Effect::SwirlIn,
        a.grid@.len() >= 1,
        grid_cols(a.grid@) >= 1,
    ensures
        exists|s: Seq<Pos>|
            {
                &&& touched(effect_steps(a, m, order)) == s + row_major(a.grid@)
                &&& s[0] == (0usize, 0usize)
                &&& is_walk(s)
                &&& turns_clockwise(s)
                &&& lists_once(
                    s,
                    |p: Pos| p.0 < a.grid@.len() && p.1 < grid_cols(a.grid@),
                )
            },
{
    let g = a.grid@;
    let rows = g.len() as int;
    let cols = grid_cols(g);
    assert(rows <= usize::MAX && cols <= usize::MAX) by {
        assert(a.grid.len() == g.len());
        assert(g[0].len() == g[0]@.len());
    }
    let s = spiral(rows, cols);
    lemma_spiral_from_is_clockwise_walk(0, rows, 0, cols);
    lemma_spiral_lists_each_cell_once(rows as usize, cols as usize);
    lemma_batched_touches_in_order(g, s, true, m.batch_frames as nat, a.duration_nanos as nat);
    assert(lists_once(s, |p: Pos| p.0 < g.len() && p.1 < grid_cols(g)));
}

/// Law: swirl-out writes the same spiral backwards, from the centre out: the
/// cells it writes before the closing full redraw end in the top-left corner,
/// and read backwards they are the clockwise walk from that corner.
pub proof fn lemma_swirl_out_walks_back_to_the_corner(a: Animator, m: Measurements, order: Seq<Pos>)
    requires
        a.effect == Effect::SwirlOut,
        a.grid@.len() >= 1,
        grid_cols(a.grid@) >= 1,
    ensures
        exists|s: Seq<Pos>|
            {
                &&& touched(effect_steps(a, m, order)) == s + row_major(a.grid@)
                &&& s.len() >= 1
                &&& s.last() == (0usize, 0usize)
                &&& is_walk(s.reverse())
                &&& turns_clockwise(s.reverse())
                &&& lists_once(
                    s,
                    |p: Pos| p.0 < a.grid@.len() && p.1 < grid_cols(a.grid@),
                )
            },
{
    let g = a.grid@;
    let rows = g.len() as int;
    let cols = grid_cols(g);
    assert(rows <= usize::MAX && cols <= usize::MAX) by {
        assert(a.grid.len() == g.len());
        assert(g[0].len() == g[0]@.len());
    }
    let sp = spiral(rows, cols);
    lemma_spiral_from_is_clockwise_walk(0, rows, 0, cols);
    lemma_spiral_lists_each_cell_once(rows as usize, cols as usize);
    let s = sp.reverse();
    lemma_reverse_lists_once(sp, |p: Pos| p.0 < rows as usize && p.1 < cols as usize);
    lemma_batched_touches_in_order(g, s, true, m.batch_frames as nat, a.duration_nanos as nat);
    assert(s.reverse() =~= sp);
    assert(s.last() == sp[0]);
    assert(lists_once(s, |p: Pos| p.0 < g.len() && p.1 < grid_cols(g)));
}

/// Law: whirl-out writes the cells centre first: the cells it writes before
/// the closing full redraw name every cell of the rectangle once, with keys
/// never decreasing.
pub proof fn lemma_whirl_out_keys_ascend(a: Animator, m: Measurements, order: Seq<Pos>)
    requires
        a.effect == Effect::WhirlOut,
        a.grid@.len() >= 1,
        grid_cols(a.grid@) >= 1,
        keys_cover(m.whirl_keys@, a.grid@.len() as int, grid_cols(a.grid@)),
    ensures
        exists|w: Seq<Pos>|
            {
                &&& touched(effect_steps(a, m, order)) == w + row_major(a.grid@)
                &&& lists_once(
                    w,
                    |p: Pos| p.0 < a.grid@.len() && p.1 < grid_cols(a.grid@),
                )
                &&& forall|i: int, j: int|
                    0 <= i < j < w.len() ==> m.whirl_keys@[w[i].0 as int]@[w[i].1 as int]
                        <= m.whirl_keys@[w[j].0 as int]@[w[j].1 as int]
            },
{
    let g = a.grid@;
    let k = m.whirl_keys@;
    let rows = g.len() as int;
    let cols = grid_cols(g);
    assert(rows <= usize::MAX && cols <= usize::MAX) by {
        assert(a.grid.len() == g.len());
        assert(g[0].len() == g[0]@.len());
    }
    let w = whirl_order(k, rows, cols);
    lemma_whirl_lists_each_cell_once(k, rows as usize, cols as usize);
    assert(w.contains((0usize, 0usize)));
    lemma_batched_touches_in_order(g, w, true, m.batch_frames as nat, a.duration_nanos as nat);
    assert forall|i: int, j: int| 0 <= i < j < w.len() implies k[w[i].0 as int]@[w[i].1 as int]
        <= k[w[j].0 as int]@[w[j].1 as int] by {
        lemma_whirl_keys_ascend(k, rows as usize, cols as usize, i, j);
    }
    assert(lists_once(w, |p: Pos| p.0 < g.len() && p.1 < grid_cols(g)));
}

/// Law: whirl-in writes the cells edge first: the cells it writes before the
/// closing full redraw name every cell of the rectangle once, with keys never
/// increasing.
pub proof fn lemma_whirl_in_keys_descend(a: Animator, m: Measurements, order: Seq<Pos>)
    requires
        a.effect == Effect::WhirlIn,
        a.grid@.len() >= 1,
        grid_cols(a.grid@) >= 1,
        keys_cover(m.whirl_keys@, a.grid@.len() as int, grid_cols(a.grid@)),
    ensures
        exists|w: Seq<Pos>|
            {
                &&& touched(effect_steps(a, m, order)) == w + row_major(a.grid@)
                &&& lists_once(
                    w,
                    |p: Pos| p.0 < a.grid@.len() && p.1 < grid_cols(a.grid@),
                )
                &&& forall|i: int, j: int|
                    0 <= i < j < w.len() ==> m.whirl_keys@[w[i].0 as int]@[w[i].1 as int]
                        >= m.whirl_keys@[w[j].0 as int]@[w[j].1 as int]
            },
{
    let g = a.grid@;
    let k = m.whirl_keys@;
    let rows = g.len() as int;
    let cols = grid_cols(g);
    assert(rows <= usize::MAX && cols <= usize::MAX) by {
        assert(a.grid.len() == g.len());
        assert(g[0].len() == g[0]@.len());
    }
    let v = whirl_order(k, rows, cols);
    let w = v.reverse();
    lemma_whirl_lists_each_cell_once(k, rows as usize, cols as usize);
    lemma_reverse_lists_once(v, |p: Pos| p.0 < rows as usize && p.1 < cols as usize);
    assert(v.contains((0usize, 0usize)));
    lemma_batched_touches_in_order(g, w, true, m.batch_frames as nat, a.duration_nanos as nat);
    assert forall|i: int, j: int| 0 <= i < j < w.len() implies k[w[i].0 as int]@[w[i].1 as int]
        >= k[w[j].0 as int]@[w[j].1 as int] by {
        let n = v.len() as int;
        assert(w[i] == v[n - 1 - i]);
        assert(w[j] == v[n - 1 - j]);
        lemma_whirl_keys_ascend(k, rows as usize, cols as usize, n - 1 - j, n - 1 - i);
    }
    assert(lists_once(w, |p: Pos| p.0 < g.len() && p.1 < grid_cols(g)));
}

} // verus!

verus! {

/// The due times of the timed waits in a list of steps, in order.
pub open spec fn waits(steps: Seq<Step>) -> Seq<u64>
    decreases steps.len(),
{
    if steps.len() == 0 {
        Seq::empty()
    } else {
        waits(steps.drop_last()) + match steps.last() {
            Step::SleepUntil(t) => seq![t],
            _ => Seq::empty(),
        }
    }
}

pub proof fn lemma_waits_concat(a: Seq<Step>, b: Seq<Step>)
    ensures
        waits(a + b) == waits(a) + waits(b),
    decreases b.len(),
{
    if b.len() == 0 {
        assert(a + b =~= a);
        assert(waits(a) + waits(b) =~= waits(a));
    } else {
        assert((a + b).drop_last() =~= a + b.drop_last());
        assert((a + b).last() == b.last());
        lemma_waits_concat(a, b.drop_last());
        assert(waits(a + b) =~= waits(a) + waits(b));
    }
}

proof fn lemma_no_waits(s: Seq<Step>)
    requires
        forall|i: int| 0 <= i < s.len() ==> !(#[trigger] s[i] is SleepUntil),
    ensures
        waits(s) == Seq::<u64>::empty(),
    decreases s.len(),
{
    if s.len() > 0 {
        assert(s.last() == s[s.len() - 1]);
        lemma_no_waits(s.drop_last());
        assert(waits(s) =~= Seq::<u64>::empty());
    }
}

proof fn lemma_pan_frame_has_no_waits(rows: int, cols: int, vh: int, vw: int, y: int, x: int)
    ensures
        waits(pan_frame(rows, cols, vh, vw, y, x)) == Seq::<u64>::empty(),
{
    let h = min_int(vh, rows - y);
    let w = min_int(vw, cols - x);
    let lines = pan_lines(y, x, h, w, vh);
    let fr = pan_frame(rows, cols, vh, vw, y, x);
    assert forall|i: int| 0 <= i < fr.len() implies !(#[trigger] fr[i] is SleepUntil) by {
        if 1 <= i < 1 + lines.len() {
            assert(fr[i] == lines[i - 1]);
            lemma_pan_lines_never_wait(y, x, h, w, vh, i - 1);
        }
    }
    lemma_no_waits(fr);
}

proof fn lemma_pan_frames_waits(m: Measurements, rows: int, cols: int, frame: int, f: int)
    requires
        0 <= f <= m.pan@.len(),
    ensures
        waits(pan_frames(m.pan@, rows, cols, m.view_h as int, m.view_w as int, frame, f)) == Seq::new(
            f as nat,
            |k: int| (frame * (k + 1)) as u64,
        ),
    decreases f,
{
    if f > 0 {
        let vh = m.view_h as int;
        let vw = m.view_w as int;
        lemma_pan_frames_waits(m, rows, cols, frame, f - 1);
        let before = pan_frames(m.pan@, rows, cols, vh, vw, frame, f - 1);
        let fr = pan_frame(rows, cols, vh, vw, m.pan@[f - 1].0 as int, m.pan@[f - 1].1 as int);
        let w = seq![Step::SleepUntil((frame * f) as u64)];
        lemma_pan_frame_has_no_waits(rows, cols, vh, vw, m.pan@[f - 1].0 as int, m.pan@[f - 1].1 as int);
        lemma_waits_concat(before, fr);
        lemma_waits_concat(before + fr, w);
        assert(w.drop_last() =~= Seq::<Step>::empty());
        assert(waits(Seq::<Step>::empty()) =~= Seq::<u64>::empty());
        assert(waits(w) =~= seq![(frame * f) as u64]);
        assert(waits(before + fr + w) =~= Seq::new(f as nat, |k: int| (frame * (k + 1)) as u64));
    } else {
        assert(waits(Seq::<Step>::empty()) =~= Seq::<u64>::empty());
    }
}

proof fn lemma_pan_lines_start_at_corner(y: int, x: int, h: int, w: int, vh: int)
    requires
        h >= 1,
        w >= 1,
    ensures
        pan_lines(y, x, h, w, vh).len() >= 1,
        pan_lines(y, x, h, w, vh)[0] == Step::PutCell(y as usize, x as usize),
    decreases h,
{
    if h == 1 {
        assert(pan_lines(y, x, 0, w, vh) =~= Seq::<Step>::empty());
        assert(pan_lines(y, x, 1, w, vh) =~= pan_line(y, x, 0, w, vh));
    } else {
        lemma_pan_lines_start_at_corner(y, x, h - 1, w, vh);
    }
}

proof fn lemma_pan_frames_write_corners(m: Measurements, rows: int, cols: int, frame: int, f: int, g: int)
    requires
        pan_fits(m, rows, cols),
        m.view_h >= 1,
        m.view_w >= 1,
        2 <= rows,
        2 <= cols,
        0 <= g < f <= m.pan@.len(),
    ensures
        pan_frames(m.pan@, rows, cols, m.view_h as int, m.view_w as int, frame, f).contains(
            Step::PutCell(m.pan@[g].0, m.pan@[g].1),
        ),
    decreases f,
{
    let vh = m.view_h as int;
    let vw = m.view_w as int;
    let before = pan_frames(m.pan@, rows, cols, vh, vw, frame, f - 1);
    let y = m.pan@[f - 1].0 as int;
    let x = m.pan@[f - 1].1 as int;
    let fr = pan_frame(rows, cols, vh, vw, y, x);
    let w = seq![Step::SleepUntil((frame * f) as u64)];
    let all = before + fr + w;
    assert(pan_frames(m.pan@, rows, cols, vh, vw, frame, f) == all);
    if g < f - 1 {
        lemma_pan_frames_write_corners(m, rows, cols, frame, f - 1, g);
        let i = choose|i: int| 0 <= i < before.len() && before[i] == Step::PutCell(m.pan@[g].0, m.pan@[g].1);
        assert(all[i] == before[i]);
    } else {
        assert(y <= sat_sub(rows, vh) && x <= sat_sub(cols, vw));
        lemma_pan_lines_start_at_corner(y, x, min_int(vh, rows - y), min_int(vw, cols - x), vh);
        assert(fr[1] == Step::PutCell(y as usize, x as usize));
        assert(all[before.len() as int + 1] == fr[1]);
    }
}

/// Law: when the grid is larger than the Ken Burns viewport, the effect
/// shows one viewport frame for each pan offset: its timed waits are exactly
/// one per offset, the `k`-th due at `k + 1` equal shares of the duration,
/// and it writes the viewport's top-left cell at every pan offset.
pub proof fn lemma_ken_burns_frames_follow_the_pan(a: Animator, m: Measurements, order: Seq<Pos>)
    requires
        a.effect == Effect::KenBurns,
        a.grid@.len() >= 2,
        grid_cols(a.grid@) >= 2,
        m.view_h >= 1,
        m.view_w >= 1,
        sat_sub(a.grid@.len() as int, m.view_h as int) > 0 || sat_sub(grid_cols(a.grid@), m.view_w as int) > 0,
        pan_fits(m, a.grid@.len() as int, grid_cols(a.grid@)),
    ensures
        waits(effect_steps(a, m, order)) == Seq::new(
            m.pan@.len(),
            |k: int| ((a.duration_nanos as nat / at_least_one(m.pan@.len())) as int * (k + 1)) as u64,
        ),
        forall|f: int|
            0 <= f < m.pan@.len() ==> effect_steps(a, m, order).contains(
                Step::PutCell(#[trigger] m.pan@[f].0, m.pan@[f].1),
            ),
{
    let g = a.grid@;
    let rows = g.len() as int;
    let cols = grid_cols(g);
    let vh = m.view_h as int;
    let vw = m.view_w as int;
    let nanos = a.duration_nanos as nat;
    let n = at_least_one(m.pan@.len());
    let frame = (nanos / n) as int;
    let pf = pan_frames(m.pan@, rows, cols, vh, vw, frame, m.pan@.len() as int);
    let head = seq![Step::StartClock];
    let mid = seq![Step::ClearScreen];
    let tail = draw_full_steps(g);
    assert(effect_steps(a, m, order) == head + pf + mid + tail);
    lemma_pan_frames_waits(m, rows, cols, frame, m.pan@.len() as int);
    lemma_no_waits(head);
    lemma_no_waits(mid);
    lemma_no_waits(tail);
    lemma_waits_concat(head, pf);
    lemma_waits_concat(head + pf, mid);
    lemma_waits_concat(head + pf + mid, tail);
    assert(waits(effect_steps(a, m, order)) =~= Seq::new(
        m.pan@.len(),
        |k: int| ((a.duration_nanos as nat / at_least_one(m.pan@.len())) as int * (k + 1)) as u64,
    ));
    assert forall|f: int| 0 <= f < m.pan@.len() implies effect_steps(a, m, order).contains(
        Step::PutCell(#[trigger] m.pan@[f].0, m.pan@[f].1),
    ) by {
        lemma_pan_frames_write_corners(m, rows, cols, frame, m.pan@.len() as int, f);
        let i = choose|i: int| 0 <= i < pf.len() && pf[i] == Step::PutCell(m.pan@[f].0, m.pan@[f].1);
        let all = head + pf + mid + tail;
        assert(all[1 + i] == pf[i]);
    }
}

} // verus!
