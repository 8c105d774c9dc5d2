use vstd::prelude::*;
use crate::animator::Animator;
use crate::cell::{Cell, grid_cols};
use crate::effect::Effect;
use crate::orders::{keys_cover, reversed, whirl_order};
use crate::positions::{row_major, spiral};
use crate::runs::Pos;
use crate::script::{Step, at_least_one, batched_steps, draw_full_steps, lemma_share_fits, sat_sub};

verus! {

/// What the driver works out in floating point before an effect is scripted.
pub struct Measurements {
    /// Frames at 30 per second in the duration: `(seconds * 30.0) as usize`.
    pub batch_frames: usize,
    /// Ken Burns viewport height, `ceil(rows * 0.7)`.
    pub view_h: usize,
    /// Ken Burns viewport width, `ceil(cols * 0.7)`.
    pub view_w: usize,
    /// Top-left corner of the Ken Burns viewport in each of its frames
    /// (24 per second), panning from the top-left towards the bottom-right.
    pub pan: Vec<(usize, usize)>,
    /// The whirl key of each cell, indexed by row then column: the cell's
    /// distance from the centre plus a quarter turn per full angle, as the
    /// bits of a non-negative `f64`, which order as the numbers do.
    pub whirl_keys: Vec<Vec<u64>>,
}

pub open spec fn min_int(a: int, b: int) -> int {
    if a < b {
        a
    } else {
        b
    }
}

/// The pan stays inside the grid.
pub open spec fn pan_fits(m: Measurements, rows: int, cols: int) -> bool {
    &&& m.pan@.len() <= u32::MAX
    &&& forall|f: int|
        0 <= f < m.pan@.len() ==> #[trigger] m.pan@[f].0 <= sat_sub(rows, m.view_h as int)
            && m.pan@[f].1 <= sat_sub(cols, m.view_w as int)
}

/// One line of a Ken Burns frame: the cells of viewport row `r`, then clear
/// to the end of the line, and a line break unless it is the viewport's last row.
pub open spec fn pan_line(y: int, x: int, r: int, w: int, vh: int) -> Seq<Step> {
    Seq::new(
        if w > 0 { w as nat } else { 0 },
        |c: int| Step::PutCell((y + r) as usize, (x + c) as usize),
    ) + seq![Step::ClearLineEnd] + if r < vh - 1 {
        seq![Step::NewLine]
    } else {
        Seq::empty()
    }
}

/// The first `h` lines of a Ken Burns frame.
pub open spec fn pan_lines(y: int, x: int, h: int, w: int, vh: int) -> Seq<Step>
    decreases h,
{
    if h <= 0 {
        Seq::empty()
    } else {
        pan_lines(y, x, h - 1, w, vh) + pan_line(y, x, h - 1, w, vh)
    }
}

/// A Ken Burns frame with the viewport's corner at `(y, x)`.
pub open spec fn pan_frame(rows: int, cols: int, vh: int, vw: int, y: int, x: int) -> Seq<Step> {
    seq![Step::Home] + pan_lines(y, x, min_int(vh, rows - y), min_int(vw, cols - x), vh) + seq![
        Step::Flush,
    ]
}

/// The first `f` Ken Burns frames, frame `k` paced to end `frame * (k + 1)`
/// nanoseconds after the start.
pub open spec fn pan_frames(
    pan: Seq<(usize, usize)>,
    rows: int,
    cols: int,
    vh: int,
    vw: int,
    frame: int,
    f: int,
) -> Seq<Step>
    decreases f,
{
    if f <= 0 {
        Seq::empty()
    } else {
        pan_frames(pan, rows, cols, vh, vw, frame, f - 1) + pan_frame(
            rows,
            cols,
            vh,
            vw,
            pan[f - 1].0 as int,
            pan[f - 1].1 as int,
        ) + seq![Step::SleepUntil((frame * f) as u64)]
    }
}

/// The Ken Burns effect: pan a viewport over the grid, then show it whole. A
/// grid of one row or column, or one the viewport covers, is shown whole for
/// the duration.
pub open spec fn ken_burns_steps(g: Seq<Vec<Cell>>, nanos: nat, m: Measurements) -> Seq<Step> {
    let rows = g.len() as int;
    let cols = grid_cols(g);
    let vh = m.view_h as int;
    let vw = m.view_w as int;
    if rows == 0 {
        Seq::empty()
    } else if rows <= 1 || cols <= 1 || (sat_sub(rows, vh) == 0 && sat_sub(cols, vw) == 0) {
        draw_full_steps(g).push(Step::Sleep(nanos as u64))
    } else {
        let n = at_least_one(m.pan@.len());
        seq![Step::StartClock] + pan_frames(
            m.pan@,
            rows,
            cols,
            vh,
            vw,
            (nanos / n) as int,
            m.pan@.len() as int,
        ) + seq![Step::ClearScreen] + draw_full_steps(g)
    }
}

/// The body of an effect. `order` is the random order the dissolve effects use.
pub open spec fn effect_steps(a: Animator, m: Measurements, order: Seq<Pos>) -> Seq<Step> {
    let g = a.grid@;
    let nanos = a.duration_nanos as nat;
    let frames = m.batch_frames as nat;
    let rows = g.len() as int;
    let cols = grid_cols(g);
    match a.effect {
        Effect::DissolveIn => batched_steps(g, order, true, frames, nanos),
        Effect::DissolveOut => draw_full_steps(g) + seq![Step::Sleep(500_000_000)] + batched_steps(
            g,
            order,
            false,
            frames,
            nanos,
        ) + seq![Step::Sleep(300_000_000)] + draw_full_steps(g),
        Effect::SwirlIn => batched_steps(g, spiral(rows, cols), true, frames, nanos),
        Effect::SwirlOut => batched_steps(g, spiral(rows, cols).reverse(), true, frames, nanos),
        Effect::WhirlIn => batched_steps(
            g,
            whirl_order(m.whirl_keys@, rows, cols).reverse(),
            true,
            frames,
            nanos,
        ),
        Effect::WhirlOut => batched_steps(g, whirl_order(m.whirl_keys@, rows, cols), true, frames, nanos),
        Effect::KenBurns => ken_burns_steps(g, nanos, m),
    }
}

/// A whole animation: hide the cursor and clear the screen, play the effect,
/// show the cursor again.
pub open spec fn play_steps(a: Animator, m: Measurements, order: Seq<Pos>) -> Seq<Step> {
    seq![Step::HideCursorAndClear, Step::Flush] + effect_steps(a, m, order) + seq![
        Step::ShowCursor,
        Step::Flush,
    ]
}

pub open spec fn is_dissolve(e: Effect) -> bool {
    e == Effect::DissolveIn || e == Effect::DissolveOut
}

impl Animator {
    /// The measurements suit this animation.
    pub open spec fn fits(self, m: Measurements) -> bool {
        &&& self.effect != Effect::KenBurns ==> m.batch_frames <= u32::MAX
        &&& (self.effect == Effect::WhirlIn || self.effect == Effect::WhirlOut) ==> keys_cover(
            m.whirl_keys@,
            self.grid@.len() as int,
            grid_cols(self.grid@),
        )
        &&& self.effect == Effect::KenBurns ==> pan_fits(m, self.grid@.len() as int, grid_cols(self.grid@))
    }

    /// The Ken Burns effect.
    pub fn play_ken_burns(&self, m: &Measurements) -> (steps: Vec<Step>)
        requires
            pan_fits(*m, self.grid@.len() as int, grid_cols(self.grid@)),
        ensures
            steps@ == ken_burns_steps(self.grid@, self.duration_nanos as nat, *m),
    {
        let rows = self.grid.len();
        if rows == 0 {
            return Vec::new();
        }
        let cols = self.grid[0].len();
        let vh = m.view_h;
        let vw = m.view_w;
        let max_y: usize = if rows > vh { rows - vh } else { 0 };
        let max_x: usize = if cols > vw { cols - vw } else { 0 };
        if rows <= 1 || cols <= 1 || (max_y == 0 && max_x == 0) {
            let mut steps = self.draw_full();
            steps.push(Step::Sleep(self.duration_nanos));
            return steps;
        }
        let total = m.pan.len();
        let n: usize = if total == 0 { 1 } else { total };
        let frame: u64 = self.duration_nanos / (n as u64);
        let ghost nanos = self.duration_nanos as int;
        let mut steps: Vec<Step> = Vec::new();
        steps.push(Step::StartClock);
        let mut f: usize = 0;
        while f < total
            invariant
                total == m.pan@.len(),
                n == at_least_one(total as nat),
                n <= u32::MAX,
                f <= total,
                rows == self.grid@.len(),
                cols == grid_cols(self.grid@),
                vh == m.view_h,
                vw == m.view_w,
                pan_fits(*m, rows as int, cols as int),
                frame == nanos / (n as int),
                nanos == self.duration_nanos,
                steps@ == seq![Step::StartClock] + pan_frames(
                    m.pan@,
                    rows as int,
                    cols as int,
                    vh as int,
                    vw as int,
                    frame as int,
                    f as int,
                ),
            decreases total - f,
        {
            let (y, x) = m.pan[f];
            assert(y <= sat_sub(rows as int, vh as int) && x <= sat_sub(cols as int, vw as int));
            let h: usize = if vh < rows - y { vh } else { rows - y };
            let w: usize = if vw < cols - x { vw } else { cols - x };
            let ghost before = steps@;
            steps.push(Step::Home);
            let mut r: usize = 0;
            while r < h
                invariant
                    r <= h,
                    y + h <= rows,
                    x + w <= cols,
                    h <= vh,
                    steps@ == before.push(Step::Home) + pan_lines(
                        y as int,
                        x as int,
                        r as int,
                        w as int,
                        vh as int,
                    ),
                decreases h - r,
            {
                let ghost line_start = steps@;
                let mut c: usize = 0;
                while c < w
                    invariant
                        c <= w,
                        r < h,
                        y + h <= rows,
                        x + w <= cols,
                        h <= vh,
                        steps@ == line_start + Seq::new(
                            c as nat,
                            |j: int| Step::PutCell((y + r) as usize, (x + j) as usize),
                        ),
                    decreases w - c,
                {
                    steps.push(Step::PutCell(y + r, x + c));
                    proof {
                        assert(Seq::new(
                            (c + 1) as nat,
                            |j: int| Step::PutCell((y + r) as usize, (x + j) as usize),
                        ) =~= Seq::new(
                            c as nat,
                            |j: int| Step::PutCell((y + r) as usize, (x + j) as usize),
                        ).push(Step::PutCell((y + r) as usize, (x + c) as usize)));
                    }
                    c = c + 1;
                }
                steps.push(Step::ClearLineEnd);
                if r < vh - 1 {
                    steps.push(Step::NewLine);
                }
                proof {
                    assert(steps@ =~= line_start + pan_line(
                        y as int,
                        x as int,
                        r as int,
                        w as int,
                        vh as int,
                    ));
                }
                r = r + 1;
            }
            steps.push(Step::Flush);
            proof {
                lemma_share_fits(nanos, n as int, f + 1);
            }
            steps.push(Step::SleepUntil(frame * ((f + 1) as u64)));
            proof {
                assert(steps@ =~= before + pan_frame(
                    rows as int,
                    cols as int,
                    vh as int,
                    vw as int,
                    y as int,
                    x as int,
                ) + seq![Step::SleepUntil((frame * (f + 1)) as u64)]);
            }
            f = f + 1;
        }
        steps.push(Step::ClearScreen);
        let mut rest = self.draw_full();
        steps.append(&mut rest);
        steps
    }

    /// The effect itself, given the measurements and, for the dissolve
    /// effects, the random order of the cells.
    pub fn play_effect(&self, m: &Measurements, order: &Vec<Pos>) -> (steps: Vec<Step>)
        requires
            self.fits(*m),
        ensures
            steps@ == effect_steps(*self, *m, order@),
    {
        let rows = self.grid.len();
        let cols = if rows == 0 { 0 } else { self.grid[0].len() };
        match self.effect {
            Effect::DissolveIn => self.play_batched(order, true, m.batch_frames),
            Effect::DissolveOut => {
                let mut steps = self.draw_full();
                steps.push(Step::Sleep(500_000_000));
                let mut cleared = self.play_batched(order, false, m.batch_frames);
                steps.append(&mut cleared);
                steps.push(Step::Sleep(300_000_000));
                let mut again = self.draw_full();
                steps.append(&mut again);
                steps
            },
            Effect::SwirlIn => {
                let ps = self.spiral_positions();
                self.play_batched(&ps, true, m.batch_frames)
            },
            Effect::SwirlOut => {
                let ps = reversed(&self.spiral_positions());
                self.play_batched(&ps, true, m.batch_frames)
            },
            Effect::WhirlIn => {
                let ps = reversed(&self.whirl_positions(&m.whirl_keys));
                self.play_batched(&ps, true, m.batch_frames)
            },
            Effect::WhirlOut => {
                let ps = self.whirl_positions(&m.whirl_keys);
                self.play_batched(&ps, true, m.batch_frames)
            },
            Effect::KenBurns => self.play_ken_burns(m),
        }
    }

    /// The whole animation as steps for the terminal driver. The dissolve
    /// effects draw their cells in a random order; every such order names
    /// each cell of the grid once.
    pub fn play(&self, m: &Measurements) -> (steps: Vec<Step>)
        requires
            self.fits(*m),
        ensures
            exists|order: Seq<Pos>|
                order.to_multiset() == row_major(self.grid@).to_multiset() && steps@ == play_steps(
                    *self,
                    *m,
                    order,
                ),
    {
        let order = if self.effect == Effect::DissolveIn || self.effect == Effect::DissolveOut {
            self.shuffled_positions()
        } else {
            self.all_positions()
        };
        let mut steps: Vec<Step> = Vec::new();
        steps.push(Step::HideCursorAndClear);
        steps.push(Step::Flush);
        let mut body = self.play_effect(m, &order);
        steps.append(&mut body);
        steps.push(Step::ShowCursor);
        steps.push(Step::Flush);
        assert(steps@ =~= play_steps(*self, *m, order@));
        steps
    }
}

} // verus!
