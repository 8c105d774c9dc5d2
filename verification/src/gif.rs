use vstd::prelude::*;
use image::AnimationDecoder;
use crate::cell::{Cell, Grid};
use crate::script::{Step, at_least_one};

verus! {

/// One frame as the GIF decoder hands it out: its delay as the fraction
/// `delay_numer / delay_denom` of milliseconds, and the whole composed
/// picture as `width * height` RGBA pixels, row by row.
pub struct GifFrameInfo {
    pub delay_numer: u32,
    pub delay_denom: u32,
    pub width: u32,
    pub height: u32,
    pub pixels: Vec<u8>,
}

/// A frame ready to be shown: how long to hold it, and its RGBA picture.
pub struct GifFrame {
    pub delay_nanos: u64,
    pub width: u32,
    pub height: u32,
    pub pixels: Vec<u8>,
}

/// The frames that `image`'s GIF decoder makes of a file's bytes, each as
/// `(delay_numer, delay_denom, width, height, pixels)`; `None` where it
/// refuses the bytes.
pub uninterp spec fn gif_frames(bytes: Seq<u8>) -> Option<Seq<(u32, u32, u32, u32, Seq<u8>)>>;

pub open spec fn info_view(f: GifFrameInfo) -> (u32, u32, u32, u32, Seq<u8>) {
    (f.delay_numer, f.delay_denom, f.width, f.height, f.pixels@)
}

/// Whole milliseconds of `numer / denom`, rounded down, a zero denominator
/// read as one, in nanoseconds.
pub open spec fn delay_nanos(numer: u32, denom: u32) -> nat {
    (numer as nat / at_least_one(denom as nat)) * 1_000_000
}

/// `f` is the frame `g` with its delay worked out.
pub open spec fn timed_as(f: GifFrame, g: (u32, u32, u32, u32, Seq<u8>)) -> bool {
    &&& f.delay_nanos == delay_nanos(g.0, g.1)
    &&& f.width == g.2
    &&& f.height == g.3
    &&& f.pixels@ == g.4
}

/// Decodes every frame of a GIF file's bytes.
///
/// Calls `image::codecs::gif::GifDecoder::new`, `AnimationDecoder::into_frames`
/// and `Frames::collect_frames`, and reads each frame's `delay().numer_denom_ms()`
/// and buffer. Claims only that the result is the decoder's, a function of the
/// bytes alone (named `gif_frames`), `None` exactly where it returns an error;
/// what the frames hold is left unsaid.
#[verifier::external_body]
fn decode_gif_frames(bytes: &[u8]) -> (r: Option<Vec<GifFrameInfo>>)
    ensures
        r is None <==> gif_frames(bytes@) is None,
        r matches Some(v) ==> v@.map_values(|f: GifFrameInfo| info_view(f)) == gif_frames(bytes@)->0,
{
    let reader = image::codecs::gif::GifDecoder::new(std::io::Cursor::new(bytes)).ok()?;
    let frames = reader.into_frames().collect_frames().ok()?;
    Some(frames.into_iter().map(|f| {
        let (delay_numer, delay_denom) = f.delay().numer_denom_ms();
        let b = f.into_buffer();
        GifFrameInfo { delay_numer, delay_denom, width: b.width(), height: b.height(), pixels: b.into_raw() }
    }).collect())
}

/// Loops an animated GIF whose frames have been rendered to grids.
pub struct GifRenderer;

/// Row `r` of a GIF frame: its cells where the cursor runs, then a line
/// break unless it is the last row.
pub open spec fn gif_line(g: Seq<Vec<Cell>>, r: int) -> Seq<Step> {
    Seq::new(g[r]@.len(), |c: int| Step::PutCell(r as usize, c as usize)) + if r < g.len() - 1 {
        seq![Step::NewLine]
    } else {
        Seq::empty()
    }
}

/// The first `n` rows of a GIF frame.
pub open spec fn gif_lines(g: Seq<Vec<Cell>>, n: int) -> Seq<Step>
    decreases n,
{
    if n <= 0 {
        Seq::empty()
    } else {
        gif_lines(g, n - 1) + gif_line(g, n - 1)
    }
}

/// One GIF frame: from the top-left corner write every row, flush, and
/// hold the frame for its delay.
pub open spec fn gif_frame_steps(g: Seq<Vec<Cell>>, delay_nanos: u64) -> Seq<Step> {
    seq![Step::Home] + gif_lines(g, g.len() as int) + seq![Step::Flush, Step::Sleep(delay_nanos)]
}

impl GifRenderer {
    /// The delay of a frame whose delay is `numer / denom` milliseconds:
    /// whole milliseconds, rounded down, a zero denominator read as one.
    pub fn frame_delay_nanos(numer: u32, denom: u32) -> (d: u64)
        ensures
            d == (numer as nat / at_least_one(denom as nat)) * 1_000_000,
    {
        let den: u64 = if denom == 0 { 1 } else { denom as u64 };
        let ms: u64 = (numer as u64) / den;
        assert(ms <= numer) by (nonlinear_arith)
            requires
                ms == (numer as u64) / den,
                den >= 1,
        ;
        ms * 1_000_000
    }

    /// A decoded frame with its delay worked out.
    pub fn timed_frame(info: GifFrameInfo) -> (f: GifFrame)
        ensures
            timed_as(f, info_view(info)),
    {
        GifFrame {
            delay_nanos: Self::frame_delay_nanos(info.delay_numer, info.delay_denom),
            width: info.width,
            height: info.height,
            pixels: info.pixels,
        }
    }

    /// Decodes a GIF file's bytes into frames ready to be shown; `None` where
    /// the decoder refuses the bytes.
    pub fn decode(bytes: &[u8]) -> (r: Option<Vec<GifFrame>>)
        ensures
            r is None <==> gif_frames(bytes@) is None,
            r matches Some(v) ==> ({
                let g = gif_frames(bytes@)->0;
                &&& v@.len() == g.len()
                &&& forall|i: int| 0 <= i < g.len() ==> timed_as(#[trigger] v@[i], g[i])
            }),
    {
        let infos = decode_gif_frames(bytes);
        match infos {
            None => None,
            Some(mut infos) => {
                let ghost g = infos@.map_values(|f: GifFrameInfo| info_view(f));
                let ghost orig = infos@;
                let n = infos.len();
                let mut out: Vec<GifFrame> = Vec::new();
                while infos.len() > 0
                    invariant
                        n == orig.len(),
                        g == orig.map_values(|f: GifFrameInfo| info_view(f)),
                        out@.len() + infos@.len() == n,
                        infos@ == orig.skip(out@.len() as int),
                        forall|i: int| 0 <= i < out@.len() ==> timed_as(#[trigger] out@[i], g[i]),
                    decreases infos@.len(),
                {
                    let info = infos.remove(0);
                    proof {
                        assert(info == orig[out@.len() as int]);
                        assert(infos@ =~= orig.skip(out@.len() as int + 1));
                    }
                    out.push(Self::timed_frame(info));
                }
                Some(out)
            },
        }
    }

    /// What comes before the frames are looped: `None` for a file without
    /// frames, which is not played at all; else hide the cursor, clear the
    /// screen and flush.
    pub fn start_steps(frame_count: usize) -> (steps: Option<Vec<Step>>)
        ensures
            frame_count == 0 ==> steps is None,
            frame_count > 0 ==> (steps matches Some(s) && s@ == seq![Step::HideCursorAndClear, Step::Flush]),
    {
        if frame_count == 0 {
            return None;
        }
        let mut steps: Vec<Step> = Vec::new();
        steps.push(Step::HideCursorAndClear);
        steps.push(Step::Flush);
        Some(steps)
    }

    /// The steps that show one frame and then hold it.
    pub fn frame_steps(grid: &Grid, delay_nanos: u64) -> (steps: Vec<Step>)
        ensures
            steps@ == gif_frame_steps(grid@, delay_nanos),
    {
        let rows = grid.len();
        let mut steps: Vec<Step> = Vec::new();
        steps.push(Step::Home);
        let mut r: usize = 0;
        while r < rows
            invariant
                rows == grid@.len(),
                r <= rows,
                steps@ == seq![Step::Home] + gif_lines(grid@, r as int),
            decreases rows - r,
        {
            let ghost before = steps@;
            let w = grid[r].len();
            let mut c: usize = 0;
            while c < w
                invariant
                    c <= w,
                    r < rows,
                    w == grid@[r as int]@.len(),
                    steps@ == before + Seq::new(c as nat, |j: int| Step::PutCell(r, j as usize)),
                decreases w - c,
            {
                steps.push(Step::PutCell(r, c));
                proof {
                    assert(Seq::new((c + 1) as nat, |j: int| Step::PutCell(r, j as usize)) =~= Seq::new(
                        c as nat,
                        |j: int| Step::PutCell(r, j as usize),
                    ).push(Step::PutCell(r, c)));
                }
                c = c + 1;
            }
            if r < rows - 1 {
                steps.push(Step::NewLine);
            }
            proof {
                assert(steps@ =~= before + gif_line(grid@, r as int));
            }
            r = r + 1;
        }
        steps.push(Step::Flush);
        steps.push(Step::Sleep(delay_nanos));
        steps
    }
}

} // verus!
