use vstd::prelude::*;

verus! {

/// The part of an image to keep: `width` columns from column `left` and
/// `height` rows from row `top`.
#[derive(Clone, Copy, Debug, PartialEq, Eq, Structural)]
pub struct Crop {
    pub left: usize,
    pub top: usize,
    pub width: usize,
    pub height: usize,
}

/// Some line of the image has content.
pub open spec fn any_busy(s: Seq<bool>) -> bool {
    exists|i: int| 0 <= i < s.len() && #[trigger] s[i]
}

/// `[start, start + len)` runs from the first line with content to the last.
pub open spec fn spans_content(s: Seq<bool>, start: int, len: int) -> bool {
    &&& len >= 1
    &&& 0 <= start
    &&& start + len <= s.len()
    &&& s[start]
    &&& s[start + len - 1]
    &&& forall|i: int| 0 <= i < start ==> !#[trigger] s[i]
    &&& forall|i: int| start + len <= i < s.len() ==> !#[trigger] s[i]
}

/// Where to cut an image so that blank border rows and columns go, given
/// which rows and which columns have content (in the driver: a grey-level
/// variance of at least 30 over their opaque pixels). `None` keeps the image
/// as it is: it has no row or no column with content.
pub fn trim_bounds(row_busy: &Vec<bool>, col_busy: &Vec<bool>) -> (r: Option<Crop>)
    ensures
        r is None <==> !any_busy(row_busy@) || !any_busy(col_busy@),
        r matches Some(c) ==> spans_content(row_busy@, c.top as int, c.height as int)
            && spans_content(col_busy@, c.left as int, c.width as int),
{
    let h = row_busy.len();
    let w = col_busy.len();
    if w == 0 || h == 0 {
        return None;
    }
    let mut top: usize = 0;
    while top < h && !row_busy[top]
        invariant
            h == row_busy@.len(),
            top <= h,
            forall|i: int| 0 <= i < top ==> !#[trigger] row_busy@[i],
        decreases h - top,
    {
        top = top + 1;
    }
    let mut bottom: usize = h;
    while bottom > 0 && !row_busy[bottom - 1]
        invariant
            h == row_busy@.len(),
            bottom <= h,
            forall|i: int| bottom <= i < h ==> !#[trigger] row_busy@[i],
        decreases bottom,
    {
        bottom = bottom - 1;
    }
    let mut left: usize = 0;
    while left < w && !col_busy[left]
        invariant
            w == col_busy@.len(),
            left <= w,
            forall|i: int| 0 <= i < left ==> !#[trigger] col_busy@[i],
        decreases w - left,
    {
        left = left + 1;
    }
    let mut right: usize = w;
    while right > 0 && !col_busy[right - 1]
        invariant
            w == col_busy@.len(),
            right <= w,
            forall|i: int| right <= i < w ==> !#[trigger] col_busy@[i],
        decreases right,
    {
        right = right - 1;
    }
    if top >= bottom || left >= right {
        proof {
            if top >= bottom {
                if top < h {
                    assert(row_busy@[top as int]);
                }
            } else {
                if left < w {
                    assert(col_busy@[left as int]);
                }
            }
        }
        return None;
    }
    Some(Crop { left, top, width: right - left, height: bottom - top })
}

/// Law: trimming keeps every row and column that has content.
pub proof fn lemma_trim_keeps_content(row_busy: Seq<bool>, col_busy: Seq<bool>, c: Crop, y: int, x: int)
    requires
        spans_content(row_busy, c.top as int, c.height as int),
        spans_content(col_busy, c.left as int, c.width as int),
        0 <= y < row_busy.len(),
        0 <= x < col_busy.len(),
    ensures
        row_busy[y] ==> c.top <= y < c.top + c.height,
        col_busy[x] ==> c.left <= x < c.left + c.width,
{
}

} // verus!
