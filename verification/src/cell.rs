use vstd::prelude::*;

verus! {

/// One character cell of a rendered picture: the glyph and the terminal
/// colour codes written before and after it.
#[derive(Clone, Debug)]
pub struct Cell {
    pub ch: String,
    pub color_pre: String,
    pub color_suf: String,
}

/// Rows of cells, top row first.
pub type Grid = Vec<Vec<Cell>>;

/// Number of columns the effects use: the width of the first row.
pub open spec fn grid_cols(g: Seq<Vec<Cell>>) -> int {
    if g.len() == 0 {
        0
    } else {
        g[0]@.len() as int
    }
}

} // verus!
