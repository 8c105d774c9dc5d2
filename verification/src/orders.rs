use vstd::prelude::*;
use vstd::relations::{sorted_by, total_ordering};
use vstd::seq_lib::lemma_sorted_unique;
use rand::seq::SliceRandom;
use crate::animator::Animator;
use crate::cell::grid_cols;
use crate::positions::row_major;
use crate::runs::{Pos, lists_once, lemma_concat_contains, lemma_concat_no_duplicates};

verus! {

/// A cell tagged with the key the whirl orders it by: `(key, row, column)`.
pub type Keyed = (u64, usize, usize);

/// Lexicographic order on keyed cells: by key, then row, then column.
pub open spec fn keyed_le(a: Keyed, b: Keyed) -> bool {
    a.0 < b.0 || (a.0 == b.0 && (a.1 < b.1 || (a.1 == b.1 && a.2 <= b.2)))
}

pub open spec fn keyed_order() -> spec_fn(Keyed, Keyed) -> bool {
    |a: Keyed, b: Keyed| keyed_le(a, b)
}

/// The cells of the first `r` rows of a `cols`-wide rectangle, row by row,
/// each tagged with its key from `keys`.
pub open spec fn keyed_rows(keys: Seq<Vec<u64>>, r: int, cols: int) -> Seq<Keyed>
    decreases r,
{
    if r <= 0 {
        Seq::empty()
    } else {
        keyed_rows(keys, r - 1, cols) + Seq::new(
            if cols > 0 { cols as nat } else { 0 },
            |c: int| (keys[r - 1]@[c], (r - 1) as usize, c as usize),
        )
    }
}

/// The whirl order of a `rows` by `cols` rectangle: its cells sorted by key,
/// cells of equal key keeping their row-major order.
pub open spec fn whirl_order(keys: Seq<Vec<u64>>, rows: int, cols: int) -> Seq<Pos> {
    keyed_rows(keys, rows, cols).sort_by(keyed_order()).map_values(|k: Keyed| (k.1, k.2))
}

/// `keys` gives one key for each cell of the `rows` by `cols` rectangle.
pub open spec fn keys_cover(keys: Seq<Vec<u64>>, rows: int, cols: int) -> bool {
    &&& keys.len() == rows
    &&& forall|r: int| 0 <= r < rows ==> #[trigger] keys[r]@.len() == cols
}

pub proof fn lemma_keyed_order_is_total()
    ensures
        total_ordering(keyed_order()),
{
}

/// Sorts keyed cells ascending by std's lexicographic order on tuples.
///
/// Calls `<[T]>::sort`; claims of it that the result is a rearrangement of
/// the input and that it is in ascending order, which for `(u64, usize, usize)`
/// is the lexicographic order `keyed_le`.
#[verifier::external_body]
fn sort_keyed(v: &mut Vec<Keyed>)
    ensures
        final(v)@.to_multiset() == old(v)@.to_multiset(),
        sorted_by(final(v)@, keyed_order()),
{
    v.sort();
}

/// Shuffles cell positions in place with the thread-local random generator.
///
/// Calls `rand::seq::SliceRandom::shuffle` with `rand::thread_rng()`. Its
/// source swaps elements only, so the claim is that the result is a
/// rearrangement of the input; which rearrangement comes out is chance and
/// is left unsaid.
#[verifier::external_body]
fn shuffle_cells(v: &mut Vec<Pos>)
    ensures
        final(v)@.to_multiset() == old(v)@.to_multiset(),
{
    v.shuffle(&mut rand::thread_rng());
}

/// The positions in the opposite order.
pub fn reversed(ps: &Vec<Pos>) -> (r: Vec<Pos>)
    ensures
        r@ == ps@.reverse(),
{
    let n = ps.len();
    let mut r: Vec<Pos> = Vec::new();
    let mut i: usize = 0;
    while i < n
        invariant
            n == ps@.len(),
            i <= n,
            r@ == ps@.reverse().take(i as int),
        decreases n - i,
    {
        r.push(ps[n - 1 - i]);
        proof {
            assert(ps@.reverse().take(i + 1) =~= ps@.reverse().take(i as int).push(ps@[n - 1 - i]));
        }
        i = i + 1;
    }
    assert(ps@.reverse().take(n as int) =~= ps@.reverse());
    r
}

/// Law: a rearrangement of a list that names each cell of a region once
/// names each cell of that region once as well.
pub proof fn lemma_rearrangement_lists_once(a: Seq<Pos>, b: Seq<Pos>, inside: spec_fn(Pos) -> bool)
    requires
        a.to_multiset() == b.to_multiset(),
        lists_once(b, inside),
    ensures
        lists_once(a, inside),
{
    broadcast use vstd::seq_lib::group_to_multiset_ensures;
    b.lemma_multiset_has_no_duplicates();
    a.lemma_multiset_has_no_duplicates_conv();
    assert forall|p: Pos| #[trigger] a.contains(p) <==> inside(p) by {
        assert(a.contains(p) <==> a.to_multiset().count(p) > 0);
        assert(b.contains(p) <==> b.to_multiset().count(p) > 0);
    }
}

/// Law: reversing a list that names each cell of a region once keeps that so.
pub proof fn lemma_reverse_lists_once(s: Seq<Pos>, inside: spec_fn(Pos) -> bool)
    requires
        lists_once(s, inside),
    ensures
        lists_once(s.reverse(), inside),
{
    let r = s.reverse();
    let n = s.len();
    assert forall|i: int, j: int| 0 <= i < r.len() && 0 <= j < r.len() && i != j implies r[i]
        != r[j] by {
        assert(r[i] == s[n - 1 - i]);
        assert(r[j] == s[n - 1 - j]);
    }
    assert forall|p: Pos| #[trigger] r.contains(p) <==> inside(p) by {
        if s.contains(p) {
            let k = choose|k: int| 0 <= k < n && s[k] == p;
            assert(r[n - 1 - k] == p);
        }
        if r.contains(p) {
            let k = choose|k: int| 0 <= k < n && r[k] == p;
            assert(s[n - 1 - k] == p);
        }
    }
}

/// Each cell of the first `r` rows is tagged once, with its own key.
pub proof fn lemma_keyed_rows_tag_each_cell_once(keys: Seq<Vec<u64>>, r: int, rows: int, cols: int)
    requires
        0 <= r <= rows <= usize::MAX,
        0 <= cols <= usize::MAX,
        keys_cover(keys, rows, cols),
    ensures
        keyed_rows(keys, r, cols).no_duplicates(),
        forall|k: Keyed|
            #[trigger] keyed_rows(keys, r, cols).contains(k) <==> (k.1 < r && k.2 < cols && k.0
                == keys[k.1 as int]@[k.2 as int]),
    decreases r,
{
    if r > 0 {
        lemma_keyed_rows_tag_each_cell_once(keys, r - 1, rows, cols);
        let a = keyed_rows(keys, r - 1, cols);
        let b = Seq::new(cols as nat, |c: int| (keys[r - 1]@[c], (r - 1) as usize, c as usize));
        assert(keyed_rows(keys, r, cols) == a + b);
        assert forall|k: Keyed| #[trigger] b.contains(k) <==> (k.1 == r - 1 && k.2 < cols && k.0
            == keys[k.1 as int]@[k.2 as int]) by {
            if k.1 == r - 1 && k.2 < cols && k.0 == keys[k.1 as int]@[k.2 as int] {
                assert(b[k.2 as int] == k);
            }
        }
        assert forall|k: Keyed| a.contains(k) implies !b.contains(k) by {}
        lemma_concat_no_duplicates(a, b);
        assert forall|k: Keyed| #[trigger] (a + b).contains(k) <==> (k.1 < r && k.2 < cols && k.0
            == keys[k.1 as int]@[k.2 as int]) by {
            lemma_concat_contains(a, b, k);
        }
    }
}

/// Law: the whirl visits every cell of the rectangle exactly once.
pub proof fn lemma_whirl_lists_each_cell_once(keys: Seq<Vec<u64>>, rows: usize, cols: usize)
    requires
        keys_cover(keys, rows as int, cols as int),
    ensures
        lists_once(whirl_order(keys, rows as int, cols as int), |p: Pos| p.0 < rows && p.1 < cols),
{
    broadcast use vstd::seq_lib::group_to_multiset_ensures;
    let keyed = keyed_rows(keys, rows as int, cols as int);
    lemma_keyed_rows_tag_each_cell_once(keys, rows as int, rows as int, cols as int);
    lemma_keyed_order_is_total();
    keyed.lemma_sort_by_ensures(keyed_order());
    let sorted = keyed.sort_by(keyed_order());
    keyed.lemma_multiset_has_no_duplicates();
    sorted.lemma_multiset_has_no_duplicates_conv();
    assert forall|k: Keyed| #[trigger] sorted.contains(k) <==> keyed.contains(k) by {
        assert(sorted.contains(k) <==> sorted.to_multiset().count(k) > 0);
        assert(keyed.contains(k) <==> keyed.to_multiset().count(k) > 0);
    }
    let w = whirl_order(keys, rows as int, cols as int);
    assert(w == sorted.map_values(|k: Keyed| (k.1, k.2)));
    assert forall|i: int, j: int| 0 <= i < w.len() && 0 <= j < w.len() && i != j implies w[i]
        != w[j] by {
        assert(sorted.contains(sorted[i]));
        assert(sorted.contains(sorted[j]));
    }
    assert forall|p: Pos| #[trigger] w.contains(p) <==> (p.0 < rows && p.1 < cols) by {
        if w.contains(p) {
            let i = choose|i: int| 0 <= i < w.len() && w[i] == p;
            assert(sorted.contains(sorted[i]));
        }
        if p.0 < rows && p.1 < cols {
            let k = (keys[p.0 as int]@[p.1 as int], p.0, p.1);
            assert(keyed.contains(k));
            assert(sorted.contains(k));
            let i = choose|i: int| 0 <= i < sorted.len() && sorted[i] == k;
            assert(w[i] == p);
        }
    }
}

/// Law: along the whirl, the cells' keys never decrease.
pub proof fn lemma_whirl_keys_ascend(keys: Seq<Vec<u64>>, rows: usize, cols: usize, i: int, j: int)
    requires
        keys_cover(keys, rows as int, cols as int),
        0 <= i < j < whirl_order(keys, rows as int, cols as int).len(),
    ensures
        ({
            let w = whirl_order(keys, rows as int, cols as int);
            keys[w[i].0 as int]@[w[i].1 as int] <= keys[w[j].0 as int]@[w[j].1 as int]
        }),
{
    broadcast use vstd::seq_lib::group_to_multiset_ensures;
    let keyed = keyed_rows(keys, rows as int, cols as int);
    lemma_keyed_rows_tag_each_cell_once(keys, rows as int, rows as int, cols as int);
    lemma_keyed_order_is_total();
    keyed.lemma_sort_by_ensures(keyed_order());
    let sorted = keyed.sort_by(keyed_order());
    assert((keyed_order())(sorted[i], sorted[j]));
    assert(keyed_le(sorted[i], sorted[j]));
    assert(sorted.to_multiset().count(sorted[i]) > 0);
    assert(sorted.to_multiset().count(sorted[j]) > 0);
    assert(keyed.contains(sorted[i]) && keyed.contains(sorted[j])) by {
        assert(keyed.contains(sorted[i]) <==> keyed.to_multiset().count(sorted[i]) > 0);
        assert(keyed.contains(sorted[j]) <==> keyed.to_multiset().count(sorted[j]) > 0);
    }
}

impl Animator {
    /// Every cell of the grid in a random order (the dissolve order).
    pub fn shuffled_positions(&self) -> (ps: Vec<Pos>)
        ensures
            ps@.to_multiset() == row_major(self.grid@).to_multiset(),
    {
        let mut ps = self.all_positions();
        shuffle_cells(&mut ps);
        ps
    }

    /// The whirl order: the cells of the rectangle spanned by the number of
    /// rows and the width of the first row, sorted by the key `keys` gives
    /// each of them, cells of equal key in row-major order.
    pub fn whirl_positions(&self, keys: &Vec<Vec<u64>>) -> (ps: Vec<Pos>)
        requires
            keys_cover(keys@, self.grid@.len() as int, grid_cols(self.grid@)),
        ensures
            ps@ == whirl_order(keys@, self.grid@.len() as int, grid_cols(self.grid@)),
    {
        let rows = self.grid.len();
        let cols = if rows == 0 { 0 } else { self.grid[0].len() };
        let ghost kk = keys@;
        let mut keyed: Vec<Keyed> = Vec::new();
        let mut r: usize = 0;
        while r < rows
            invariant
                r <= rows,
                keys_cover(kk, rows as int, cols as int),
                kk == keys@,
                keyed@ == keyed_rows(kk, r as int, cols as int),
            decreases rows - r,
        {
            let ghost base = keyed@;
            let mut c: usize = 0;
            while c < cols
                invariant
                    r < rows,
                    c <= cols,
                    keys_cover(kk, rows as int, cols as int),
                    kk == keys@,
                    keyed@ == base + Seq::new(c as nat, |j: int| (kk[r as int]@[j], r, j as usize)),
                decreases cols - c,
            {
                keyed.push((keys[r][c], r, c));
                proof {
                    assert(Seq::new((c + 1) as nat, |j: int| (kk[r as int]@[j], r, j as usize))
                        =~= Seq::new(c as nat, |j: int| (kk[r as int]@[j], r, j as usize)).push(
                        (kk[r as int]@[c as int], r, c),
                    ));
                }
                c = c + 1;
            }
            proof {
                assert(keyed_rows(kk, r + 1, cols as int) =~= base + Seq::new(
                    cols as nat,
                    |j: int| (kk[r as int]@[j], r, j as usize),
                ));
            }
            r = r + 1;
        }
        let ghost unsorted = keyed@;
        sort_keyed(&mut keyed);
        proof {
            lemma_keyed_order_is_total();
            unsorted.lemma_sort_by_ensures(keyed_order());
            lemma_sorted_unique(keyed@, unsorted.sort_by(keyed_order()), keyed_order());
        }
        let n = keyed.len();
        let mut ps: Vec<Pos> = Vec::new();
        let mut i: usize = 0;
        while i < n
            invariant
                n == keyed@.len(),
                i <= n,
                ps@ == keyed@.take(i as int).map_values(|k: Keyed| (k.1, k.2)),
            decreases n - i,
        {
            let k = keyed[i];
            ps.push((k.1, k.2));
            proof {
                assert(keyed@.take(i + 1).map_values(|k: Keyed| (k.1, k.2)) =~= keyed@.take(
                    i as int,
                ).map_values(|k: Keyed| (k.1, k.2)).push((k.1, k.2)));
            }
            i = i + 1;
        }
        assert(keyed@.take(n as int) =~= keyed@);
        ps
    }
}

} // verus!
