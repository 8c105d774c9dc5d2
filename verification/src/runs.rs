use vstd::prelude::*;

verus! {

/// A cell position: row, then column.
pub type Pos = (usize, usize);

/// Row `r`, columns `a` up to but not including `b`, left to right.
pub open spec fn row_run(r: int, a: int, b: int) -> Seq<Pos> {
    Seq::new(if a < b { (b - a) as nat } else { 0 }, |i: int| (r as usize, (a + i) as usize))
}

/// Row `r`, columns `b - 1` down to `a`, right to left.
pub open spec fn row_run_rev(r: int, a: int, b: int) -> Seq<Pos> {
    Seq::new(if a < b { (b - a) as nat } else { 0 }, |i: int| (r as usize, (b - 1 - i) as usize))
}

/// Column `c`, rows `a` up to but not including `b`, top to bottom.
pub open spec fn col_run(c: int, a: int, b: int) -> Seq<Pos> {
    Seq::new(if a < b { (b - a) as nat } else { 0 }, |i: int| ((a + i) as usize, c as usize))
}

/// Column `c`, rows `b - 1` up to `a`, bottom to top.
pub open spec fn col_run_rev(c: int, a: int, b: int) -> Seq<Pos> {
    Seq::new(if a < b { (b - a) as nat } else { 0 }, |i: int| ((b - 1 - i) as usize, c as usize))
}

/// The position lies in rows `[t, b)` and columns `[l, r)`.
pub open spec fn in_rect(p: Pos, t: int, b: int, l: int, r: int) -> bool {
    t <= p.0 < b && l <= p.1 < r
}

/// `s` lists each position that satisfies `inside` exactly once, and nothing else.
pub open spec fn lists_once(s: Seq<Pos>, inside: spec_fn(Pos) -> bool) -> bool {
    &&& s.no_duplicates()
    &&& forall|p: Pos| #[trigger] s.contains(p) <==> inside(p)
}

pub proof fn lemma_concat_contains<A>(a: Seq<A>, b: Seq<A>, x: A)
    ensures
        (a + b).contains(x) <==> (a.contains(x) || b.contains(x)),
{
    if a.contains(x) {
        let i = choose|i: int| 0 <= i < a.len() && a[i] == x;
        assert((a + b)[i] == x);
    }
    if b.contains(x) {
        let j = choose|j: int| 0 <= j < b.len() && b[j] == x;
        assert((a + b)[a.len() + j] == x);
    }
    if (a + b).contains(x) {
        let k = choose|k: int| 0 <= k < (a + b).len() && (a + b)[k] == x;
        if k < a.len() {
            assert(a[k] == x);
        } else {
            assert(b[k - a.len()] == x);
        }
    }
}

pub proof fn lemma_concat_no_duplicates<A>(a: Seq<A>, b: Seq<A>)
    requires
        a.no_duplicates(),
        b.no_duplicates(),
        forall|x: A| a.contains(x) ==> !b.contains(x),
    ensures
        (a + b).no_duplicates(),
{
    let s = a + b;
    assert forall|i: int, j: int| 0 <= i < s.len() && 0 <= j < s.len() && i != j implies s[i]
        != s[j] by {
        if i < a.len() && j >= a.len() {
            assert(a.contains(a[i]));
            assert(b[j - a.len()] == s[j]);
        } else if j < a.len() && i >= a.len() {
            assert(a.contains(a[j]));
            assert(b[i - a.len()] == s[i]);
        } else if i >= a.len() && j >= a.len() {
            assert(s[i] == b[i - a.len()]);
            assert(s[j] == b[j - a.len()]);
        }
    }
}

/// Joining two lists that each list their own region once, over disjoint
/// regions, lists the union once.
pub proof fn lemma_concat_lists_once(
    a: Seq<Pos>,
    b: Seq<Pos>,
    ina: spec_fn(Pos) -> bool,
    inb: spec_fn(Pos) -> bool,
)
    requires
        lists_once(a, ina),
        lists_once(b, inb),
        forall|p: Pos| #[trigger] ina(p) ==> !inb(p),
    ensures
        lists_once(a + b, |p: Pos| ina(p) || inb(p)),
{
    assert forall|x: Pos| a.contains(x) implies !b.contains(x) by {
        assert(ina(x));
    }
    lemma_concat_no_duplicates(a, b);
    assert forall|p: Pos| #[trigger] (a + b).contains(p) <==> (ina(p) || inb(p)) by {
        lemma_concat_contains(a, b, p);
    }
}

pub proof fn lemma_row_run(r: int, a: int, b: int)
    requires
        0 <= r <= usize::MAX,
        0 <= a,
        b <= usize::MAX + 1,
    ensures
        lists_once(row_run(r, a, b), |p: Pos| p.0 == r && a <= p.1 < b),
{
    let s = row_run(r, a, b);
    assert forall|p: Pos| #[trigger] s.contains(p) <==> (p.0 == r && a <= p.1 < b) by {
        if p.0 == r && a <= p.1 < b {
            assert(s[p.1 - a] == p);
        }
    }
}

pub proof fn lemma_row_run_rev(r: int, a: int, b: int)
    requires
        0 <= r <= usize::MAX,
        0 <= a,
        b <= usize::MAX + 1,
    ensures
        lists_once(row_run_rev(r, a, b), |p: Pos| p.0 == r && a <= p.1 < b),
{
    let s = row_run_rev(r, a, b);
    assert forall|p: Pos| #[trigger] s.contains(p) <==> (p.0 == r && a <= p.1 < b) by {
        if p.0 == r && a <= p.1 < b {
            assert(s[b - 1 - p.1] == p);
        }
    }
}

pub proof fn lemma_col_run(c: int, a: int, b: int)
    requires
        0 <= c <= usize::MAX,
        0 <= a,
        b <= usize::MAX + 1,
    ensures
        lists_once(col_run(c, a, b), |p: Pos| p.1 == c && a <= p.0 < b),
{
    let s = col_run(c, a, b);
    assert forall|p: Pos| #[trigger] s.contains(p) <==> (p.1 == c && a <= p.0 < b) by {
        if p.1 == c && a <= p.0 < b {
            assert(s[p.0 - a] == p);
        }
    }
}

pub proof fn lemma_col_run_rev(c: int, a: int, b: int)
    requires
        0 <= c <= usize::MAX,
        0 <= a,
        b <= usize::MAX + 1,
    ensures
        lists_once(col_run_rev(c, a, b), |p: Pos| p.1 == c && a <= p.0 < b),
{
    let s = col_run_rev(c, a, b);
    assert forall|p: Pos| #[trigger] s.contains(p) <==> (p.1 == c && a <= p.0 < b) by {
        if p.1 == c && a <= p.0 < b {
            assert(s[b - 1 - p.0] == p);
        }
    }
}

} // verus!
