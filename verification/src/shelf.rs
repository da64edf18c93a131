//! Shelf packing: rectangles are placed left-to-right in rows; when a
//! rectangle would reach past the packing width a new row starts below the
//! tallest rectangle of the finished row. Rectangles are visited in order of
//! descending height (ties keep registration order), so every rectangle fits
//! the height of its row.

use vstd::prelude::*;

use vstd::multiset::Multiset;
use vstd::relations::sorted_by;
use vstd::relations::total_ordering;
use vstd::seq_lib::lemma_multiset_commutative;
use vstd::seq_lib::lemma_sorted_unique;

verus! {

/// A rectangle to pack: its position in the registration order and its
/// pixel dimensions.
#[derive(Clone, Copy, Debug, PartialEq, Eq, Structural)]
pub struct Dims {
    pub pos: usize,
    pub w: u32,
    pub h: u32,
}

/// The packing order: descending height, ties broken by registration
/// position (keeping the visit stable), then by width to make the order
/// total on all values.
pub open spec fn dims_leq(a: Dims, b: Dims) -> bool {
    if a.h != b.h {
        a.h > b.h
    } else if a.pos != b.pos {
        a.pos < b.pos
    } else {
        a.w <= b.w
    }
}

/// The packing order as a first-class function.
pub open spec fn dims_order() -> spec_fn(Dims, Dims) -> bool {
    |a: Dims, b: Dims| dims_leq(a, b)
}

/// `dims_leq` is a total ordering.
pub proof fn lemma_dims_order_total()
    ensures
        total_ordering(dims_order()),
{
}

/// Whether `a` precedes `b` in the packing order.
fn dims_le_exec(a: &Dims, b: &Dims) -> (r: bool)
    ensures
        r == dims_leq(*a, *b),
{
    if a.h != b.h {
        a.h > b.h
    } else if a.pos != b.pos {
        a.pos < b.pos
    } else {
        a.w <= b.w
    }
}

/// Inserting `x` where an ascending scan stopped keeps a sorted run
/// sorted and adds `x` to its contents.
pub proof fn lemma_sorted_insert<A>(r: Seq<A>, j: int, x: A, leq: spec_fn(A, A) -> bool)
    requires
        0 <= j <= r.len(),
        total_ordering(leq),
        sorted_by(r, leq),
        forall|k: int| 0 <= k < j ==> leq(#[trigger] r[k], x),
        j < r.len() ==> !leq(r[j], x),
    ensures
        sorted_by(r.insert(j, x), leq),
        r.insert(j, x).to_multiset() == r.to_multiset().insert(x),
{
    broadcast use vstd::seq_lib::group_to_multiset_ensures;

    assert forall|k: int| j <= k < r.len() implies leq(x, #[trigger] r[k]) by {
        assert(leq(x, r[j]));
        if k > j {
            assert(leq(r[j], r[k]));
        }
    }
    let inserted = r.insert(j, x);
    assert forall|m: int, k: int| 0 <= m < k < inserted.len() implies leq(
        inserted[m],
        inserted[k],
    ) by {
        if m < j && k > j {
            assert(leq(inserted[m], inserted[k]));
        } else {
        }
    }
    assert(sorted_by(inserted, leq));
    assert(r =~= r.take(j) + r.skip(j));
    assert(inserted =~= r.take(j) + seq![x] + r.skip(j));
    lemma_multiset_commutative(r.take(j), r.skip(j));
    lemma_multiset_commutative(r.take(j) + seq![x], r.skip(j));
    lemma_multiset_commutative(r.take(j), seq![x]);
    assert(seq![x] =~= Seq::<A>::empty().push(x));
    assert(Seq::<A>::empty().to_multiset() =~= Multiset::<A>::empty());
    assert(seq![x].to_multiset() =~= Multiset::<A>::empty().insert(x));
    assert(inserted.to_multiset() =~= r.to_multiset().insert(x));
}

/// Taking one more element of `v` adds `v[i]` to the prefix contents.
pub proof fn lemma_take_push_to_multiset<A>(v: Seq<A>, i: int)
    requires
        0 <= i < v.len(),
    ensures
        v.take(i + 1).to_multiset() == v.take(i).to_multiset().insert(v[i]),
{
    broadcast use vstd::seq_lib::group_to_multiset_ensures;

    assert(v.take(i + 1) =~= v.take(i).push(v[i]));
}

/// A sorted sequence with the contents of `v` is `v`'s canonical sort.
pub proof fn lemma_sorted_is_sort_by<A>(r: Seq<A>, v: Seq<A>, leq: spec_fn(A, A) -> bool)
    requires
        total_ordering(leq),
        sorted_by(r, leq),
        r.to_multiset() == v.to_multiset(),
    ensures
        r == v.sort_by(leq),
        r.len() == v.len(),
{
    broadcast use vstd::seq_lib::group_to_multiset_ensures;

    v.lemma_sort_by_ensures(leq);
    lemma_sorted_unique(r, v.sort_by(leq), leq);
    assert(r.to_multiset().len() == v.to_multiset().len());
    assert(r.len() == r.to_multiset().len());
    assert(v.len() == v.to_multiset().len());
}

/// Sort rectangles into the packing order.
pub fn sort_dims(v: Vec<Dims>) -> (r: Vec<Dims>)
    ensures
        r@ == v@.sort_by(dims_order()),
        r@.len() == v@.len(),
        r@.to_multiset() == v@.to_multiset(),
        sorted_by(r@, dims_order()),
{
    let mut r: Vec<Dims> = Vec::new();
    proof {
        broadcast use vstd::seq_lib::group_to_multiset_ensures;

        assert(r@ =~= v@.take(0int));
        assert(r@.to_multiset() =~= v@.take(0int).to_multiset());
    }
    let mut i: usize = 0;
    while i < v.len()
        invariant
            i <= v@.len(),
            sorted_by(r@, dims_order()),
            r@.to_multiset() == v@.take(i as int).to_multiset(),
        decreases v@.len() - i,
    {
        let x: Dims = v[i];
        let mut j: usize = 0;
        while j < r.len() && dims_le_exec(&r[j], &x)
            invariant
                j <= r@.len(),
                forall|k: int| 0 <= k < j ==> dims_leq(r@[k], x),
            decreases r@.len() - j,
        {
            j = j + 1;
        }
        proof {
            lemma_dims_order_total();
            lemma_sorted_insert(r@, j as int, x, dims_order());
            lemma_take_push_to_multiset(v@, i as int);
        }
        r.insert(j, x);
        i = i + 1;
    }
    proof {
        assert(v@.take(v@.len() as int) =~= v@);
        lemma_dims_order_total();
        lemma_sorted_is_sort_by(r@, v@, dims_order());
    }
    r
}

/// The cursor state after placing the first `n` sorted rectangles: the pen
/// position, the height of the current row, and each placed rectangle's
/// position.
pub struct PlaceState {
    pub x: int,
    pub y: int,
    pub maxh: int,
    pub placed: Seq<(int, int)>,
}

/// Place the first `n` sorted rectangles at packing width `width`: place at
/// the cursor and advance by the width; when the cursor plus the width would
/// reach the packing width, start a new row below the tallest rectangle of
/// the current row.
pub open spec fn spec_place(d: Seq<Dims>, width: int, n: int) -> PlaceState
    decreases n,
{
    if 0 < n <= d.len() {
        let st = spec_place(d, width, n - 1);
        let w = d[n - 1].w as int;
        let h = d[n - 1].h as int;
        if st.x + w >= width {
            PlaceState {
                x: w,
                y: st.y + st.maxh,
                maxh: h,
                placed: st.placed.push((0, st.y + st.maxh)),
            }
        } else {
            PlaceState { x: st.x + w, y: st.y, maxh: st.maxh, placed: st.placed.push((st.x, st.y)) }
        }
    } else {
        PlaceState {
            x: 0,
            y: 0,
            maxh: if d.len() > 0 {
                d[0].h as int
            } else {
                0
            },
            placed: Seq::empty(),
        }
    }
}

/// The packed height: the top of the last row plus that row's height.
pub open spec fn spec_packed_height(d: Seq<Dims>, width: int) -> int {
    if d.len() == 0 {
        0
    } else {
        let st = spec_place(d, width, d.len() as int);
        st.y + st.maxh
    }
}

/// Two axis-aligned rectangles do not overlap.
pub open spec fn spec_disjoint(
    x1: int,
    y1: int,
    w1: int,
    h1: int,
    x2: int,
    y2: int,
    w2: int,
    h2: int,
) -> bool {
    x1 + w1 <= x2 || x2 + w2 <= x1 || y1 + h1 <= y2 || y2 + h2 <= y1
}

/// The running invariants of the placement fold.
pub open spec fn place_inv(d: Seq<Dims>, width: int, n: int) -> bool {
    let st = spec_place(d, width, n);
    &&& st.placed.len() == n
    &&& 0 <= st.x
    &&& 0 <= st.y
    &&& 0 <= st.maxh
    &&& forall|i: int|
        0 <= i < n ==> 0 <= (#[trigger] st.placed[i]).0 && 0 <= st.placed[i].1
    &&& forall|i: int|
        0 <= i < n ==> (#[trigger] st.placed[i]).1 + d[i].h <= st.y + st.maxh
    &&& forall|i: int|
        0 <= i < n ==> (#[trigger] st.placed[i]).1 == st.y || st.placed[i].1 + d[i].h <= st.y
    &&& forall|i: int|
        0 <= i < n && (#[trigger] st.placed[i]).1 == st.y && d[i].h > 0 ==> st.placed[i].0
            + d[i].w <= st.x
    &&& forall|i: int|
        0 <= i < n && (#[trigger] st.placed[i]).1 == st.y ==> d[i].h <= st.maxh
    &&& forall|i: int, j: int|
        0 <= i < j < n && (#[trigger] st.placed[i]).1 == (#[trigger] st.placed[j]).1 && d[i].h > 0
            ==> st.placed[i].0 + d[i].w <= st.placed[j].0
    &&& forall|i: int| 0 <= i < n ==> (#[trigger] st.placed[i]).1 <= st.y
    &&& forall|i: int|
        0 <= i < n && d[i].w <= width ==> (#[trigger] st.placed[i]).0 + d[i].w <= width
    &&& forall|i: int|
        0 <= i < n ==> (#[trigger] st.placed[i]).0 == 0 || st.placed[i].0 + d[i].w < width
}

/// On height-sorted input, every rectangle still to be placed fits under
/// the current row height.
pub proof fn lemma_maxh_bound(d: Seq<Dims>, width: int, n: int)
    requires
        0 <= n <= d.len(),
        sorted_by(d, dims_order()),
    ensures
        forall|k: int| n <= k < d.len() ==> (#[trigger] d[k]).h <= spec_place(d, width, n).maxh,
    decreases n,
{
    let leq = dims_order();
    if n == 0 {
        assert forall|k: int| 0 <= k < d.len() implies (#[trigger] d[k]).h <= spec_place(
            d,
            width,
            0,
        ).maxh by {
            if k > 0 {
                assert(leq(d[0], d[k]));
            }
            assert(dims_leq(d[0], d[k]));
        }
    } else {
        lemma_maxh_bound(d, width, n - 1);
        let st0 = spec_place(d, width, n - 1);
        if st0.x + d[n - 1].w >= width {
            assert forall|k: int| n <= k < d.len() implies (#[trigger] d[k]).h <= spec_place(
                d,
                width,
                n,
            ).maxh by {
                if k > n - 1 {
                    assert(leq(d[n - 1], d[k]));
                }
                assert(dims_leq(d[n - 1], d[k]));
            }
        }
    }
}

/// The placement fold maintains its invariants on height-sorted input.
pub proof fn lemma_place_inv(d: Seq<Dims>, width: int, n: int)
    requires
        0 <= n <= d.len(),
        sorted_by(d, dims_order()),
    ensures
        place_inv(d, width, n),
    decreases n,
{
    if n > 0 {
        lemma_place_inv(d, width, n - 1);
        lemma_maxh_bound(d, width, n - 1);
        lemma_place_len(d, width, n);
        let st0 = spec_place(d, width, n - 1);
        let st = spec_place(d, width, n);
        assert(d[n - 1].h <= st0.maxh);
    }
}

/// Shelf placement on height-sorted input yields pairwise disjoint
/// rectangles that lie inside the packed area: every rectangle ends above
/// the packed height, and every rectangle no wider than the packing width
/// ends left of it.
pub proof fn lemma_place_disjoint(d: Seq<Dims>, width: int)
    requires
        sorted_by(d, dims_order()),
    ensures
        ({
            let st = spec_place(d, width, d.len() as int);
            &&& forall|i: int, j: int|
                0 <= i < j < d.len() ==> spec_disjoint(
                    (#[trigger] st.placed[i]).0,
                    st.placed[i].1,
                    d[i].w as int,
                    d[i].h as int,
                    (#[trigger] st.placed[j]).0,
                    st.placed[j].1,
                    d[j].w as int,
                    d[j].h as int,
                )
            &&& forall|i: int|
                0 <= i < d.len() ==> (#[trigger] st.placed[i]).1 + d[i].h <= spec_packed_height(
                    d,
                    width,
                )
            &&& forall|i: int|
                0 <= i < d.len() && d[i].w <= width ==> (#[trigger] st.placed[i]).0 + d[i].w
                    <= width
            &&& forall|i: int|
                0 <= i < d.len() ==> 0 <= (#[trigger] st.placed[i]).0 && 0 <= st.placed[i].1
            &&& forall|i: int|
                0 <= i < d.len() ==> (#[trigger] st.placed[i]).0 == 0 || st.placed[i].0 + d[i].w
                    < width
        }),
{
    let n = d.len() as int;
    lemma_place_inv(d, width, n);
    let st = spec_place(d, width, n);
    assert forall|i: int, j: int| 0 <= i < j < n implies spec_disjoint(
        (#[trigger] st.placed[i]).0,
        st.placed[i].1,
        d[i].w as int,
        d[i].h as int,
        (#[trigger] st.placed[j]).0,
        st.placed[j].1,
        d[j].w as int,
        d[j].h as int,
    ) by {
        lemma_place_prefix(d, width, j + 1, n);
        lemma_place_prefix(d, width, j, n);
        lemma_place_inv(d, width, j + 1);
        lemma_place_inv(d, width, j);
        let stj = spec_place(d, width, j + 1);
        let stj0 = spec_place(d, width, j);
        assert(st.placed[i] == stj0.placed[i]);
        assert(st.placed[j] == stj.placed[j]);
        if st.placed[i].1 == st.placed[j].1 {
            if d[i].h > 0 {
                assert(st.placed[i].0 + d[i].w <= st.placed[j].0);
            } else {
                assert(st.placed[i].1 + d[i].h <= st.placed[j].1);
            }
        } else {
            if stj0.x + d[j].w >= width {
                assert(stj.placed[j].1 == stj0.y + stj0.maxh);
                assert(stj0.placed[i].1 + d[i].h <= stj0.y + stj0.maxh);
            } else {
                assert(stj.placed[j].1 == stj0.y);
                assert(stj0.placed[i].1 == stj0.y || stj0.placed[i].1 + d[i].h <= stj0.y);
            }
        }
    }
    if n > 0 {
        assert forall|i: int| 0 <= i < n implies (#[trigger] st.placed[i]).1 + d[i].h
            <= spec_packed_height(d, width) by {}
    }
}

/// Placements already made do not move as the fold continues.
pub proof fn lemma_place_prefix(d: Seq<Dims>, width: int, m: int, n: int)
    requires
        0 <= m <= n <= d.len(),
    ensures
        forall|i: int|
            0 <= i < m ==> (#[trigger] spec_place(d, width, n).placed[i]) == spec_place(
                d,
                width,
                m,
            ).placed[i],
        spec_place(d, width, n).placed.len() == n,
        spec_place(d, width, n).y >= spec_place(d, width, m).y,
        spec_place(d, width, n).y + spec_place(d, width, n).maxh >= spec_place(d, width, m).y
            + spec_place(d, width, m).maxh,
    decreases n,
{
    if n > m {
        lemma_place_prefix(d, width, m, n - 1);
        lemma_place_len(d, width, n);
        lemma_place_len(d, width, n - 1);
        lemma_place_len(d, width, m);
        lemma_place_nonneg(d, width, n - 1);
    } else {
        lemma_place_len(d, width, n);
    }
}

/// The cursor never moves above the top or left of the atlas.
pub proof fn lemma_place_nonneg(d: Seq<Dims>, width: int, n: int)
    requires
        0 <= n <= d.len(),
    ensures
        spec_place(d, width, n).maxh >= 0,
        spec_place(d, width, n).y >= 0,
    decreases n,
{
    if n > 0 {
        lemma_place_nonneg(d, width, n - 1);
    }
}

/// The placement fold places one rectangle per step.
pub proof fn lemma_place_len(d: Seq<Dims>, width: int, n: int)
    requires
        0 <= n <= d.len(),
    ensures
        spec_place(d, width, n).placed.len() == n,
    decreases n,
{
    if n > 0 {
        lemma_place_len(d, width, n - 1);
    }
}

} // verus!

verus! {

/// Place all sorted rectangles at packing width `width`, yielding each
/// rectangle's position and the packed height, or nothing when the packed
/// height does not fit 32-bit pixel coordinates.
pub fn place_all(d: &Vec<Dims>, width: u32) -> (r: Option<(Vec<(u32, u32)>, u32)>)
    ensures
        ({
            let st = spec_place(d@, width as int, d@.len() as int);
            let hfull = spec_packed_height(d@, width as int);
            match r {
                Some((placed, height)) => placed@.len() == d@.len() && height == hfull && (
                forall|i: int|
                    0 <= i < d@.len() ==> ((#[trigger] placed@[i]).0 as int, placed@[i].1 as int)
                        == st.placed[i]),
                None => hfull > u32::MAX,
            }
        }),
{
    let n = d.len();
    let mut wide: Vec<(u64, u64)> = Vec::new();
    let mut x: u64 = 0;
    let mut y: u64 = 0;
    let mut maxh: u32 = if n > 0 {
        d[0].h
    } else {
        0
    };
    let mut i: usize = 0;
    proof {
        lemma_place_len(d@, width as int, 0);
    }
    while i < n
        invariant
            i <= n,
            n == d@.len(),
            ({
                let st = spec_place(d@, width as int, i as int);
                &&& x == st.x
                &&& y == st.y
                &&& maxh == st.maxh
                &&& st.placed.len() == i
                &&& wide@.len() == i
                &&& forall|k: int|
                    0 <= k < i ==> ((#[trigger] wide@[k]).0 as int, wide@[k].1 as int)
                        == st.placed[k]
            }),
            x <= u32::MAX as u64,
            y <= u32::MAX as u64,
            forall|k: int| 0 <= k < i ==> (#[trigger] wide@[k]).0 <= u32::MAX as u64,
            forall|k: int| 0 <= k < i ==> (#[trigger] wide@[k]).1 <= u32::MAX as u64,
        decreases n - i,
    {
        let ghost st0 = spec_place(d@, width as int, i as int);
        let w: u32 = d[i].w;
        let h: u32 = d[i].h;
        if x + w as u64 >= width as u64 {
            let ynew: u64 = y + maxh as u64;
            if ynew > u32::MAX as u64 {
                proof {
                    let st1 = spec_place(d@, width as int, i + 1);
                    lemma_place_prefix(d@, width as int, i + 1, d@.len() as int);
                    lemma_place_nonneg(d@, width as int, d@.len() as int);
                    assert(spec_packed_height(d@, width as int) >= st1.y);
                }
                return None;
            }
            y = ynew;
            x = w as u64;
            maxh = h;
            wide.push((0, y));
        } else {
            wide.push((x, y));
            x = x + w as u64;
        }
        proof {
            let st1 = spec_place(d@, width as int, i + 1);
            lemma_place_len(d@, width as int, i + 1);
            assert(forall|k: int|
                0 <= k < i + 1 ==> ((#[trigger] wide@[k]).0 as int, wide@[k].1 as int)
                    == st1.placed[k]);
        }
        i = i + 1;
    }
    let height_wide: u64 = if n > 0 {
        y + maxh as u64
    } else {
        0
    };
    if height_wide > u32::MAX as u64 {
        return None;
    }
    let height: u32 = height_wide as u32;
    let mut placed: Vec<(u32, u32)> = Vec::new();
    let mut k: usize = 0;
    proof {
        lemma_place_nonneg(d@, width as int, n as int);
    }
    while k < n
        invariant
            k <= n,
            n == d@.len(),
            wide@.len() == n,
            placed@.len() == k,
            ({
                let st = spec_place(d@, width as int, n as int);
                &&& st.placed.len() == n
                &&& (forall|j: int|
                    0 <= j < n ==> ((#[trigger] wide@[j]).0 as int, wide@[j].1 as int)
                        == st.placed[j])
                &&& (forall|j: int|
                    0 <= j < k ==> ((#[trigger] placed@[j]).0 as int, placed@[j].1 as int)
                        == st.placed[j])
            }),
            forall|j: int| 0 <= j < n ==> (#[trigger] wide@[j]).0 <= u32::MAX as u64,
            forall|j: int| 0 <= j < n ==> (#[trigger] wide@[j]).1 <= u32::MAX as u64,
        decreases n - k,
    {
        let (px, py) = wide[k];
        placed.push((px as u32, py as u32));
        k = k + 1;
    }
    Some((placed, height))
}

} // verus!
