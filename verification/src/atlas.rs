//! The texture atlas: a growing set of rectangles with stable handles,
//! packed by the shelf algorithm into a square-ish area.
//!
//! Rectangles live in a generational arena, so a handle stays valid across
//! repacking. Every `pack()` call repositions every rectangle: it computes
//! the packing width as the rounded square root of the total rectangle
//! area, sorts the rectangles by descending height (ties in registration
//! order) and walks them with the shelf cursor.

use vstd::prelude::*;

use crate::error::UiError;
use crate::shelf;
use crate::shelf::{dims_order, spec_packed_height, spec_place, Dims};
use crate::texture::TextureFormat;

verus! {

use vstd::relations::sorted_by;

/// A placed rectangle in atlas pixel coordinates. Placement fields stay
/// zero until the first `pack()`.
#[derive(Clone, Copy, Debug, PartialEq, Eq, Structural)]
pub struct Rect {
    pub x: u32,
    pub y: u32,
    pub w: u32,
    pub h: u32,
}

/// The arena type that stores the rectangles (an outside collection,
/// declared so its values can appear in signatures).
#[verifier::external_type_specification]
#[verifier::external_body]
#[verifier::reject_recursive_types(T)]
pub struct ExArena<T>(generational_arena::Arena<T>);

/// The arena's index type: a slot with a generation tag.
#[verifier::external_type_specification]
#[verifier::external_body]
pub struct ExIndex(generational_arena::Index);

/// The arena of rectangles.
pub type RectArena = generational_arena::Arena<Rect>;

/// What the arena holds: a map from abstract keys to rectangles. A key
/// stands for a slot together with its generation.
pub uninterp spec fn arena_model(a: RectArena) -> Map<int, Rect>;

/// The abstract key an index denotes (its slot and generation). Keys of
/// indices with lower slots are smaller.
pub uninterp spec fn index_model(i: generational_arena::Index) -> int;

/// Relies on `Arena::new`: the new arena is empty.
#[verifier::external_body]
fn arena_new() -> (r: RectArena)
    ensures
        arena_model(r).dom() == Set::<int>::empty(),
{
    generational_arena::Arena::new()
}

/// Relies on `Arena::insert`: stores the value under a fresh index (a free
/// slot, with a generation no earlier index of that slot carries).
#[verifier::external_body]
fn arena_insert(a: &mut RectArena, v: Rect) -> (i: generational_arena::Index)
    ensures
        !arena_model(*old(a)).dom().contains(index_model(i)),
        arena_model(*final(a)) == arena_model(*old(a)).insert(index_model(i), v),
{
    a.insert(v)
}

/// Relies on `Arena::get`: returns the element under the index when its
/// slot is occupied with a matching generation, and nothing otherwise.
#[verifier::external_body]
fn arena_get(a: &RectArena, i: generational_arena::Index) -> (r: Option<Rect>)
    ensures
        r == if arena_model(*a).dom().contains(index_model(i)) {
            Some(arena_model(*a)[index_model(i)])
        } else {
            None::<Rect>
        },
{
    a.get(i).copied()
}

/// Relies on `Arena::get_mut`: replaces the element under an index that is
/// present and reports whether it was.
#[verifier::external_body]
fn arena_set(a: &mut RectArena, i: generational_arena::Index, v: Rect) -> (ok: bool)
    ensures
        ok == arena_model(*old(a)).dom().contains(index_model(i)),
        arena_model(*final(a)) == if ok {
            arena_model(*old(a)).insert(index_model(i), v)
        } else {
            arena_model(*old(a))
        },
{
    match a.get_mut(i) {
        Some(slot) => {
            *slot = v;
            true
        },
        None => false,
    }
}

/// Relies on `Arena::iter`: yields every occupied entry exactly once, in
/// ascending slot order.
#[verifier::external_body]
fn arena_items(a: &RectArena) -> (v: Vec<(generational_arena::Index, Rect)>)
    ensures
        forall|j: int|
            0 <= j < v@.len() ==> arena_model(*a).dom().contains(
                index_model((#[trigger] v@[j]).0),
            ) && v@[j].1 == arena_model(*a)[index_model(v@[j].0)],
        forall|k: int|
            arena_model(*a).dom().contains(k) ==> exists|j: int|
                0 <= j < v@.len() && index_model((#[trigger] v@[j]).0) == k,
        forall|j1: int, j2: int|
            0 <= j1 < j2 < v@.len() ==> index_model((#[trigger] v@[j1]).0) < index_model(
                (#[trigger] v@[j2]).0,
            ),
{
    a.iter().map(|(i, r)| (i, *r)).collect()
}

/// A stable identity for a rectangle, valid across repacking.
#[derive(Clone, Copy, PartialEq, Eq, Hash)]
pub struct RectHandle(pub generational_arena::Index);

/// An ascending enumeration of a rectangle map: each entry pairs a key with
/// its rectangle, keys strictly ascend, and every key of the map appears.
pub open spec fn is_enum(m: Map<int, Rect>, e: Seq<(int, Rect)>) -> bool {
    &&& forall|p: int|
        0 <= p < e.len() ==> m.dom().contains((#[trigger] e[p]).0) && m[e[p].0] == e[p].1
    &&& forall|p: int, q: int| 0 <= p < q < e.len() ==> (#[trigger] e[p]).0 < (#[trigger] e[q]).0
    &&& forall|k: int|
        #[trigger] m.dom().contains(k) ==> exists|p: int| 0 <= p < e.len() && (#[trigger] e[p]).0 == k
}

/// The dimensions of the enumerated rectangles, tagged with their position.
pub open spec fn dims_seq(e: Seq<(int, Rect)>) -> Seq<Dims> {
    Seq::new(e.len(), |p: int| Dims { pos: p as usize, w: e[p].1.w, h: e[p].1.h })
}

/// The total pixel area of the first `n` enumerated rectangles.
pub open spec fn spec_area(e: Seq<(int, Rect)>, n: int) -> int
    decreases n,
{
    if 0 < n <= e.len() {
        spec_area(e, n - 1) + e[n - 1].1.w * e[n - 1].1.h
    } else {
        0
    }
}

/// `w` is the square root of `a`, rounded to the nearest integer (halves
/// round up).
pub open spec fn is_rsqrt(a: int, w: int) -> bool {
    &&& 0 <= w
    &&& 4 * a < (2 * w + 1) * (2 * w + 1)
    &&& ((2 * w - 1) * (2 * w - 1) <= 4 * a || w == 0)
}

/// The rounded square root.
pub open spec fn rsqrt(a: int) -> int {
    choose|w: int| is_rsqrt(a, w)
}

/// Rounded square roots are unique.
pub proof fn lemma_rsqrt_unique(a: int, w1: int, w2: int)
    requires
        is_rsqrt(a, w1),
        is_rsqrt(a, w2),
    ensures
        w1 == w2,
{
    if w1 < w2 {
        assert((2 * w1 + 1) * (2 * w1 + 1) <= (2 * w2 - 1) * (2 * w2 - 1)) by (nonlinear_arith)
            requires
                0 <= w1 < w2,
        ;
    }
    if w2 < w1 {
        assert((2 * w2 + 1) * (2 * w2 + 1) <= (2 * w1 - 1) * (2 * w1 - 1)) by (nonlinear_arith)
            requires
                0 <= w2 < w1,
        ;
    }
}

/// The packing width an atlas chooses: the rounded square root of the total
/// area, capped at 32-bit pixel coordinates.
pub open spec fn spec_atlas_width(e: Seq<(int, Rect)>) -> int {
    let r = rsqrt(spec_area(e, e.len() as int));
    if r > u32::MAX as int {
        u32::MAX as int
    } else {
        r
    }
}

/// The rectangle the `k`-th sorted entry is packed into.
pub open spec fn packed_rect(sorted: Seq<Dims>, width: int, k: int) -> Rect {
    let st = spec_place(sorted, width, sorted.len() as int);
    Rect {
        x: st.placed[k].0 as u32,
        y: st.placed[k].1 as u32,
        w: sorted[k].w,
        h: sorted[k].h,
    }
}

/// What a successful `pack()` guarantees, relative to an enumeration `e` of
/// the atlas before the call: the packing width and height are as the shelf
/// algorithm computes them, the key set is unchanged, and the rectangle
/// under each key is the one the shelf cursor assigned to it.
pub open spec fn pack_spec_ok(
    m_old: Map<int, Rect>,
    e: Seq<(int, Rect)>,
    m_new: Map<int, Rect>,
    width: u32,
    height: u32,
) -> bool {
    let sorted = dims_seq(e).sort_by(dims_order());
    &&& width == spec_atlas_width(e)
    &&& height == spec_packed_height(sorted, width as int)
    &&& m_new.dom() == m_old.dom()
    &&& forall|k: int|
        0 <= k < sorted.len() ==> (#[trigger] sorted[k]).pos < e.len() && m_new[e[
            sorted[k].pos as int
        ].0].w == sorted[k].w && m_new[e[sorted[k].pos as int].0].h == sorted[k].h && m_new[e[
            sorted[k].pos as int
        ].0] == packed_rect(sorted, width as int, k)
}

} // verus!

verus! {

/// The floor square root of `a`, then rounded to nearest by the remainder.
fn rsqrt_exec(a: u128) -> (r: u128)
    ensures
        is_rsqrt(a as int, r as int),
{
    let mut lo: u128 = 0;
    let mut hi: u128 = 0x1_0000_0000_0000_0000;
    proof {
        assert((0x1_0000_0000_0000_0000 as int) * (0x1_0000_0000_0000_0000 as int) > u128::MAX as int)
            by (nonlinear_arith);
    }
    while lo + 1 < hi
        invariant
            lo < hi <= 0x1_0000_0000_0000_0000,
            lo * lo <= a as int,
            (a as int) < hi * hi,
        decreases hi - lo,
    {
        let mid: u128 = lo + (hi - lo) / 2;
        proof {
            assert(mid * mid <= (0x1_0000_0000_0000_0000 - 1) * (0x1_0000_0000_0000_0000 - 1))
                by (nonlinear_arith)
                requires
                    mid <= 0x1_0000_0000_0000_0000 - 1,
            ;
            assert((0x1_0000_0000_0000_0000 - 1) * (0x1_0000_0000_0000_0000 - 1)
                <= u128::MAX as int) by (nonlinear_arith);
        }
        if mid * mid <= a {
            lo = mid;
        } else {
            hi = mid;
        }
    }
    proof {
        assert((a as int) < (lo + 1) * (lo + 1));
    }
    let fl: u128 = lo;
    let rem: u128 = a - fl * fl;
    if rem > fl {
        proof {
            let w = fl as int + 1;
            assert((2 * w - 1) * (2 * w - 1) <= 4 * a && 4 * (a as int) < (2 * w + 1) * (2 * w + 1))
                by (nonlinear_arith)
                requires
                    w == fl as int + 1,
                    fl * fl <= a as int,
                    (a as int) < w * w,
                    (a as int) - fl * fl > fl,
            ;
        }
        fl + 1
    } else {
        proof {
            let w = fl as int;
            assert(((2 * w - 1) * (2 * w - 1) <= 4 * a || w == 0) && 4 * (a as int) < (2 * w + 1)
                * (2 * w + 1)) by (nonlinear_arith)
                requires
                    w == fl as int,
                    0 <= w,
                    fl * fl <= a as int,
                    (a as int) < (w + 1) * (w + 1),
                    (a as int) - fl * fl <= fl,
            ;
        }
        fl
    }
}

/// The atlas: rectangles with stable handles, a packed area, and the dirty
/// flag its consumer clears after re-uploading the composed bitmap.
pub struct Atlas {
    rects: RectArena,
    pub width: u32,
    pub height: u32,
    pub changed: bool,
    pub format: TextureFormat,
}

impl Atlas {
    /// The rectangles, keyed by abstract handle key.
    pub closed spec fn spec_model(self) -> Map<int, Rect> {
        arena_model(self.rects)
    }

    /// The packing width.
    pub closed spec fn spec_width(self) -> u32 {
        self.width
    }

    /// The packed height.
    pub closed spec fn spec_height(self) -> u32 {
        self.height
    }

    /// The dirty flag.
    pub closed spec fn spec_changed(self) -> bool {
        self.changed
    }

    /// The pixel format.
    pub closed spec fn spec_format(self) -> TextureFormat {
        self.format
    }

    /// An empty atlas in the given pixel format.
    pub fn new(format: TextureFormat) -> (r: Atlas)
        ensures
            r.spec_model().dom() == Set::<int>::empty(),
            r.spec_width() == 0,
            r.spec_height() == 0,
            r.spec_changed() == false,
            r.spec_format() == format,
    {
        Atlas { rects: arena_new(), width: 0, height: 0, changed: false, format }
    }

    /// Register an unplaced `w` by `h` rectangle and mark the atlas dirty;
    /// returns the rectangle's stable handle.
    pub fn add(&mut self, w: u32, h: u32) -> (handle: RectHandle)
        ensures
            !old(self).spec_model().dom().contains(index_model(handle.0)),
            final(self).spec_model() == old(self).spec_model().insert(
                index_model(handle.0),
                Rect { x: 0, y: 0, w, h },
            ),
            final(self).spec_width() == old(self).spec_width(),
            final(self).spec_height() == old(self).spec_height(),
            final(self).spec_changed() == true,
            final(self).spec_format() == old(self).spec_format(),
    {
        self.changed = true;
        let rect = Rect { x: 0, y: 0, w, h };
        let index = arena_insert(&mut self.rects, rect);
        RectHandle(index)
    }

    /// The packed area in pixels.
    pub fn size(&self) -> (r: (u32, u32))
        ensures
            r.0 == self.spec_width(),
            r.1 == self.spec_height(),
    {
        (self.width, self.height)
    }

    /// The pixel format.
    pub fn pixel_format(&self) -> (r: TextureFormat)
        ensures
            r == self.spec_format(),
    {
        self.format
    }

    /// Look up a rectangle by its handle; nothing for a stale or foreign
    /// handle.
    pub fn get_rect(&self, handle: RectHandle) -> (r: Option<Rect>)
        ensures
            r == if self.spec_model().dom().contains(index_model(handle.0)) {
                Some(self.spec_model()[index_model(handle.0)])
            } else {
                None::<Rect>
            },
    {
        arena_get(&self.rects, handle.0)
    }
}

} // verus!

verus! {

use vstd::seq_lib::lemma_multiset_commutative;

/// Some sorted entry carries registration position `p`.
pub open spec fn has_pos(sorted: Seq<Dims>, p: int) -> bool {
    exists|k: int| 0 <= k < sorted.len() && (#[trigger] sorted[k]).pos == p
}

/// Every registration position appears among the sorted entries.
pub open spec fn covers_positions(d: Seq<Dims>, sorted: Seq<Dims>) -> bool {
    forall|p: int| 0 <= p < d.len() ==> #[trigger] has_pos(sorted, p)
}

/// Sorting position-tagged dimensions permutes them: every sorted entry is
/// the original entry at its position, positions stay distinct, and every
/// position appears.
pub proof fn lemma_pos_perm(d: Seq<Dims>)
    requires
        forall|p: int| 0 <= p < d.len() ==> (#[trigger] d[p]).pos == p,
    ensures
        ({
            let sorted = d.sort_by(dims_order());
            &&& sorted.len() == d.len()
            &&& forall|k: int|
                0 <= k < sorted.len() ==> (#[trigger] sorted[k]).pos < d.len() && sorted[k] == d[
                    sorted[k].pos as int
                ]
            &&& forall|k1: int, k2: int|
                0 <= k1 < k2 < sorted.len() ==> (#[trigger] sorted[k1]).pos != (
                #[trigger] sorted[k2]).pos
            &&& covers_positions(d, sorted)
        }),
{
    broadcast use vstd::seq_lib::group_to_multiset_ensures;

    shelf::lemma_dims_order_total();
    d.lemma_sort_by_ensures(dims_order());
    let sorted = d.sort_by(dims_order());
    assert(sorted.to_multiset().len() == d.to_multiset().len());
    assert(d.no_duplicates()) by {
        assert forall|i: int, j: int| 0 <= i < d.len() && 0 <= j < d.len() && i != j implies d[i]
            != d[j] by {
            assert(d[i].pos == i && d[j].pos == j);
        }
    }
    d.lemma_multiset_has_no_duplicates();
    assert forall|k: int| 0 <= k < sorted.len() implies (#[trigger] sorted[k]).pos < d.len()
        && sorted[k] == d[sorted[k].pos as int] by {
        assert(sorted.contains(sorted[k]));
        assert(sorted.to_multiset().contains(sorted[k]));
        assert(d.to_multiset().contains(sorted[k]));
        assert(d.contains(sorted[k]));
        let j = choose|j: int| 0 <= j < d.len() && d[j] == sorted[k];
        assert(d[j].pos == j);
    }
    assert forall|k1: int, k2: int|
        0 <= k1 < k2 < sorted.len() implies (#[trigger] sorted[k1]).pos != (
    #[trigger] sorted[k2]).pos by {
        if sorted[k1].pos == sorted[k2].pos {
            assert(sorted[k1] == sorted[k2]);
            assert(sorted.to_multiset().contains(sorted[k1]));
            assert(d.to_multiset().count(sorted[k1]) == 1);
            lemma_count_split(sorted, k1, k2);
        }
    }
    assert forall|p: int| 0 <= p < d.len() implies #[trigger] has_pos(sorted, p) by {
        assert(d[p].pos == p);
        assert(d.contains(d[p]));
        assert(d.to_multiset().contains(d[p]));
        assert(sorted.to_multiset().contains(d[p]));
        assert(sorted.contains(d[p]));
        let k = choose|k: int| 0 <= k < sorted.len() && sorted[k] == d[p];
        assert(sorted[k].pos == p);
    }
    assert(covers_positions(d, sorted));
}

/// A value found at two distinct positions counts at least twice in the
/// multiset.
proof fn lemma_count_split(s: Seq<Dims>, k1: int, k2: int)
    requires
        0 <= k1 < k2 < s.len(),
        s[k1] == s[k2],
    ensures
        s.to_multiset().count(s[k1]) >= 2,
{
    broadcast use vstd::seq_lib::group_to_multiset_ensures;

    let x = s[k1];
    let a = s.take(k2);
    let b = s.skip(k2);
    assert(s =~= a + b);
    lemma_multiset_commutative(a, b);
    assert(a.contains(x));
    assert(a.to_multiset().contains(x));
    assert(b[0] == x);
    assert(b.contains(x));
    assert(b.to_multiset().contains(x));
    assert(s.to_multiset().count(x) == a.to_multiset().count(x) + b.to_multiset().count(x));
}

/// A map has exactly one ascending enumeration.
pub proof fn lemma_enum_unique(m: Map<int, Rect>, e1: Seq<(int, Rect)>, e2: Seq<(int, Rect)>)
    requires
        is_enum(m, e1),
        is_enum(m, e2),
    ensures
        e1 =~= e2,
    decreases e1.len(),
{
    if e1.len() == 0 {
        if e2.len() > 0 {
            assert(m.dom().contains(e2[0].0));
        }
    } else if e2.len() == 0 {
        assert(m.dom().contains(e1[0].0));
    } else {
        // both first entries are the minimum key of the domain
        assert(m.dom().contains(e1[0].0));
        assert(m.dom().contains(e2[0].0));
        let p1 = choose|p: int| 0 <= p < e2.len() && e2[p].0 == e1[0].0;
        let p2 = choose|p: int| 0 <= p < e1.len() && e1[p].0 == e2[0].0;
        assert(e2[0].0 <= e2[p1].0);
        assert(e1[0].0 <= e1[p2].0);
        assert(e1[0].0 == e2[0].0);
        assert(e1[0] == e2[0]);
        let key0 = e1[0].0;
        let m1 = m.remove(key0);
        assert(is_enum(m1, e1.drop_first())) by {
            assert forall|k: int| #[trigger] m1.dom().contains(k) implies exists|p: int|
                0 <= p < e1.drop_first().len() && (#[trigger] e1.drop_first()[p]).0 == k by {
                assert(m.dom().contains(k));
                let p = choose|p: int| 0 <= p < e1.len() && e1[p].0 == k;
                assert(k != key0);
                assert(p >= 1);
                assert(e1.drop_first()[p - 1].0 == k);
            }
        }
        assert(is_enum(m1, e2.drop_first())) by {
            assert forall|k: int| #[trigger] m1.dom().contains(k) implies exists|p: int|
                0 <= p < e2.drop_first().len() && (#[trigger] e2.drop_first()[p]).0 == k by {
                assert(m.dom().contains(k));
                let p = choose|p: int| 0 <= p < e2.len() && e2[p].0 == k;
                assert(k != key0);
                assert(p >= 1);
                assert(e2.drop_first()[p - 1].0 == k);
            }
        }
        lemma_enum_unique(m1, e1.drop_first(), e2.drop_first());
        assert(e1 =~= seq![e1[0]] + e1.drop_first());
        assert(e2 =~= seq![e2[0]] + e2.drop_first());
    }
}

} // verus!

verus! {

impl Atlas {
    /// Assign every rectangle a fresh position by shelf packing: the
    /// packing width is the rounded square root of the total rectangle
    /// area (capped at 32-bit coordinates), rectangles are visited in
    /// order of descending height with ties in registration order, and the
    /// packed height is recorded. Fails with [`UiError::AtlasTooLarge`],
    /// leaving every placement unchanged, when the packed height exceeds
    /// 32-bit coordinates. Marks the atlas dirty either way.
    pub fn pack(&mut self) -> (r: Result<(), UiError>)
        ensures
            final(self).spec_changed() == true,
            final(self).spec_format() == old(self).spec_format(),
            forall|e: Seq<(int, Rect)>|
                #[trigger] is_enum(old(self).spec_model(), e) ==> match r {
                    Ok(()) => pack_spec_ok(
                        old(self).spec_model(),
                        e,
                        final(self).spec_model(),
                        final(self).spec_width(),
                        final(self).spec_height(),
                    ),
                    Err(err) => err == UiError::AtlasTooLarge
                        && final(self).spec_model() == old(self).spec_model()
                        && final(self).spec_width() == old(self).spec_width()
                        && final(self).spec_height() == old(self).spec_height()
                        && spec_packed_height(
                        dims_seq(e).sort_by(dims_order()),
                        spec_atlas_width(e) as int,
                    ) > u32::MAX,
                },
    {
        self.changed = true;
        let items = arena_items(&self.rects);
        let n = items.len();
        let ghost e = Seq::new(items@.len(), |p: int| (index_model(items@[p].0), items@[p].1));
        proof {
            assert(is_enum(self.spec_model(), e)) by {
                assert forall|k: int| #[trigger]
                    self.spec_model().dom().contains(k) implies exists|p: int|
                    0 <= p < e.len() && (#[trigger] e[p]).0 == k by {
                    let j = choose|j: int|
                        0 <= j < items@.len() && index_model((#[trigger] items@[j]).0) == k;
                    assert(e[j].0 == k);
                }
            }
        }
        // total pixel area
        let mut area: u128 = 0;
        let mut i: usize = 0;
        while i < n
            invariant
                i <= n,
                n == items@.len(),
                e == Seq::new(
                    items@.len(),
                    |p: int| (index_model(items@[p].0), items@[p].1),
                ),
                area == spec_area(e, i as int),
                area <= i * 0xffff_ffff_ffff_ffff,
            decreases n - i,
        {
            let w: u32 = items[i].1.w;
            let h: u32 = items[i].1.h;
            proof {
                assert((w as int) * (h as int) <= 0xffff_ffff_ffff_ffff) by (nonlinear_arith)
                    requires
                        w <= 0xffff_ffff,
                        h <= 0xffff_ffff,
                ;
                assert(area + (w as int) * (h as int) <= (i + 1) * 0xffff_ffff_ffff_ffff)
                    by (nonlinear_arith)
                    requires
                        area <= i * 0xffff_ffff_ffff_ffff,
                        (w as int) * (h as int) <= 0xffff_ffff_ffff_ffff,
                ;
                assert((i + 1) * 0xffff_ffff_ffff_ffff <= 0x1_0000_0000_0000_0000
                    * 0xffff_ffff_ffff_ffff) by (nonlinear_arith)
                    requires
                        i + 1 <= 0x1_0000_0000_0000_0000,
                ;
                assert(e[i as int].1 == items@[i as int].1);
            }
            area = area + (w as u128) * (h as u128);
            i = i + 1;
        }
        // packing width
        let rs: u128 = rsqrt_exec(area);
        let width: u32 = if rs > u32::MAX as u128 {
            u32::MAX
        } else {
            rs as u32
        };
        proof {
            assert(is_rsqrt(area as int, rs as int));
            assert(is_rsqrt(area as int, rsqrt(area as int))) by {
                assert(exists|w: int| is_rsqrt(area as int, w));
            }
            lemma_rsqrt_unique(area as int, rs as int, rsqrt(area as int));
            assert(width as int == spec_atlas_width(e));
        }
        // dimensions tagged with registration positions
        let mut dvec: Vec<Dims> = Vec::new();
        let mut i2: usize = 0;
        proof {
            assert(dvec@ =~= dims_seq(e).take(0int));
        }
        while i2 < n
            invariant
                i2 <= n,
                n == items@.len(),
                e == Seq::new(
                    items@.len(),
                    |p: int| (index_model(items@[p].0), items@[p].1),
                ),
                dvec@ =~= dims_seq(e).take(i2 as int),
            decreases n - i2,
        {
            dvec.push(Dims { pos: i2, w: items[i2].1.w, h: items[i2].1.h });
            proof {
                assert(dvec@ =~= dims_seq(e).take(i2 + 1));
            }
            i2 = i2 + 1;
        }
        proof {
            assert(dvec@ =~= dims_seq(e));
            lemma_pos_perm(dims_seq(e));
        }
        let sorted = shelf::sort_dims(dvec);
        // placement
        let placed_opt = shelf::place_all(&sorted, width);
        let (placed, height) = match placed_opt {
            Some(ph) => ph,
            None => {
                proof {
                    assert forall|e2: Seq<(int, Rect)>| #[trigger]
                        is_enum(old(self).spec_model(), e2) implies spec_packed_height(
                        dims_seq(e2).sort_by(dims_order()),
                        spec_atlas_width(e2) as int,
                    ) > u32::MAX by {
                        lemma_enum_unique(old(self).spec_model(), e2, e);
                    }
                }
                return Err(UiError::AtlasTooLarge);
            },
        };
        // write the placements back
        let ghost sorted_spec = dims_seq(e).sort_by(dims_order());
        let ghost m_old = old(self).spec_model();
        let mut k: usize = 0;
        while k < sorted.len()
            invariant
                k <= sorted@.len(),
                sorted@ == sorted_spec,
                sorted@.len() == n,
                n == items@.len(),
                placed@.len() == n,
                width as int == spec_atlas_width(e),
                e == Seq::new(
                    items@.len(),
                    |p: int| (index_model(items@[p].0), items@[p].1),
                ),
                is_enum(m_old, e),
                forall|j: int|
                    0 <= j < n ==> (#[trigger] sorted@[j]).pos < n && sorted@[j] == dims_seq(e)[
                        sorted@[j].pos as int
                    ],
                forall|j1: int, j2: int|
                    0 <= j1 < j2 < n ==> (#[trigger] sorted@[j1]).pos != (
                    #[trigger] sorted@[j2]).pos,
                forall|j: int|
                    0 <= j < n ==> ((#[trigger] placed@[j]).0 as int, placed@[j].1 as int)
                        == spec_place(sorted_spec, width as int, n as int).placed[j],
                self.spec_model().dom() == m_old.dom(),
                self.spec_format() == old(self).spec_format(),
                self.spec_width() == old(self).spec_width(),
                self.spec_height() == old(self).spec_height(),
                self.changed == true,
                forall|j: int|
                    0 <= j < k ==> self.spec_model()[e[(#[trigger] sorted@[j]).pos as int].0]
                        == packed_rect(sorted_spec, width as int, j),
                forall|key: int|
                    m_old.dom().contains(key) && (forall|j: int|
                        0 <= j < k ==> e[(#[trigger] sorted@[j]).pos as int].0 != key)
                        ==> self.spec_model()[key] == m_old[key],
            decreases sorted@.len() - k,
        {
            let p: usize = sorted[k].pos;
            let idx = items[p].0;
            let rect = Rect { x: placed[k].0, y: placed[k].1, w: sorted[k].w, h: sorted[k].h };
            proof {
                assert(e[p as int].0 == index_model(items@[p as int].0));
                assert(m_old.dom().contains(e[p as int].0));
                shelf::lemma_place_len(sorted_spec, width as int, n as int);
            }
            let ok = arena_set(&mut self.rects, idx, rect);
            proof {
                assert(ok);
                assert(self.spec_model().dom() =~= m_old.dom());
                assert(rect == packed_rect(sorted_spec, width as int, k as int));
                assert forall|j1: int, j2: int|
                    0 <= j1 < n && 0 <= j2 < n && j1 != j2 implies e[(sorted@[j1]).pos as int].0
                    != e[(sorted@[j2]).pos as int].0 by {
                    if sorted@[j1].pos != sorted@[j2].pos {
                        if sorted@[j1].pos < sorted@[j2].pos {
                            assert(e[sorted@[j1].pos as int].0 < e[sorted@[j2].pos as int].0);
                        } else {
                            assert(e[sorted@[j2].pos as int].0 < e[sorted@[j1].pos as int].0);
                        }
                    }
                }
            }
            k = k + 1;
        }
        self.width = width;
        self.height = height;
        proof {
            assert forall|e2: Seq<(int, Rect)>| #[trigger]
                is_enum(m_old, e2) implies pack_spec_ok(
                m_old,
                e2,
                self.spec_model(),
                width,
                height,
            ) by {
                lemma_enum_unique(m_old, e2, e);
                assert(e2 =~= e);
                assert(pack_spec_ok(m_old, e, self.spec_model(), width, height)) by {
                    shelf::lemma_place_len(sorted_spec, width as int, n as int);
                }
            }
        }
        Ok(())
    }
}

} // verus!

verus! {

use crate::shelf::spec_disjoint;

/// The dimension sequence tags each entry with its position.
pub proof fn lemma_dims_seq_pos(e: Seq<(int, Rect)>)
    requires
        e.len() <= usize::MAX,
    ensures
        forall|p: int| 0 <= p < dims_seq(e).len() ==> (#[trigger] dims_seq(e)[p]).pos == p,
{
    assert forall|p: int| 0 <= p < dims_seq(e).len() implies (#[trigger] dims_seq(e)[p]).pos
        == p by {
        assert(dims_seq(e)[p] == Dims { pos: p as usize, w: e[p].1.w, h: e[p].1.h });
    }
}

/// The total area depends only on the enumerated dimensions.
proof fn lemma_area_congruent(e1: Seq<(int, Rect)>, e2: Seq<(int, Rect)>, n: int)
    requires
        e1.len() == e2.len(),
        forall|p: int|
            0 <= p < e1.len() ==> (#[trigger] e1[p]).1.w == e2[p].1.w && e1[p].1.h == e2[p].1.h,
    ensures
        spec_area(e1, n) == spec_area(e2, n),
    decreases n,
{
    if 0 < n <= e1.len() {
        lemma_area_congruent(e1, e2, n - 1);
    }
}

/// After a pack, no two rectangles overlap; every rectangle ends above the
/// packed height, and every rectangle no wider than the packing width ends
/// left of it.
pub proof fn lemma_pack_no_overlap(
    m_old: Map<int, Rect>,
    e: Seq<(int, Rect)>,
    m_new: Map<int, Rect>,
    width: u32,
    height: u32,
)
    requires
        is_enum(m_old, e),
        pack_spec_ok(m_old, e, m_new, width, height),
        e.len() <= usize::MAX,
    ensures
        forall|p: int, q: int|
            0 <= p < q < e.len() ==> spec_disjoint(
                m_new[(#[trigger] e[p]).0].x as int,
                m_new[e[p].0].y as int,
                m_new[e[p].0].w as int,
                m_new[e[p].0].h as int,
                m_new[(#[trigger] e[q]).0].x as int,
                m_new[e[q].0].y as int,
                m_new[e[q].0].w as int,
                m_new[e[q].0].h as int,
            ),
        forall|p: int|
            0 <= p < e.len() ==> m_new[(#[trigger] e[p]).0].y + m_new[e[p].0].h <= height,
        forall|p: int|
            0 <= p < e.len() && m_new[(#[trigger] e[p]).0].w <= width ==> m_new[e[p].0].x
                + m_new[e[p].0].w <= width,
{
    let d = dims_seq(e);
    let sorted = d.sort_by(dims_order());
    let n = e.len() as int;
    shelf::lemma_dims_order_total();
    d.lemma_sort_by_ensures(dims_order());
    lemma_dims_seq_pos(e);
    lemma_pos_perm(d);
    shelf::lemma_place_disjoint(sorted, width as int);
    shelf::lemma_place_inv(sorted, width as int, sorted.len() as int);
    let st = spec_place(sorted, width as int, sorted.len() as int);
    assert(height as int == spec_packed_height(sorted, width as int));
    assert forall|p: int| 0 <= p < e.len() implies m_new[(#[trigger] e[p]).0]
        == packed_rect(sorted, width as int, pos_slot(sorted, p)) && 0 <= pos_slot(sorted, p)
        < sorted.len() && sorted[pos_slot(sorted, p)].pos == p by {
        assert(has_pos(sorted, p));
        let k = pos_slot(sorted, p);
        assert(0 <= k < sorted.len() && sorted[k].pos == p);
        assert(m_new[e[sorted[k].pos as int].0] == packed_rect(sorted, width as int, k));
    }
    assert forall|p: int| 0 <= p < e.len() implies m_new[(#[trigger] e[p]).0].y + m_new[e[
        p
    ].0].h <= height by {
        assert(has_pos(sorted, p));
        let k = pos_slot(sorted, p);
        assert(0 <= k < sorted.len() && sorted[k].pos == p);
        assert(m_new[e[sorted[k].pos as int].0] == packed_rect(sorted, width as int, k));
        assert(st.placed[k].1 + sorted[k].h <= spec_packed_height(sorted, width as int));
        assert(0 <= st.placed[k].1);
    }
    assert forall|p: int|
        0 <= p < e.len() && m_new[(#[trigger] e[p]).0].w <= width implies m_new[e[p].0].x + m_new[
        e[p].0
    ].w <= width by {
        assert(has_pos(sorted, p));
        let k = pos_slot(sorted, p);
        assert(0 <= k < sorted.len() && sorted[k].pos == p);
        assert(m_new[e[sorted[k].pos as int].0] == packed_rect(sorted, width as int, k));
        assert(m_new[e[p].0].w == sorted[k].w);
        assert(sorted[k].w <= width);
        shelf::lemma_place_disjoint(sorted, width as int);
        assert(0 <= st.placed[k].0);
        assert(0 <= k < sorted.len() && sorted[k].w <= width as int ==> st.placed[k].0
            + sorted[k].w <= width as int);
        assert(st.placed[k].0 + sorted[k].w <= width as int);
    }
    assert forall|p: int, q: int| 0 <= p < q < e.len() implies spec_disjoint(
        m_new[(#[trigger] e[p]).0].x as int,
        m_new[e[p].0].y as int,
        m_new[e[p].0].w as int,
        m_new[e[p].0].h as int,
        m_new[(#[trigger] e[q]).0].x as int,
        m_new[e[q].0].y as int,
        m_new[e[q].0].w as int,
        m_new[e[q].0].h as int,
    ) by {
        assert(has_pos(sorted, p));
        assert(has_pos(sorted, q));
        let k1 = pos_slot(sorted, p);
        let k2 = pos_slot(sorted, q);
        assert(0 <= k1 < sorted.len() && sorted[k1].pos == p);
        assert(0 <= k2 < sorted.len() && sorted[k2].pos == q);
        assert(m_new[e[sorted[k1].pos as int].0] == packed_rect(sorted, width as int, k1));
        assert(m_new[e[sorted[k2].pos as int].0] == packed_rect(sorted, width as int, k2));
        assert(k1 != k2);
        assert(st.placed[k1].0 <= u32::MAX as int) by {
            assert(st.placed[k1].0 == 0 || st.placed[k1].0 + sorted[k1].w < width as int);
        }
        assert(st.placed[k2].0 <= u32::MAX as int) by {
            assert(st.placed[k2].0 == 0 || st.placed[k2].0 + sorted[k2].w < width as int);
        }
        assert(st.placed[k1].1 <= u32::MAX as int);
        assert(st.placed[k2].1 <= u32::MAX as int);
        assert(0 <= st.placed[k1].0 && 0 <= st.placed[k1].1);
        assert(0 <= st.placed[k2].0 && 0 <= st.placed[k2].1);
        assert(st.placed[k1].1 + sorted[k1].h <= spec_packed_height(sorted, width as int));
        assert(st.placed[k2].1 + sorted[k2].h <= spec_packed_height(sorted, width as int));
        if k1 < k2 {
            assert(spec_disjoint(
                st.placed[k1].0,
                st.placed[k1].1,
                sorted[k1].w as int,
                sorted[k1].h as int,
                st.placed[k2].0,
                st.placed[k2].1,
                sorted[k2].w as int,
                sorted[k2].h as int,
            ));
        } else {
            assert(spec_disjoint(
                st.placed[k2].0,
                st.placed[k2].1,
                sorted[k2].w as int,
                sorted[k2].h as int,
                st.placed[k1].0,
                st.placed[k1].1,
                sorted[k1].w as int,
                sorted[k1].h as int,
            ));
        }
    }
}

/// The sorted slot that carries registration position `p`.
pub open spec fn pos_slot(sorted: Seq<Dims>, p: int) -> int {
    choose|k: int| 0 <= k < sorted.len() && (#[trigger] sorted[k]).pos == p
}

/// The enumeration of the packed atlas: the same keys, with the rectangles
/// the pack assigned.
pub open spec fn spec_packed_enum(e: Seq<(int, Rect)>, m_new: Map<int, Rect>) -> Seq<(int, Rect)> {
    Seq::new(e.len(), |p: int| (e[p].0, m_new[e[p].0]))
}

/// Packing twice with no intervening `add` yields identical placements:
/// the packed atlas enumerates to the same dimensions, so a second pack
/// chooses the same width and height and assigns every rectangle the same
/// position.
pub proof fn lemma_pack_idempotent(
    m_old: Map<int, Rect>,
    e: Seq<(int, Rect)>,
    m1: Map<int, Rect>,
    width: u32,
    height: u32,
)
    requires
        is_enum(m_old, e),
        pack_spec_ok(m_old, e, m1, width, height),
        e.len() <= usize::MAX,
    ensures
        is_enum(m1, spec_packed_enum(e, m1)),
        dims_seq(spec_packed_enum(e, m1)) == dims_seq(e),
        forall|m2: Map<int, Rect>, w2: u32, h2: u32|
            #[trigger] pack_spec_ok(m1, spec_packed_enum(e, m1), m2, w2, h2) ==> w2 == width && h2
                == height && m2 =~= m1,
{
    let d = dims_seq(e);
    let sorted = d.sort_by(dims_order());
    shelf::lemma_dims_order_total();
    d.lemma_sort_by_ensures(dims_order());
    lemma_dims_seq_pos(e);
    lemma_pos_perm(d);
    let e1 = spec_packed_enum(e, m1);
    assert(is_enum(m1, e1)) by {
        assert forall|k: int| #[trigger] m1.dom().contains(k) implies exists|p: int|
            0 <= p < e1.len() && (#[trigger] e1[p]).0 == k by {
            assert(m_old.dom().contains(k));
            let p = choose|p: int| 0 <= p < e.len() && (#[trigger] e[p]).0 == k;
            assert(e1[p].0 == k);
        }
    }
    assert(dims_seq(e1) =~= dims_seq(e)) by {
        assert forall|p: int| 0 <= p < e.len() implies (#[trigger] dims_seq(e1)[p]) == dims_seq(
            e,
        )[p] by {
            assert(has_pos(sorted, p));
            let k = pos_slot(sorted, p);
            assert(0 <= k < sorted.len() && sorted[k].pos == p);
            assert(m1[e[sorted[k].pos as int].0] == packed_rect(sorted, width as int, k));
            assert(sorted[k] == d[p]);
        }
    }
    assert forall|m2: Map<int, Rect>, w2: u32, h2: u32| #[trigger]
        pack_spec_ok(m1, e1, m2, w2, h2) implies w2 == width && h2 == height && m2 =~= m1 by {
        assert forall|p: int|
            0 <= p < e1.len() implies (#[trigger] e1[p]).1.w == e[p].1.w && e1[p].1.h
            == e[p].1.h by {
            assert(dims_seq(e1)[p] == dims_seq(e)[p]);
            assert(dims_seq(e1)[p] == Dims { pos: p as usize, w: e1[p].1.w, h: e1[p].1.h });
            assert(dims_seq(e)[p] == Dims { pos: p as usize, w: e[p].1.w, h: e[p].1.h });
        }
        lemma_area_congruent(e1, e, e1.len() as int);
        assert(spec_atlas_width(e1) == spec_atlas_width(e));
        assert(dims_seq(e1).sort_by(dims_order()) == sorted);
        assert(w2 == width);
        assert(h2 == height);
        assert(m2 =~= m1) by {
            assert(m2.dom() == m1.dom());
            assert forall|key: int| #[trigger] m1.dom().contains(key) implies m2[key] == m1[
                key
            ] by {
                let p = choose|p: int| 0 <= p < e.len() && (#[trigger] e[p]).0 == key;
                assert(has_pos(sorted, p));
                let k = pos_slot(sorted, p);
                assert(0 <= k < sorted.len() && sorted[k].pos == p);
                assert(m2[e1[sorted[k].pos as int].0] == packed_rect(sorted, width as int, k));
                assert(m1[e[sorted[k].pos as int].0] == packed_rect(sorted, width as int, k));
                assert(e1[p].0 == key);
            }
        }
    }
}

} // verus!
