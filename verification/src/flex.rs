//! The flex container: distributes main-axis space between an ordered list
//! of children, each tagged fixed or flexible.
//!
//! The sizing algorithm follows the box-constraint model: fixed children
//! keep their measured extent; flexible children share the remaining
//! main-axis space in proportion to their weights, after the minimums they
//! declare are reserved and a single forward pass has returned the excess of
//! children whose declared maximum is smaller than their share. The single
//! forward pass is deliberate: it under-handles cascading excess when
//! several maximum-bounded children interact.

use vstd::prelude::*;

use crate::error::UiError;
use crate::scalar;
use crate::scalar::{sat_add, sat_sub};
use crate::widgets::{BoxConstraints, Size};

verus! {

/// The direction a flex run distributes space along.
#[derive(Clone, Copy, Debug, PartialEq, Eq, Structural)]
pub enum Axis {
    Horizontal,
    Vertical,
}

/// How children are positioned along the main axis.
///
/// `Center`, `SpaceBetween` and `SpaceAround` currently share one centering
/// strategy; they are kept as distinct names for compatibility.
#[derive(Clone, Copy, Debug, PartialEq, Eq, Structural)]
pub enum AxisAlignment {
    Center,
    SpaceBetween,
    SpaceAround,
    Start,
    End,
}

/// Cross-axis alignment choices. Declared for completeness; the layout pass
/// always sizes the cross axis to the largest child.
#[derive(Clone, Copy, Debug, PartialEq, Eq, Structural)]
pub enum CrossAxisAlignment {
    Start,
    End,
    Center,
    Stretch,
}

/// Whether the run spans the whole available main axis or shrinks to its
/// children.
#[derive(Clone, Copy, Debug, PartialEq, Eq, Structural)]
pub enum AxisExtent {
    Min,
    Max,
}

} // verus!

verus! {

/// How one child of a flex run takes part in the distribution: either fixed
/// (it keeps its measured extent) or flexible with a weight.
#[derive(Clone, Copy, Debug, PartialEq, Eq, Structural)]
pub struct ChildKind {
    pub fixed: bool,
    pub weight: u32,
}

/// The per-layout memo a flex run hands from its measure pass to its paint
/// pass: each child's main-axis extent and main-axis offset.
pub struct ChildCache {
    pub size_map: Vec<i64>,
    pub offset_map: Vec<i64>,
}

/// Sum of the measured main-axis extents of the fixed children among the
/// first `n`, accumulated with saturating addition.
pub open spec fn spec_fixed_sum(kinds: Seq<ChildKind>, sizes: Seq<Size>, axis: Axis, n: int) -> int
    decreases n,
{
    if 0 < n <= kinds.len() && n <= sizes.len() {
        let acc = spec_fixed_sum(kinds, sizes, axis, n - 1);
        if kinds[n - 1].fixed {
            sat_add(acc, sizes[n - 1].spec_on_axis(axis))
        } else {
            acc
        }
    } else {
        0
    }
}

/// The space left after reserving, out of `acc0`, the positive declared
/// minimum of every flexible child among the first `n`.
pub open spec fn spec_after_mins(
    kinds: Seq<ChildKind>,
    cons: Seq<Option<BoxConstraints>>,
    axis: Axis,
    acc0: int,
    n: int,
) -> int
    decreases n,
{
    if 0 < n <= kinds.len() && n <= cons.len() {
        let acc = spec_after_mins(kinds, cons, axis, acc0, n - 1);
        if !kinds[n - 1].fixed && (cons[n - 1] matches Some(cc) && cc.spec_min_on_axis(axis) > 0) {
            sat_sub(acc, cons[n - 1]->0.spec_min_on_axis(axis))
        } else {
            acc
        }
    } else {
        acc0
    }
}

/// Sum of the weights of the flexible children among the first `n`.
pub open spec fn spec_flex_sum(kinds: Seq<ChildKind>, n: int) -> int
    decreases n,
{
    if 0 < n <= kinds.len() {
        let acc = spec_flex_sum(kinds, n - 1);
        if kinds[n - 1].fixed {
            acc
        } else {
            acc + kinds[n - 1].weight
        }
    } else {
        0
    }
}

/// A flexible child's proportional share of `r`: `w/s * r`, zero when no
/// weight was declared anywhere.
pub open spec fn spec_share(w: int, r: int, s: int) -> int {
    if s <= 0 {
        0
    } else {
        w * r / s
    }
}

/// The declared main-axis minimum of a child, zero when it declares no
/// constraints.
pub open spec fn spec_decl_min(cons: Option<BoxConstraints>, axis: Axis) -> int {
    match cons {
        Some(cc) => cc.spec_min_on_axis(axis),
        None => 0,
    }
}

/// Sum of the measured main-axis extents of the fixed children.
fn fixed_sum(kinds: &Vec<ChildKind>, sizes: &Vec<Size>, axis: Axis) -> (r: i64)
    requires
        kinds@.len() == sizes@.len(),
    ensures
        r == spec_fixed_sum(kinds@, sizes@, axis, kinds@.len() as int),
{
    let mut acc: i64 = 0;
    let mut i: usize = 0;
    while i < kinds.len()
        invariant
            kinds@.len() == sizes@.len(),
            i <= kinds@.len(),
            acc == spec_fixed_sum(kinds@, sizes@, axis, i as int),
        decreases kinds@.len() - i,
    {
        if kinds[i].fixed {
            acc = scalar::adds(acc, sizes[i].on_axis(axis));
        }
        i = i + 1;
    }
    acc
}

/// Reserve every flexible child's positive declared minimum out of `acc0`.
fn after_mins(
    kinds: &Vec<ChildKind>,
    cons: &Vec<Option<BoxConstraints>>,
    axis: Axis,
    acc0: i64,
) -> (r: i64)
    requires
        kinds@.len() == cons@.len(),
    ensures
        r == spec_after_mins(kinds@, cons@, axis, acc0 as int, kinds@.len() as int),
{
    let mut acc: i64 = acc0;
    let mut i: usize = 0;
    while i < kinds.len()
        invariant
            kinds@.len() == cons@.len(),
            i <= kinds@.len(),
            acc == spec_after_mins(kinds@, cons@, axis, acc0 as int, i as int),
        decreases kinds@.len() - i,
    {
        if !kinds[i].fixed {
            match &cons[i] {
                Some(cc) => {
                    if cc.bound_min(axis) {
                        acc = scalar::subs(acc, cc.min_on_axis(axis));
                    }
                },
                None => {},
            }
        }
        i = i + 1;
    }
    acc
}

/// Sum of the weights of the flexible children, exactly (no saturation).
fn flex_sum(kinds: &Vec<ChildKind>) -> (r: u128)
    ensures
        r == spec_flex_sum(kinds@, kinds@.len() as int),
{
    let mut acc: u128 = 0;
    let mut i: usize = 0;
    while i < kinds.len()
        invariant
            i <= kinds@.len(),
            acc == spec_flex_sum(kinds@, i as int),
            acc <= i * 0xffff_ffff,
        decreases kinds@.len() - i,
    {
        if !kinds[i].fixed {
            proof {
                assert(acc + kinds@[i as int].weight <= (i + 1) * 0xffff_ffff) by (nonlinear_arith)
                    requires
                        acc <= i * 0xffff_ffff,
                        kinds@[i as int].weight <= 0xffff_ffff,
                ;
                assert((i + 1) * 0xffff_ffff <= 0x1_0000_0000_0000_0000 * 0xffff_ffff)
                    by (nonlinear_arith)
                    requires
                        i + 1 <= 0x1_0000_0000_0000_0000,
                ;
                assert(acc + kinds@[i as int].weight <= u128::MAX);
            }
            acc = acc + kinds[i].weight as u128;
        }
        i = i + 1;
    }
    acc
}

/// `w/s * r`, the proportional share, computed exactly in wide arithmetic.
fn share_of(w: u32, r: i64, s: u128) -> (res: i64)
    requires
        0 <= r,
        w as int <= s,
    ensures
        res == spec_share(w as int, r as int, s as int),
{
    if s == 0 {
        0
    } else {
        proof {
            assert((w as int) * (r as int) <= 0xffff_ffff * 0x7fff_ffff_ffff_ffff)
                by (nonlinear_arith)
                requires
                    0 <= w <= 0xffff_ffff,
                    0 <= r <= 0x7fff_ffff_ffff_ffff,
            ;
        }
        let wide: u128 = (w as u128) * (r as u128) / s;
        proof {
            lemma_share_le(w as int, r as int, s as int);
        }
        wide as i64
    }
}

/// A proportional share never exceeds the space it is taken from.
proof fn lemma_share_le(w: int, r: int, s: int)
    requires
        0 <= w <= s,
        0 <= r,
        0 < s,
    ensures
        0 <= w * r / s <= r,
{
    assert(w * r <= s * r) by (nonlinear_arith)
        requires
            0 <= w <= s,
            0 <= r,
    ;
    assert(0 <= w * r) by (nonlinear_arith)
        requires
            0 <= w,
            0 <= r,
    ;
    assert(s * r / s == r) by (nonlinear_arith)
        requires
            0 < s,
    ;
    assert(w * r / s <= s * r / s) by (nonlinear_arith)
        requires
            0 <= w * r <= s * r,
            0 < s,
    ;
    assert(0 <= w * r / s) by (nonlinear_arith)
        requires
            0 <= w * r,
            0 < s,
    ;
}

} // verus!

verus! {

use vstd::relations::sorted_by;
use vstd::relations::total_ordering;

/// A flexible child with a finite declared maximum, as the relaxation pass
/// sees it: its position in the child list, its weight, and its declared
/// maximum and minimum on the main axis.
#[derive(Clone, Copy, Debug, PartialEq, Eq, Structural)]
pub struct MaxChild {
    pub pos: usize,
    pub weight: u32,
    pub maxv: i64,
    pub minv: i64,
}

/// The total order the relaxation pass sorts by: ascending declared
/// maximum, ties broken by position (which keeps the sort stable), then by
/// the remaining fields to make the order total on all values.
pub open spec fn max_child_leq(a: MaxChild, b: MaxChild) -> bool {
    if a.maxv != b.maxv {
        a.maxv < b.maxv
    } else if a.pos != b.pos {
        a.pos < b.pos
    } else if a.weight != b.weight {
        a.weight < b.weight
    } else {
        a.minv <= b.minv
    }
}

/// The order above as a first-class function, for `sort_by`.
pub open spec fn max_child_order() -> spec_fn(MaxChild, MaxChild) -> bool {
    |a: MaxChild, b: MaxChild| max_child_leq(a, b)
}

/// `max_child_leq` is a total ordering.
pub proof fn lemma_max_child_order_total()
    ensures
        total_ordering(max_child_order()),
{
}

/// The flexible children with a finite declared maximum among the first
/// `n`, in child order.
pub open spec fn spec_max_children(
    kinds: Seq<ChildKind>,
    cons: Seq<Option<BoxConstraints>>,
    axis: Axis,
    n: int,
) -> Seq<MaxChild>
    decreases n,
{
    if 0 < n <= kinds.len() && n <= cons.len() {
        let prev = spec_max_children(kinds, cons, axis, n - 1);
        if !kinds[n - 1].fixed && (cons[n - 1] matches Some(cc) && scalar::spec_is_finite(
            cc.spec_max_on_axis(axis),
        )) {
            prev.push(
                MaxChild {
                    pos: (n - 1) as usize,
                    weight: kinds[n - 1].weight,
                    maxv: cons[n - 1]->0.spec_max_on_axis(axis) as i64,
                    minv: cons[n - 1]->0.spec_min_on_axis(axis) as i64,
                },
            )
        } else {
            prev
        }
    } else {
        Seq::empty()
    }
}

/// Collect the flexible children with a finite declared maximum.
fn max_children(
    kinds: &Vec<ChildKind>,
    cons: &Vec<Option<BoxConstraints>>,
    axis: Axis,
) -> (r: Vec<MaxChild>)
    requires
        kinds@.len() == cons@.len(),
    ensures
        r@ == spec_max_children(kinds@, cons@, axis, kinds@.len() as int),
{
    let mut r: Vec<MaxChild> = Vec::new();
    let mut i: usize = 0;
    while i < kinds.len()
        invariant
            kinds@.len() == cons@.len(),
            i <= kinds@.len(),
            r@ == spec_max_children(kinds@, cons@, axis, i as int),
        decreases kinds@.len() - i,
    {
        if !kinds[i].fixed {
            match &cons[i] {
                Some(cc) => {
                    if cc.bound_max(axis) {
                        r.push(
                            MaxChild {
                                pos: i,
                                weight: kinds[i].weight,
                                maxv: cc.max_on_axis(axis),
                                minv: cc.min_on_axis(axis),
                            },
                        );
                    }
                },
                None => {},
            }
        }
        i = i + 1;
    }
    r
}

/// Whether `a` precedes `b` in the relaxation order.
fn max_child_le_exec(a: &MaxChild, b: &MaxChild) -> (r: bool)
    ensures
        r == max_child_leq(*a, *b),
{
    if a.maxv != b.maxv {
        a.maxv < b.maxv
    } else if a.pos != b.pos {
        a.pos < b.pos
    } else if a.weight != b.weight {
        a.weight < b.weight
    } else {
        a.minv <= b.minv
    }
}

/// Sort the relaxation candidates by ascending declared maximum (stable,
/// since ties are broken by position).
fn sort_max_children(v: Vec<MaxChild>) -> (r: Vec<MaxChild>)
    ensures
        r@ == v@.sort_by(max_child_order()),
        r@.len() == v@.len(),
        r@.to_multiset() == v@.to_multiset(),
        sorted_by(r@, max_child_order()),
{
    let mut r: Vec<MaxChild> = Vec::new();
    proof {
        broadcast use vstd::seq_lib::group_to_multiset_ensures;

        assert(r@ =~= v@.take(0int));
        assert(r@.to_multiset() =~= v@.take(0int).to_multiset());
    }
    let mut i: usize = 0;
    while i < v.len()
        invariant
            i <= v@.len(),
            sorted_by(r@, max_child_order()),
            r@.to_multiset() == v@.take(i as int).to_multiset(),
        decreases v@.len() - i,
    {
        let x: MaxChild = v[i];
        let mut j: usize = 0;
        while j < r.len() && max_child_le_exec(&r[j], &x)
            invariant
                j <= r@.len(),
                forall|k: int| 0 <= k < j ==> max_child_leq(r@[k], x),
            decreases r@.len() - j,
        {
            j = j + 1;
        }
        proof {
            lemma_max_child_order_total();
            crate::shelf::lemma_sorted_insert(r@, j as int, x, max_child_order());
            crate::shelf::lemma_take_push_to_multiset(v@, i as int);
        }
        r.insert(j, x);
        i = i + 1;
    }
    proof {
        assert(v@.take(v@.len() as int) =~= v@);
        lemma_max_child_order_total();
        crate::shelf::lemma_sorted_is_sort_by(r@, v@, max_child_order());
    }
    r
}

} // verus!

verus! {

/// The remaining shared space after the single forward relaxation pass over
/// the first `n` sorted maximum-bounded children: each child whose
/// proportional share (plus its reserved minimum) exceeds its declared
/// maximum returns the excess to the pool.
pub open spec fn spec_relax(sorted: Seq<MaxChild>, s: int, r0: int, n: int) -> int
    decreases n,
{
    if 0 < n <= sorted.len() {
        let acc = spec_relax(sorted, s, r0, n - 1);
        let space = sat_add(
            spec_share(sorted[n - 1].weight as int, acc, s),
            sorted[n - 1].minv as int,
        );
        if space > sorted[n - 1].maxv as int {
            sat_add(acc, space - sorted[n - 1].maxv as int)
        } else {
            acc
        }
    } else {
        r0
    }
}

/// Run the single forward relaxation pass.
fn relax(sorted: &Vec<MaxChild>, s: u128, r0: i64) -> (r: i64)
    requires
        0 < r0,
        forall|k: int|
            0 <= k < sorted@.len() ==> 0 <= #[trigger] sorted@[k].minv && 0 <= sorted@[k].maxv
                && sorted@[k].weight as int <= s,
    ensures
        r == spec_relax(sorted@, s as int, r0 as int, sorted@.len() as int),
        r0 <= r,
{
    let mut acc: i64 = r0;
    let mut i: usize = 0;
    while i < sorted.len()
        invariant
            i <= sorted@.len(),
            acc == spec_relax(sorted@, s as int, r0 as int, i as int),
            r0 <= acc,
            0 < r0,
            forall|k: int|
                0 <= k < sorted@.len() ==> 0 <= #[trigger] sorted@[k].minv && 0 <= sorted@[k].maxv
                    && sorted@[k].weight as int <= s,
        decreases sorted@.len() - i,
    {
        let e: MaxChild = sorted[i];
        proof {
            assert(0 <= sorted@[i as int].minv);
        }
        let share: i64 = share_of(e.weight, acc, s);
        let space: i64 = scalar::adds(share, e.minv);
        if space > e.maxv {
            acc = scalar::adds(acc, space - e.maxv);
        }
        i = i + 1;
    }
    acc
}

/// Every flexible child's weight is bounded by the weight sum, which is
/// non-negative.
pub proof fn lemma_flex_sum_bounds(kinds: Seq<ChildKind>, n: int)
    requires
        n <= kinds.len(),
    ensures
        0 <= spec_flex_sum(kinds, n),
        forall|i: int|
            0 <= i < n && !(#[trigger] kinds[i]).fixed ==> kinds[i].weight as int <= spec_flex_sum(
                kinds,
                n,
            ),
    decreases n,
{
    if 0 < n {
        lemma_flex_sum_bounds(kinds, n - 1);
    }
}

/// The extent assigned to each child: fixed children keep their measured
/// main-axis extent; flexible children get their proportional share of the
/// relaxed remaining space plus their declared minimum.
pub open spec fn spec_extents(
    kinds: Seq<ChildKind>,
    sizes: Seq<Size>,
    cons: Seq<Option<BoxConstraints>>,
    axis: Axis,
    r1: int,
    s: int,
) -> Seq<i64> {
    Seq::new(
        kinds.len(),
        |i: int|
            if kinds[i].fixed {
                sizes[i].spec_on_axis(axis) as i64
            } else {
                sat_add(spec_share(kinds[i].weight as int, r1, s), spec_decl_min(cons[i], axis)) as i64
            },
    )
}

/// Compute the per-child extents.
fn extents(
    kinds: &Vec<ChildKind>,
    sizes: &Vec<Size>,
    cons: &Vec<Option<BoxConstraints>>,
    axis: Axis,
    r1: i64,
    s: u128,
) -> (r: Vec<i64>)
    requires
        kinds@.len() == sizes@.len() == cons@.len(),
        0 <= r1,
        spec_flex_sum(kinds@, kinds@.len() as int) == s,
    ensures
        r@ == spec_extents(kinds@, sizes@, cons@, axis, r1 as int, s as int),
{
    let ghost target = spec_extents(kinds@, sizes@, cons@, axis, r1 as int, s as int);
    let mut r: Vec<i64> = Vec::new();
    let mut i: usize = 0;
    while i < kinds.len()
        invariant
            kinds@.len() == sizes@.len() == cons@.len(),
            i <= kinds@.len(),
            0 <= r1,
            spec_flex_sum(kinds@, kinds@.len() as int) == s,
            target == spec_extents(kinds@, sizes@, cons@, axis, r1 as int, s as int),
            r@ =~= target.take(i as int),
        decreases kinds@.len() - i,
    {
        if kinds[i].fixed {
            r.push(sizes[i].on_axis(axis));
        } else {
            proof {
                lemma_flex_sum_bounds(kinds@, kinds@.len() as int);
            }
            let share: i64 = share_of(kinds[i].weight, r1, s);
            let dmin: i64 = match &cons[i] {
                Some(cc) => cc.min_on_axis(axis),
                None => 0,
            };
            r.push(scalar::adds(share, dmin));
        }
        proof {
            assert(r@ =~= target.take(i + 1));
        }
        i = i + 1;
    }
    proof {
        assert(r@ =~= target);
    }
    r
}

/// The saturating sum of the first `n` extents.
pub open spec fn spec_prefix_sum(ext: Seq<i64>, n: int) -> int
    decreases n,
{
    if 0 < n <= ext.len() {
        sat_add(spec_prefix_sum(ext, n - 1), ext[n - 1] as int)
    } else {
        0
    }
}

/// Prefix sums of non-negative extents are non-negative.
pub proof fn lemma_prefix_sum_nonneg(ext: Seq<i64>, n: int)
    requires
        forall|i: int| 0 <= i < ext.len() ==> 0 <= #[trigger] ext[i],
    ensures
        0 <= spec_prefix_sum(ext, n),
    decreases n,
{
    if 0 < n <= ext.len() {
        lemma_prefix_sum_nonneg(ext, n - 1);
    }
}

/// The saturating sum of the first `n` extents, executable.
fn prefix_sum(ext: &Vec<i64>, n: usize) -> (r: i64)
    requires
        n <= ext@.len(),
    ensures
        r == spec_prefix_sum(ext@, n as int),
{
    let mut acc: i64 = 0;
    let mut i: usize = 0;
    while i < n
        invariant
            i <= n <= ext@.len(),
            acc == spec_prefix_sum(ext@, i as int),
        decreases n - i,
    {
        acc = scalar::adds(acc, ext[i]);
        i = i + 1;
    }
    acc
}

/// Half of a non-negative scalar, rounding down.
fn half(x: i64) -> (r: i64)
    requires
        0 <= x,
    ensures
        r == x as int / 2,
{
    ((x as u64) / 2) as i64
}

/// The main-axis offsets of the children under the chosen alignment.
///
/// `Start` lays children one after another (prefix sums of the extents).
/// The centering strategy (shared by `Center`, `SpaceBetween` and
/// `SpaceAround`) and `End` shift each child's cache entry by a constant
/// delta: the distance that centers the group in the span, or that moves its
/// total extent to the span's end; under `AxisExtent::Min` they leave the
/// extents unshifted.
pub open spec fn spec_offsets(
    ext: Seq<i64>,
    alignment: AxisAlignment,
    extent_mode: AxisExtent,
    max_span: int,
) -> Seq<i64> {
    match alignment {
        AxisAlignment::Start => Seq::new(ext.len(), |i: int| spec_prefix_sum(ext, i) as i64),
        AxisAlignment::End => match extent_mode {
            AxisExtent::Min => ext,
            AxisExtent::Max => {
                let delta = sat_sub(max_span, spec_prefix_sum(ext, ext.len() as int));
                Seq::new(ext.len(), |i: int| sat_add(ext[i] as int, delta) as i64)
            },
        },
        _ => match extent_mode {
            AxisExtent::Min => ext,
            AxisExtent::Max => {
                let delta = sat_sub(
                    max_span / 2,
                    spec_prefix_sum(ext, ext.len() as int) / 2,
                );
                Seq::new(ext.len(), |i: int| sat_add(ext[i] as int, delta) as i64)
            },
        },
    }
}

/// Shift every extent by `delta`.
fn shifted_extents(ext: &Vec<i64>, delta: i64) -> (r: Vec<i64>)
    ensures
        r@ =~= Seq::new(ext@.len(), |i: int| sat_add(ext@[i] as int, delta as int) as i64),
{
    let ghost target = Seq::new(ext@.len(), |i: int| sat_add(ext@[i] as int, delta as int) as i64);
    let mut r: Vec<i64> = Vec::new();
    let mut i: usize = 0;
    while i < ext.len()
        invariant
            i <= ext@.len(),
            target == Seq::new(ext@.len(), |k: int| sat_add(ext@[k] as int, delta as int) as i64),
            r@ =~= target.take(i as int),
        decreases ext@.len() - i,
    {
        r.push(scalar::adds(ext[i], delta));
        proof {
            assert(r@ =~= target.take(i + 1));
        }
        i = i + 1;
    }
    proof {
        assert(r@ =~= target);
    }
    r
}

/// Compute the main-axis offsets.
fn offsets(
    ext: &Vec<i64>,
    alignment: AxisAlignment,
    extent_mode: AxisExtent,
    max_span: i64,
) -> (r: Vec<i64>)
    requires
        0 <= max_span,
        forall|i: int| 0 <= i < ext@.len() ==> 0 <= #[trigger] ext@[i],
    ensures
        r@ == spec_offsets(ext@, alignment, extent_mode, max_span as int),
{
    match alignment {
        AxisAlignment::Start => {
            let ghost target = spec_offsets(ext@, alignment, extent_mode, max_span as int);
            let mut r: Vec<i64> = Vec::new();
            let mut acc: i64 = 0;
            let mut i: usize = 0;
            while i < ext.len()
                invariant
                    i <= ext@.len(),
                    acc == spec_prefix_sum(ext@, i as int),
                    target == spec_offsets(ext@, AxisAlignment::Start, extent_mode, max_span as int),
                    r@ =~= target.take(i as int),
                decreases ext@.len() - i,
            {
                r.push(acc);
                proof {
                    assert(r@ =~= target.take(i + 1));
                }
                acc = scalar::adds(acc, ext[i]);
                i = i + 1;
            }
            proof {
                assert(r@ =~= target);
            }
            r
        },
        AxisAlignment::End => {
            match extent_mode {
                AxisExtent::Min => {
                    let r = ext.clone();
                    proof {
                        assert(r@ =~= ext@);
                    }
                    r
                },
                AxisExtent::Max => {
                    let total: i64 = prefix_sum(ext, ext.len());
                    let delta: i64 = scalar::subs(max_span, total);
                    shifted_extents(ext, delta)
                },
            }
        },
        _ => {
            match extent_mode {
                AxisExtent::Min => {
                    let r = ext.clone();
                    proof {
                        assert(r@ =~= ext@);
                    }
                    r
                },
                AxisExtent::Max => {
                    let total: i64 = prefix_sum(ext, ext.len());
                    proof {
                        lemma_prefix_sum_nonneg(ext@, ext@.len() as int);
                    }
                    let delta: i64 = scalar::subs(half(max_span), half(total));
                    shifted_extents(ext, delta)
                },
            }
        },
    }
}

/// The perpendicular axis.
pub open spec fn spec_cross_of(axis: Axis) -> Axis {
    match axis {
        Axis::Horizontal => Axis::Vertical,
        Axis::Vertical => Axis::Horizontal,
    }
}

/// The largest cross-axis extent among the first `n` measured child sizes.
pub open spec fn spec_cross_max(sizes: Seq<Size>, axis: Axis, n: int) -> int
    decreases n,
{
    if 0 < n <= sizes.len() {
        let prev = spec_cross_max(sizes, axis, n - 1);
        let cur = sizes[n - 1].spec_on_axis(spec_cross_of(axis));
        if prev >= cur {
            prev
        } else {
            cur
        }
    } else {
        0
    }
}

/// The largest cross-axis extent among the measured child sizes.
fn cross_max(sizes: &Vec<Size>, axis: Axis) -> (r: i64)
    ensures
        r == spec_cross_max(sizes@, axis, sizes@.len() as int),
{
    let cross: Axis = match axis {
        Axis::Horizontal => Axis::Vertical,
        Axis::Vertical => Axis::Horizontal,
    };
    let mut acc: i64 = 0;
    let mut i: usize = 0;
    while i < sizes.len()
        invariant
            i <= sizes@.len(),
            cross == spec_cross_of(axis),
            acc == spec_cross_max(sizes@, axis, i as int),
        decreases sizes@.len() - i,
    {
        acc = scalar::max(acc, sizes[i].on_axis(cross));
        i = i + 1;
    }
    acc
}

} // verus!

verus! {

/// The result of resolving one flex run: the run's own size, and each
/// child's main-axis extent and offset.
pub struct FlexModel {
    pub size: Size,
    pub extents: Seq<i64>,
    pub offsets: Seq<i64>,
}

/// Resolve a flex run, given each child's kind, measured size and declared
/// constraints: reserve declared minimums, fail when no space remains,
/// relax maximum-bounded children in one forward pass, assign proportional
/// extents, and position the children under the alignment strategy. The
/// run's size is the saturating sum of the extents on the main axis and the
/// largest measured child extent on the cross axis.
pub open spec fn spec_flex_resolve(
    kinds: Seq<ChildKind>,
    sizes: Seq<Size>,
    cons: Seq<Option<BoxConstraints>>,
    c: BoxConstraints,
    axis: Axis,
    alignment: AxisAlignment,
    extent_mode: AxisExtent,
) -> Result<FlexModel, UiError> {
    let n = kinds.len() as int;
    let available = sat_sub(c.spec_max_on_axis(axis), spec_fixed_sum(kinds, sizes, axis, n));
    let r0 = spec_after_mins(kinds, cons, axis, available, n);
    if r0 <= 0 {
        Err(UiError::InsufficientSpace)
    } else {
        let s = spec_flex_sum(kinds, n);
        let sorted = spec_max_children(kinds, cons, axis, n).sort_by(max_child_order());
        let r1 = spec_relax(sorted, s, r0, sorted.len() as int);
        let ext = spec_extents(kinds, sizes, cons, axis, r1, s);
        let offs = spec_offsets(ext, alignment, extent_mode, c.spec_max_on_axis(axis));
        let main = spec_prefix_sum(ext, n);
        let cross = spec_cross_max(sizes, axis, n);
        let size = match axis {
            Axis::Horizontal => Size { width: main as i64, height: cross as i64 },
            Axis::Vertical => Size { width: cross as i64, height: main as i64 },
        };
        Ok(FlexModel { size, extents: ext, offsets: offs })
    }
}

/// The candidates the relaxation pass sees are well-formed: non-negative
/// declared bounds, and weights bounded by the weight sum.
proof fn lemma_max_children_wf(
    kinds: Seq<ChildKind>,
    cons: Seq<Option<BoxConstraints>>,
    axis: Axis,
    n: int,
)
    requires
        n <= kinds.len(),
        kinds.len() == cons.len(),
        forall|i: int|
            0 <= i < cons.len() ==> (#[trigger] cons[i] matches Some(cc) ==> cc.valid()),
    ensures
        forall|k: int|
            0 <= k < spec_max_children(kinds, cons, axis, n).len() ==> {
                let e = #[trigger] spec_max_children(kinds, cons, axis, n)[k];
                0 <= e.minv && 0 <= e.maxv && e.weight as int <= spec_flex_sum(kinds, n)
            },
    decreases n,
{
    lemma_flex_sum_bounds(kinds, n);
    if 0 < n {
        lemma_max_children_wf(kinds, cons, axis, n - 1);
        assert(spec_flex_sum(kinds, n - 1) <= spec_flex_sum(kinds, n));
        let prev = spec_max_children(kinds, cons, axis, n - 1);
        let cur = spec_max_children(kinds, cons, axis, n);
        assert forall|k: int| 0 <= k < cur.len() implies {
            let e = #[trigger] cur[k];
            0 <= e.minv && 0 <= e.maxv && e.weight as int <= spec_flex_sum(kinds, n)
        } by {
            if k < prev.len() {
                assert(cur[k] == prev[k]);
            } else {
                assert(cur.len() > prev.len());
                assert(cons[n - 1] matches Some(cc) ==> cc.valid());
                assert(cur[k] == cur.last());
            }
        }
    }
}

/// The extents are non-negative when the measured sizes and declared
/// constraints are valid and the relaxed space is non-negative.
proof fn lemma_extents_nonneg(
    kinds: Seq<ChildKind>,
    sizes: Seq<Size>,
    cons: Seq<Option<BoxConstraints>>,
    axis: Axis,
    r1: int,
    s: int,
)
    requires
        kinds.len() == sizes.len() == cons.len(),
        0 <= r1,
        forall|i: int| 0 <= i < sizes.len() ==> (#[trigger] sizes[i]).valid(),
        forall|i: int|
            0 <= i < cons.len() ==> (#[trigger] cons[i] matches Some(cc) ==> cc.valid()),
    ensures
        forall|i: int|
            0 <= i < spec_extents(kinds, sizes, cons, axis, r1, s).len() ==> 0 <= #[trigger] spec_extents(
                kinds,
                sizes,
                cons,
                axis,
                r1,
                s,
            )[i],
{
    let ext = spec_extents(kinds, sizes, cons, axis, r1, s);
    assert forall|i: int| 0 <= i < ext.len() implies 0 <= #[trigger] ext[i] by {
        if !kinds[i].fixed {
            assert(0 <= spec_share(kinds[i].weight as int, r1, s)) by {
                if s > 0 {
                    assert(0 <= kinds[i].weight * r1 / s) by (nonlinear_arith)
                        requires
                            0 <= kinds[i].weight,
                            0 <= r1,
                            0 < s,
                    ;
                }
            }
        }
    }
}

/// Resolve a flex run.
pub fn flex_resolve(
    kinds: &Vec<ChildKind>,
    sizes: &Vec<Size>,
    cons: &Vec<Option<BoxConstraints>>,
    c: &BoxConstraints,
    axis: Axis,
    alignment: AxisAlignment,
    extent_mode: AxisExtent,
) -> (r: Result<(Size, ChildCache), UiError>)
    requires
        kinds@.len() == sizes@.len() == cons@.len(),
        c.valid(),
        forall|i: int| 0 <= i < sizes@.len() ==> (#[trigger] sizes@[i]).valid(),
        forall|i: int|
            0 <= i < cons@.len() ==> (#[trigger] cons@[i] matches Some(cc) ==> cc.valid()),
    ensures
        ({
            let m = spec_flex_resolve(kinds@, sizes@, cons@, *c, axis, alignment, extent_mode);
            match r {
                Ok((size, cache)) => m matches Ok(fm) && fm.size == size && fm.extents
                    == cache.size_map@ && fm.offsets == cache.offset_map@,
                Err(e) => m == Err::<FlexModel, UiError>(e),
            }
        }),
{
    let n = kinds.len();
    let fs: i64 = fixed_sum(kinds, sizes, axis);
    let available: i64 = scalar::subs(c.max_on_axis(axis), fs);
    let r0: i64 = after_mins(kinds, cons, axis, available);
    if r0 <= 0 {
        return Err(UiError::InsufficientSpace);
    }
    let s: u128 = flex_sum(kinds);
    let mc: Vec<MaxChild> = max_children(kinds, cons, axis);
    let sorted: Vec<MaxChild> = sort_max_children(mc);
    proof {
        broadcast use vstd::seq_lib::group_to_multiset_ensures;

        lemma_max_children_wf(kinds@, cons@, axis, kinds@.len() as int);
        let base = spec_max_children(kinds@, cons@, axis, kinds@.len() as int);
        assert forall|k: int|
            0 <= k < sorted@.len() implies 0 <= #[trigger] sorted@[k].minv && 0 <= sorted@[k].maxv
            && sorted@[k].weight as int <= s by {
            assert(sorted@.contains(sorted@[k]));
            assert(sorted@.to_multiset().contains(sorted@[k]));
            assert(base.to_multiset().contains(sorted@[k]));
            assert(base.contains(sorted@[k]));
            let idx = choose|idx: int| 0 <= idx < base.len() && base[idx] == sorted@[k];
            assert(0 <= base[idx].minv);
        }
    }
    let r1: i64 = relax(&sorted, s, r0);
    let ext: Vec<i64> = extents(kinds, sizes, cons, axis, r1, s);
    proof {
        lemma_extents_nonneg(kinds@, sizes@, cons@, axis, r1 as int, s as int);
    }
    let offs: Vec<i64> = offsets(&ext, alignment, extent_mode, c.max_on_axis(axis));
    let main: i64 = prefix_sum(&ext, ext.len());
    let cross: i64 = cross_max(sizes, axis);
    let size: Size = match axis {
        Axis::Horizontal => Size { width: main, height: cross },
        Axis::Vertical => Size { width: cross, height: main },
    };
    Ok((size, ChildCache { size_map: ext, offset_map: offs }))
}

} // verus!

verus! {

/// The cross-axis maximum of valid sizes is a valid extent.
pub proof fn lemma_cross_max_nonneg(sizes: Seq<Size>, axis: Axis, n: int)
    requires
        forall|i: int| 0 <= i < sizes.len() ==> (#[trigger] sizes[i]).valid(),
    ensures
        0 <= spec_cross_max(sizes, axis, n) <= i64::MAX,
    decreases n,
{
    if 0 < n <= sizes.len() {
        lemma_cross_max_nonneg(sizes, axis, n - 1);
    }
}

/// A resolved flex run has a valid (non-negative) size.
pub proof fn lemma_flex_size_valid(
    kinds: Seq<ChildKind>,
    sizes: Seq<Size>,
    cons: Seq<Option<BoxConstraints>>,
    c: BoxConstraints,
    axis: Axis,
    alignment: AxisAlignment,
    extent_mode: AxisExtent,
)
    requires
        kinds.len() == sizes.len() == cons.len(),
        forall|i: int| 0 <= i < sizes.len() ==> (#[trigger] sizes[i]).valid(),
        forall|i: int|
            0 <= i < cons.len() ==> (#[trigger] cons[i] matches Some(cc) ==> cc.valid()),
    ensures
        spec_flex_resolve(kinds, sizes, cons, c, axis, alignment, extent_mode) matches Ok(fm)
            ==> fm.size.valid(),
{
    let n = kinds.len() as int;
    let available = sat_sub(c.spec_max_on_axis(axis), spec_fixed_sum(kinds, sizes, axis, n));
    let r0 = spec_after_mins(kinds, cons, axis, available, n);
    if r0 > 0 {
        let s = spec_flex_sum(kinds, n);
        let sorted = spec_max_children(kinds, cons, axis, n).sort_by(max_child_order());
        let r1 = spec_relax(sorted, s, r0, sorted.len() as int);
        lemma_after_mins_bound(kinds, cons, axis, available, n);
        lemma_relax_ge(sorted, s, r0, sorted.len() as int);
        lemma_extents_nonneg(kinds, sizes, cons, axis, r1, s);
        let ext = spec_extents(kinds, sizes, cons, axis, r1, s);
        lemma_prefix_sum_nonneg(ext, n);
        lemma_cross_max_nonneg(sizes, axis, n);
    }
}

/// Reserving minimums keeps the remaining space below the scalar maximum.
pub proof fn lemma_after_mins_bound(
    kinds: Seq<ChildKind>,
    cons: Seq<Option<BoxConstraints>>,
    axis: Axis,
    acc0: int,
    n: int,
)
    requires
        acc0 <= i64::MAX as int,
    ensures
        spec_after_mins(kinds, cons, axis, acc0, n) <= i64::MAX as int,
    decreases n,
{
    if 0 < n <= kinds.len() && n <= cons.len() {
        lemma_after_mins_bound(kinds, cons, axis, acc0, n - 1);
    }
}

/// The relaxation pass never shrinks the remaining space.
pub proof fn lemma_relax_ge(sorted: Seq<MaxChild>, s: int, r0: int, n: int)
    requires
        r0 <= i64::MAX as int,
    ensures
        r0 <= spec_relax(sorted, s, r0, n) <= i64::MAX as int,
    decreases n,
{
    if 0 < n <= sorted.len() {
        lemma_relax_ge(sorted, s, r0, n - 1);
    }
}

} // verus!

verus! {

use crate::widget::Widget;

/// One child of a flex run: a widget, tagged fixed or flexible.
pub enum Child {
    Flex { widget: Box<Widget>, flex: u32 },
    Fixed { widget: Box<Widget> },
}

impl Child {
    /// The wrapped widget.
    pub open spec fn spec_widget(self) -> Widget {
        match self {
            Child::Flex { widget, .. } => *widget,
            Child::Fixed { widget } => *widget,
        }
    }

    /// How this child takes part in the distribution.
    pub open spec fn spec_kind(self) -> ChildKind {
        match self {
            Child::Flex { flex, .. } => ChildKind { fixed: false, weight: flex },
            Child::Fixed { .. } => ChildKind { fixed: true, weight: 0 },
        }
    }

    /// The wrapped widget.
    pub fn widget(&self) -> (r: &Box<Widget>)
        ensures
            **r == self.spec_widget(),
    {
        match self {
            Child::Flex { widget, .. } => widget,
            Child::Fixed { widget } => widget,
        }
    }

    /// How this child takes part in the distribution.
    pub fn kind(&self) -> (r: ChildKind)
        ensures
            r == self.spec_kind(),
    {
        match self {
            Child::Flex { flex, .. } => ChildKind { fixed: false, weight: *flex },
            Child::Fixed { .. } => ChildKind { fixed: true, weight: 0 },
        }
    }

    /// Replace the wrapped widget, keeping the child's kind.
    pub fn set_widget(&mut self, widget: Box<Widget>)
        ensures
            final(self).spec_kind() == old(self).spec_kind(),
            final(self).spec_widget() == *widget,
    {
        match self {
            Child::Flex { widget: w, .. } => {
                *w = widget;
            },
            Child::Fixed { widget: w } => {
                *w = widget;
            },
        }
    }
}

/// An ordered run of children distributed along one axis.
pub struct Flex {
    pub axis: Axis,
    pub main_axis_alignment: AxisAlignment,
    pub main_axis_extent: AxisExtent,
    pub children: Vec<Child>,
}

impl Flex {
    /// A horizontal run with start alignment and maximal extent, no
    /// children.
    pub fn new() -> (r: Flex)
        ensures
            r.axis == Axis::Horizontal,
            r.main_axis_alignment == AxisAlignment::Start,
            r.main_axis_extent == AxisExtent::Max,
            r.children@.len() == 0,
    {
        Flex {
            axis: Axis::Horizontal,
            main_axis_alignment: AxisAlignment::Start,
            main_axis_extent: AxisExtent::Max,
            children: Vec::new(),
        }
    }

    /// Set the main axis.
    pub fn with_axis(self, axis: Axis) -> (r: Flex)
        ensures
            r == (Flex { axis, ..self }),
    {
        Flex { axis, ..self }
    }

    /// Set the main-axis alignment strategy.
    pub fn with_main_axis_alignment(self, alignment: AxisAlignment) -> (r: Flex)
        ensures
            r == (Flex { main_axis_alignment: alignment, ..self }),
    {
        Flex { main_axis_alignment: alignment, ..self }
    }

    /// Append a fixed child.
    pub fn with_fixed_child(self, widget: Box<Widget>) -> (r: Flex)
        ensures
            r.axis == self.axis && r.main_axis_alignment == self.main_axis_alignment
                && r.main_axis_extent == self.main_axis_extent,
            r.children@ == self.children@.push(Child::Fixed { widget }),
    {
        let mut children = self.children;
        children.push(Child::Fixed { widget });
        Flex { children, ..self }
    }

    /// Append a flexible child with the given weight.
    pub fn with_flex_child(self, widget: Box<Widget>, flex: u32) -> (r: Flex)
        ensures
            r.axis == self.axis && r.main_axis_alignment == self.main_axis_alignment
                && r.main_axis_extent == self.main_axis_extent,
            r.children@ == self.children@.push(Child::Flex { widget, flex }),
    {
        let mut children = self.children;
        children.push(Child::Flex { widget, flex });
        Flex { children, ..self }
    }

    /// Set whether the run spans the available main axis or shrinks.
    pub fn with_main_axis_extent(self, extent: AxisExtent) -> (r: Flex)
        ensures
            r == (Flex { main_axis_extent: extent, ..self }),
    {
        Flex { main_axis_extent: extent, ..self }
    }
}

} // verus!

verus! {

/// There is one offset per extent.
pub proof fn lemma_offsets_len(
    ext: Seq<i64>,
    alignment: AxisAlignment,
    extent_mode: AxisExtent,
    max_span: int,
)
    ensures
        spec_offsets(ext, alignment, extent_mode, max_span).len() == ext.len(),
{
}

/// A resolved flex run has a valid size and non-negative extents.
pub proof fn lemma_flex_resolve_valid(
    kinds: Seq<ChildKind>,
    sizes: Seq<Size>,
    cons: Seq<Option<BoxConstraints>>,
    c: BoxConstraints,
    axis: Axis,
    alignment: AxisAlignment,
    extent_mode: AxisExtent,
)
    requires
        kinds.len() == sizes.len() == cons.len(),
        forall|i: int| 0 <= i < sizes.len() ==> (#[trigger] sizes[i]).valid(),
        forall|i: int|
            0 <= i < cons.len() ==> (#[trigger] cons[i] matches Some(cc) ==> cc.valid()),
    ensures
        spec_flex_resolve(kinds, sizes, cons, c, axis, alignment, extent_mode) matches Ok(fm)
            ==> fm.size.valid() && fm.extents.len() == kinds.len() && fm.offsets.len()
            == kinds.len() && (forall|i: int| 0 <= i < fm.extents.len() ==> 0 <= #[trigger] fm.extents[i]),
{
    lemma_flex_size_valid(kinds, sizes, cons, c, axis, alignment, extent_mode);
    let n = kinds.len() as int;
    let available = sat_sub(c.spec_max_on_axis(axis), spec_fixed_sum(kinds, sizes, axis, n));
    let r0 = spec_after_mins(kinds, cons, axis, available, n);
    if r0 > 0 {
        let s = spec_flex_sum(kinds, n);
        let sorted = spec_max_children(kinds, cons, axis, n).sort_by(max_child_order());
        let r1 = spec_relax(sorted, s, r0, sorted.len() as int);
        lemma_after_mins_bound(kinds, cons, axis, available, n);
        lemma_relax_ge(sorted, s, r0, sorted.len() as int);
        lemma_extents_nonneg(kinds, sizes, cons, axis, r1, s);
        let ext = spec_extents(kinds, sizes, cons, axis, r1, s);
        lemma_offsets_len(ext, alignment, extent_mode, c.spec_max_on_axis(axis));
    }
}

} // verus!

verus! {

use vstd::arithmetic::div_mod::lemma_fundamental_div_mod;

/// With only flexible children, no fixed extents are reserved.
proof fn lemma_fixed_sum_zero(kinds: Seq<ChildKind>, sizes: Seq<Size>, axis: Axis, n: int)
    requires
        forall|i: int| 0 <= i < kinds.len() ==> !(#[trigger] kinds[i]).fixed,
    ensures
        spec_fixed_sum(kinds, sizes, axis, n) == 0,
    decreases n,
{
    if 0 < n <= kinds.len() && n <= sizes.len() {
        lemma_fixed_sum_zero(kinds, sizes, axis, n - 1);
    }
}

/// With no declared constraints, no minimums are reserved.
proof fn lemma_after_mins_id(
    kinds: Seq<ChildKind>,
    cons: Seq<Option<BoxConstraints>>,
    axis: Axis,
    acc0: int,
    n: int,
)
    requires
        forall|i: int| 0 <= i < cons.len() ==> (#[trigger] cons[i]) is None,
    ensures
        spec_after_mins(kinds, cons, axis, acc0, n) == acc0,
    decreases n,
{
    if 0 < n <= kinds.len() && n <= cons.len() {
        lemma_after_mins_id(kinds, cons, axis, acc0, n - 1);
    }
}

/// With no declared constraints, there are no maximum-bounded children.
proof fn lemma_max_children_empty(
    kinds: Seq<ChildKind>,
    cons: Seq<Option<BoxConstraints>>,
    axis: Axis,
    n: int,
)
    requires
        forall|i: int| 0 <= i < cons.len() ==> (#[trigger] cons[i]) is None,
    ensures
        spec_max_children(kinds, cons, axis, n) == Seq::<MaxChild>::empty(),
    decreases n,
{
    if 0 < n <= kinds.len() && n <= cons.len() {
        lemma_max_children_empty(kinds, cons, axis, n - 1);
    }
}

/// Floor division distributes over a sum of numerators up to a deficit of
/// one.
proof fn lemma_div_add(a: int, b: int, s: int)
    requires
        0 < s,
        0 <= a,
        0 <= b,
    ensures
        a / s + b / s <= (a + b) / s <= a / s + b / s + 1,
{
    lemma_fundamental_div_mod(a, s);
    lemma_fundamental_div_mod(b, s);
    lemma_fundamental_div_mod(a + b, s);
    let q1 = a / s;
    let r1 = a % s;
    let q2 = b / s;
    let r2 = b % s;
    assert(0 <= r1 < s && 0 <= r2 < s) by {
        vstd::arithmetic::div_mod::lemma_mod_bound(a, s);
        vstd::arithmetic::div_mod::lemma_mod_bound(b, s);
    }
    assert(0 <= (a + b) % s < s) by {
        vstd::arithmetic::div_mod::lemma_mod_bound(a + b, s);
    }
    if r1 + r2 < s {
        assert((a + b) / s == q1 + q2) by (nonlinear_arith)
            requires
                0 < s,
                a == s * q1 + r1,
                b == s * q2 + r2,
                0 <= r1 + r2 < s,
                a + b == s * ((a + b) / s) + (a + b) % s,
                0 <= (a + b) % s < s,
        ;
    } else {
        assert((a + b) / s == q1 + q2 + 1) by (nonlinear_arith)
            requires
                0 < s,
                a == s * q1 + r1,
                b == s * q2 + r2,
                s <= r1 + r2 < 2 * s,
                a + b == s * ((a + b) / s) + (a + b) % s,
                0 <= (a + b) % s < s,
        ;
    }
}

/// A sequence of zero sizes.
spec fn zero_sizes(n: nat) -> Seq<Size> {
    Seq::new(n, |i: int| Size { width: 0, height: 0 })
}

/// The shares of the first `n` children sum to their collective
/// proportional share, short of at most one unit per child.
proof fn lemma_shares_sum(kinds: Seq<ChildKind>, cons: Seq<Option<BoxConstraints>>, axis: Axis, r: int, s: int, n: int)
    requires
        0 <= n <= kinds.len(),
        kinds.len() == cons.len(),
        0 < s,
        0 < r <= i64::MAX,
        spec_flex_sum(kinds, kinds.len() as int) == s,
        forall|i: int| 0 <= i < kinds.len() ==> !(#[trigger] kinds[i]).fixed,
        forall|i: int| 0 <= i < cons.len() ==> (#[trigger] cons[i]) is None,
    ensures
        ({
            let ext = spec_extents(kinds, zero_sizes(kinds.len()), cons, axis, r, s);
            spec_flex_sum(kinds, n) * r / s - n <= spec_prefix_sum(ext, n) <= spec_flex_sum(
                kinds,
                n,
            ) * r / s
        }),
    decreases n,
{
    let sizes = zero_sizes(kinds.len());
    let ext = spec_extents(kinds, sizes, cons, axis, r, s);
    lemma_flex_sum_bounds(kinds, kinds.len() as int);
    if n == 0 {
        assert(spec_flex_sum(kinds, 0) * r / s == 0) by (nonlinear_arith)
            requires
                0 < s,
                spec_flex_sum(kinds, 0) == 0,
        ;
    } else {
        lemma_shares_sum(kinds, cons, axis, r, s, n - 1);
        let w = kinds[n - 1].weight as int;
        let wp = spec_flex_sum(kinds, n - 1);
        assert(spec_flex_sum(kinds, n) == wp + w);
        lemma_flex_sum_bounds(kinds, n);
        assert(0 <= wp) by {
            lemma_flex_sum_bounds(kinds, n - 1);
        }
        assert(kinds[n - 1].weight as int <= s);
        lemma_share_le(w, r, s);
        lemma_flex_sum_mono(kinds, n, kinds.len() as int);
        assert(wp + w <= s);
        assert(ext[n - 1] == spec_share(w, r, s) as i64) by {
            assert(spec_decl_min(cons[n - 1], axis) == 0);
            assert(sat_add(spec_share(w, r, s), 0) == spec_share(w, r, s));
        }
        lemma_div_add(wp * r, w * r, s);
        assert((wp + w) * r == wp * r + w * r) by (nonlinear_arith);
        assert(0 <= wp * r && 0 <= w * r) by (nonlinear_arith)
            requires
                0 <= wp,
                0 <= w,
                0 <= r,
        ;
        assert(wp * r / s <= (wp + w) * r / s) by {
            lemma_div_add(wp * r, w * r, s);
        }
        assert(spec_prefix_sum(ext, n) == sat_add(
            spec_prefix_sum(ext, n - 1),
            spec_share(w, r, s),
        ));
        assert((wp + w) * r / s <= s * r / s) by {
            assert((wp + w) * r <= s * r) by (nonlinear_arith)
                requires
                    wp + w <= s,
                    0 <= r,
            ;
            vstd::arithmetic::div_mod::lemma_div_is_ordered((wp + w) * r, s * r, s);
        }
        assert(s * r / s == r) by (nonlinear_arith)
            requires
                0 < s,
        ;
        assert(spec_prefix_sum(ext, n - 1) + spec_share(w, r, s) <= r);
        assert(sat_add(spec_prefix_sum(ext, n - 1), spec_share(w, r, s)) == spec_prefix_sum(
            ext,
            n - 1,
        ) + spec_share(w, r, s));
        let total = spec_flex_sum(kinds, n);
        assert(spec_share(w, r, s) == w * r / s);
        assert(spec_prefix_sum(ext, n) == spec_prefix_sum(ext, n - 1) + w * r / s);
        assert(total * r == wp * r + w * r) by (nonlinear_arith)
            requires
                total == wp + w,
        ;
        assert(wp * r / s + w * r / s <= total * r / s <= wp * r / s + w * r / s + 1);
        assert(spec_prefix_sum(ext, n - 1) <= wp * r / s);
        assert(wp * r / s - (n - 1) <= spec_prefix_sum(ext, n - 1));
        assert(spec_prefix_sum(ext, n) <= total * r / s);
        assert(total * r / s - n <= spec_prefix_sum(ext, n));
    }
}

/// Flex conservation: for a run of only flexible children that declare no
/// constraints and carry positive weights, under a valid constraint box
/// with a finite positive main-axis maximum, the run resolves, and the
/// per-child extents sum to the available main-axis space, short of at most
/// one layout unit per child (the deficit floor division leaves).
pub proof fn lemma_flex_conservation(
    kinds: Seq<ChildKind>,
    sizes: Seq<Size>,
    cons: Seq<Option<BoxConstraints>>,
    c: BoxConstraints,
    axis: Axis,
    alignment: AxisAlignment,
    extent_mode: AxisExtent,
)
    requires
        kinds.len() == sizes.len() == cons.len(),
        forall|i: int| 0 <= i < kinds.len() ==> !(#[trigger] kinds[i]).fixed,
        forall|i: int| 0 <= i < kinds.len() ==> (#[trigger] kinds[i]).weight >= 1,
        forall|i: int| 0 <= i < cons.len() ==> (#[trigger] cons[i]) is None,
        0 < kinds.len(),
        c.valid(),
        scalar::spec_is_finite(c.spec_max_on_axis(axis)),
        0 < c.spec_max_on_axis(axis),
    ensures
        spec_flex_resolve(kinds, sizes, cons, c, axis, alignment, extent_mode) matches Ok(fm) && ({
            let available = c.spec_max_on_axis(axis);
            available - kinds.len() <= spec_prefix_sum(fm.extents, kinds.len() as int)
                <= available
        }),
{
    let n = kinds.len() as int;
    let available = c.spec_max_on_axis(axis);
    lemma_fixed_sum_zero(kinds, sizes, axis, n);
    assert(sat_sub(available, 0) == available);
    lemma_after_mins_id(kinds, cons, axis, available, n);
    let s = spec_flex_sum(kinds, n);
    lemma_flex_sum_bounds(kinds, n);
    assert(s >= n) by {
        lemma_flex_sum_ge_count(kinds, n);
    }
    if n == 0 {
        assert(spec_flex_resolve(kinds, sizes, cons, c, axis, alignment, extent_mode) is Ok);
    } else {
        assert(0 < s);
        lemma_max_children_empty(kinds, cons, axis, n);
        lemma_max_child_order_total();
        Seq::<MaxChild>::empty().lemma_sort_by_ensures(max_child_order());
        let sorted = Seq::<MaxChild>::empty().sort_by(max_child_order());
        assert(sorted.len() == 0) by {
            broadcast use vstd::seq_lib::group_to_multiset_ensures;

            assert(sorted.to_multiset().len() == Seq::<MaxChild>::empty().to_multiset().len());
        }
        assert(spec_relax(sorted, s, available, sorted.len() as int) == available);
        let ext = spec_extents(kinds, sizes, cons, axis, available, s);
        let ext0 = spec_extents(kinds, zero_sizes(kinds.len()), cons, axis, available, s);
        assert(ext =~= ext0) by {
            assert forall|i: int| 0 <= i < n implies ext[i] == ext0[i] by {}
        }
        lemma_shares_sum(kinds, cons, axis, available, s, n);
        assert(s * available / s == available) by (nonlinear_arith)
            requires
                0 < s,
        ;
        assert(spec_flex_sum(kinds, n) * available / s == available);
    }
}

/// Weight sums grow with the prefix they cover.
proof fn lemma_flex_sum_mono(kinds: Seq<ChildKind>, m: int, n: int)
    requires
        0 <= m <= n <= kinds.len(),
    ensures
        spec_flex_sum(kinds, m) <= spec_flex_sum(kinds, n),
    decreases n,
{
    if m < n {
        lemma_flex_sum_mono(kinds, m, n - 1);
    }
}

/// Each flexible child contributes at least its unit weight.
proof fn lemma_flex_sum_ge_count(kinds: Seq<ChildKind>, n: int)
    requires
        n <= kinds.len(),
        forall|i: int| 0 <= i < kinds.len() ==> !(#[trigger] kinds[i]).fixed,
        forall|i: int| 0 <= i < kinds.len() ==> (#[trigger] kinds[i]).weight >= 1,
    ensures
        spec_flex_sum(kinds, n) >= n,
    decreases n,
{
    if 0 < n {
        lemma_flex_sum_ge_count(kinds, n - 1);
    }
}

} // verus!
