//! The widget tree: a closed union of the widget kinds, with the two tree
//! walks — `layout` (measure) and `get_shapes` (paint geometry).
//!
//! `layout` is pure: it returns the widget's size together with a cache
//! value that the subsequent `get_shapes` call consumes as an explicit
//! parameter, so no stale hidden state can arise between the two passes.

use vstd::prelude::*;

use crate::container::{spec_container_resolve, Container};
use crate::context::Context;
use crate::error::UiError;
use crate::flex;
use crate::flex::{Axis, Child, ChildCache, ChildKind, Flex};
use crate::shape::{GlyphShape, RectangleShape, ShapeType, UIShape};
use crate::text;
use crate::text::{LetterRect, Text, TextCache};
use crate::text_style::{spec_style_hash, TextStyleHandle};
use crate::widgets::{BoxConstraints, Color, Size};
use crate::Offset;

verus! {

/// A widget: a container, a flex run, or a text run.
pub enum Widget {
    Container(Container),
    Flex(Flex),
    Text(Text),
}

/// The per-widget value `layout` hands to `get_shapes`.
pub enum WidgetCache {
    /// Containers carry nothing between the passes.
    Plain,
    /// A flex run carries its children's extents and offsets.
    Flex(ChildCache),
    /// A text run carries its laid-out letters and the truncation signal.
    Text(TextCache),
}

/// The result of one `layout` call.
pub struct LayoutRun {
    pub size: Size,
    pub cache: WidgetCache,
}

/// The mathematical content of a [`WidgetCache`].
pub enum CacheModel {
    Plain,
    Flex { extents: Seq<i64>, offsets: Seq<i64> },
    Text { letters: Seq<LetterRect>, truncated: bool },
}

/// The mathematical content of a [`LayoutRun`].
pub struct LayoutModel {
    pub size: Size,
    pub cache: CacheModel,
}

/// The mathematical content of a [`WidgetCache`].
pub open spec fn cache_model(c: WidgetCache) -> CacheModel {
    match c {
        WidgetCache::Plain => CacheModel::Plain,
        WidgetCache::Flex(cc) => CacheModel::Flex { extents: cc.size_map@, offsets: cc.offset_map@ },
        WidgetCache::Text(tc) => CacheModel::Text { letters: tc.letters@, truncated: tc.truncated },
    }
}

/// The mathematical content of a [`LayoutRun`].
pub open spec fn run_model(r: LayoutRun) -> LayoutModel {
    LayoutModel { size: r.size, cache: cache_model(r.cache) }
}

/// The constraints a widget declares for itself (only containers do).
pub open spec fn spec_get_constraints(w: Widget) -> Option<BoxConstraints> {
    match w {
        Widget::Container(k) => k.constraints,
        Widget::Flex(_) => None,
        Widget::Text(_) => None,
    }
}

/// A well-formed widget tree: every declared constraint is valid.
pub open spec fn spec_wf(w: Widget) -> bool
    decreases w, 0int,
{
    match w {
        Widget::Container(k) => (k.constraints matches Some(cc) ==> cc.valid()) && (
        k.child matches Some(ch) ==> spec_wf(*ch)),
        Widget::Flex(f) => spec_wf_children(f.children@, f.children@.len() as int),
        Widget::Text(_) => true,
    }
}

/// The first `n` children hold well-formed widgets.
pub open spec fn spec_wf_children(children: Seq<Child>, n: int) -> bool
    decreases children, n,
    via spec_wf_children_dec
{
    if 0 < n <= children.len() {
        spec_wf_children(children, n - 1) && spec_wf(children[n - 1].spec_widget())
    } else {
        true
    }
}

#[via_fn]
proof fn spec_wf_children_dec(children: Seq<Child>, n: int) {
    if 0 < n <= children.len() {
        child_widget_decreases(children, n - 1);
    }
}

/// A child's widget is structurally below the child sequence.
proof fn child_widget_decreases(children: Seq<Child>, i: int)
    requires
        0 <= i < children.len(),
    ensures
        decreases_to!(children => children[i].spec_widget()),
{
    assert(decreases_to!(children => children[i]));
    match children[i] {
        Child::Flex { widget, flex } => {
            assert(decreases_to!(children[i] => children[i]->Flex_widget));
            assert(children[i].spec_widget() == *children[i]->Flex_widget);
        },
        Child::Fixed { widget } => {
            assert(decreases_to!(children[i] => children[i]->Fixed_widget));
            assert(children[i].spec_widget() == *children[i]->Fixed_widget);
        },
    }
}

/// Lay out a widget: compute its size under the incoming constraints,
/// together with the cache its paint pass consumes.
///
/// A container measures its child under the same incoming constraints and
/// resolves its own size from it; a flex run measures every child under the
/// incoming constraints and distributes the main axis; a text run wraps its
/// words against the computed style registered in the context (failing with
/// `StyleNotFound` when none is registered).
pub open spec fn spec_layout(w: Widget, c: BoxConstraints, ctx: Context) -> Result<
    LayoutModel,
    UiError,
>
    decreases w, 1int,
    via spec_layout_dec
{
    match w {
        Widget::Container(k) => match k.child {
            Some(ch) => match spec_layout(*ch, c, ctx) {
                Ok(m) => Ok(
                    LayoutModel {
                        size: spec_container_resolve(k, Some(m.size), c),
                        cache: CacheModel::Plain,
                    },
                ),
                Err(e) => Err(e),
            },
            None => Ok(
                LayoutModel { size: spec_container_resolve(k, None, c), cache: CacheModel::Plain },
            ),
        },
        Widget::Flex(f) => match spec_layout_children(
            f.children@,
            c,
            ctx,
            f.children@.len() as int,
        ) {
            Ok(models) => {
                let n = f.children@.len() as int;
                let kinds = Seq::new(n as nat, |i: int| f.children@[i].spec_kind());
                let sizes = models.map_values(|m: LayoutModel| m.size);
                let cons = Seq::new(
                    n as nat,
                    |i: int| spec_get_constraints(f.children@[i].spec_widget()),
                );
                match flex::spec_flex_resolve(
                    kinds,
                    sizes,
                    cons,
                    c,
                    f.axis,
                    f.main_axis_alignment,
                    f.main_axis_extent,
                ) {
                    Ok(fm) => Ok(
                        LayoutModel {
                            size: fm.size,
                            cache: CacheModel::Flex { extents: fm.extents, offsets: fm.offsets },
                        },
                    ),
                    Err(e) => Err(e),
                }
            },
            Err(e) => Err(e),
        },
        Widget::Text(t) => {
            let h = TextStyleHandle(spec_style_hash(t.style.font_family@, t.style.font_size));
            match Context::spec_style_of(ctx.spec_styles(), h) {
                Some(computed) => match text::spec_text_resolve(
                    t.value@,
                    t.style.font_size,
                    computed,
                    c,
                ) {
                    Ok(tm) => Ok(
                        LayoutModel {
                            size: tm.size,
                            cache: CacheModel::Text { letters: tm.letters, truncated: tm.truncated },
                        },
                    ),
                    Err(e) => Err(e),
                },
                None => Err(UiError::StyleNotFound),
            }
        },
    }
}

#[via_fn]
proof fn spec_layout_dec(w: Widget, c: BoxConstraints, ctx: Context) {
    match w {
        Widget::Container(k) => {
            if k.child is Some {
                assert(decreases_to!(w => w->Container_0));
                assert(decreases_to!(w->Container_0 => w->Container_0.child));
                assert(decreases_to!(w->Container_0.child => w->Container_0.child->0));
            }
        },
        Widget::Flex(f) => {
            assert(decreases_to!(w => w->Flex_0));
            assert(decreases_to!(w->Flex_0 => w->Flex_0.children));
            assert(decreases_to!(w->Flex_0.children => w->Flex_0.children@));
        },
        Widget::Text(_) => {},
    }
}

/// Lay out the first `n` children in order.
pub open spec fn spec_layout_children(
    children: Seq<Child>,
    c: BoxConstraints,
    ctx: Context,
    n: int,
) -> Result<Seq<LayoutModel>, UiError>
    decreases children, n,
    via spec_layout_children_dec
{
    if 0 < n <= children.len() {
        match spec_layout_children(children, c, ctx, n - 1) {
            Ok(ms) => match spec_layout(children[n - 1].spec_widget(), c, ctx) {
                Ok(m) => Ok(ms.push(m)),
                Err(e) => Err(e),
            },
            Err(e) => Err(e),
        }
    } else {
        Ok(Seq::empty())
    }
}

#[via_fn]
proof fn spec_layout_children_dec(children: Seq<Child>, c: BoxConstraints, ctx: Context, n: int) {
    if 0 < n <= children.len() {
        child_widget_decreases(children, n - 1);
    }
}

/// A failed child layout fails the whole run.
proof fn lemma_layout_children_err(
    children: Seq<Child>,
    c: BoxConstraints,
    ctx: Context,
    m: int,
    k: int,
)
    requires
        0 <= m <= k <= children.len(),
        spec_layout_children(children, c, ctx, m) is Err,
    ensures
        spec_layout_children(children, c, ctx, k) == spec_layout_children(children, c, ctx, m),
    decreases k,
{
    if k > m {
        lemma_layout_children_err(children, c, ctx, m, k - 1);
    }
}

/// Well-formed children index-wise.
proof fn lemma_wf_children_index(children: Seq<Child>, n: int)
    requires
        spec_wf_children(children, n),
        n <= children.len(),
    ensures
        forall|k: int| 0 <= k < n ==> spec_wf(#[trigger] children[k].spec_widget()),
    decreases n,
{
    if 0 < n {
        lemma_wf_children_index(children, n - 1);
    }
}

impl Widget {
    /// The constraints this widget declares for itself.
    pub fn get_constraints(&self) -> (r: Option<BoxConstraints>)
        ensures
            r == spec_get_constraints(*self),
    {
        match self {
            Widget::Container(k) => k.constraints,
            Widget::Flex(_) => None,
            Widget::Text(_) => None,
        }
    }

    /// Measure this widget under the incoming constraints.
    pub fn layout(&self, c: &BoxConstraints, ctx: &Context) -> (r: Result<LayoutRun, UiError>)
        requires
            spec_wf(*self),
            c.valid(),
        ensures
            ({
                let m = spec_layout(*self, *c, *ctx);
                match r {
                    Ok(run) => m == Ok::<LayoutModel, UiError>(run_model(run)) && run.size.valid()
                        && cache_wf(*self, cache_model(run.cache)),
                    Err(e) => m == Err::<LayoutModel, UiError>(e),
                }
            }),
        decreases *self, 1int,
    {
        match self {
            Widget::Container(k) => {
                match &k.child {
                    Some(ch) => {
                        proof {
                            assert(decreases_to!(*self => self->Container_0));
                            assert(decreases_to!(self->Container_0 => self->Container_0.child));
                            assert(decreases_to!(self->Container_0.child => self->Container_0.child->0));
                        }
                        match ch.layout(c, ctx) {
                            Ok(run) => Ok(
                                LayoutRun {
                                    size: k.resolve(Some(run.size), c),
                                    cache: WidgetCache::Plain,
                                },
                            ),
                            Err(e) => Err(e),
                        }
                    },
                    None => Ok(LayoutRun { size: k.resolve(None, c), cache: WidgetCache::Plain }),
                }
            },
            Widget::Flex(f) => {
                let n = f.children.len();
                let mut kinds: Vec<ChildKind> = Vec::new();
                let mut sizes: Vec<Size> = Vec::new();
                let mut cons: Vec<Option<BoxConstraints>> = Vec::new();
                let ghost mut models: Seq<LayoutModel> = Seq::empty();
                let mut i: usize = 0;
                proof {
                    lemma_wf_children_index(f.children@, f.children@.len() as int);
                }
                while i < n
                    invariant
                        i <= n,
                        n == f.children@.len(),
                        *self == Widget::Flex(*f),
                        spec_wf(*self),
                        c.valid(),
                        forall|k: int|
                            0 <= k < n ==> spec_wf(#[trigger] f.children@[k].spec_widget()),
                        spec_layout_children(f.children@, *c, *ctx, i as int) == Ok::<
                            Seq<LayoutModel>,
                            UiError,
                        >(models),
                        models.len() == i,
                        kinds@ =~= Seq::new(i as nat, |k: int| f.children@[k].spec_kind()),
                        cons@ =~= Seq::new(
                            i as nat,
                            |k: int| spec_get_constraints(f.children@[k].spec_widget()),
                        ),
                        sizes@ =~= models.map_values(|m: LayoutModel| m.size),
                        forall|k: int| 0 <= k < i ==> (#[trigger] sizes@[k]).valid(),
                    decreases n - i,
                {
                    let child: &Child = &f.children[i];
                    proof {
                        assert(decreases_to!(*self => self->Flex_0));
                        assert(decreases_to!(self->Flex_0 => self->Flex_0.children));
                        assert(decreases_to!(self->Flex_0.children => self->Flex_0.children@));
                        assert(decreases_to!(self->Flex_0.children@ => self->Flex_0.children@[i as int]));
                        child_widget_decreases(f.children@, i as int);
                        assert(decreases_to!(*self => f.children@[i as int].spec_widget()));
                    }
                    let run = match child.widget().layout(c, ctx) {
                        Ok(run) => run,
                        Err(e) => {
                            proof {
                                lemma_layout_children_err(
                                    f.children@,
                                    *c,
                                    *ctx,
                                    i + 1,
                                    f.children@.len() as int,
                                );
                            }
                            return Err(e);
                        },
                    };
                    kinds.push(child.kind());
                    cons.push(child.widget().get_constraints());
                    sizes.push(run.size);
                    proof {
                        models = models.push(run_model(run));
                        assert(kinds@ =~= Seq::new(
                            (i + 1) as nat,
                            |k: int| f.children@[k].spec_kind(),
                        ));
                        assert(cons@ =~= Seq::new(
                            (i + 1) as nat,
                            |k: int| spec_get_constraints(f.children@[k].spec_widget()),
                        ));
                        assert(sizes@ =~= models.map_values(|m: LayoutModel| m.size));
                    }
                    i = i + 1;
                }
                proof {
                    let cons_spec = Seq::new(
                        n as nat,
                        |k: int| spec_get_constraints(f.children@[k].spec_widget()),
                    );
                    assert forall|k: int|
                        0 <= k < cons@.len() implies (#[trigger] cons@[k] matches Some(cc)
                        ==> cc.valid()) by {
                        assert(spec_wf(f.children@[k].spec_widget()));
                        match f.children@[k].spec_widget() {
                            Widget::Container(_) => {},
                            Widget::Flex(_) => {},
                            Widget::Text(_) => {},
                        }
                    }
                    flex::lemma_flex_resolve_valid(
                        kinds@,
                        sizes@,
                        cons@,
                        *c,
                        f.axis,
                        f.main_axis_alignment,
                        f.main_axis_extent,
                    );
                }
                match flex::flex_resolve(
                    &kinds,
                    &sizes,
                    &cons,
                    c,
                    f.axis,
                    f.main_axis_alignment,
                    f.main_axis_extent,
                ) {
                    Ok((size, cache)) => Ok(LayoutRun { size, cache: WidgetCache::Flex(cache) }),
                    Err(e) => Err(e),
                }
            },
            Widget::Text(t) => {
                let handle = t.style.handle();
                match ctx.get_style(&handle) {
                    None => Err(UiError::StyleNotFound),
                    Some(computed) => {
                        let chars = text::string_chars(t.value.as_str());
                        proof {
                            text::lemma_text_size_valid(t.value@, t.style.font_size, *computed, *c);
                        }
                        match text::text_resolve(&chars, t.style.font_size, computed, c) {
                            Ok((size, tc)) => Ok(
                                LayoutRun { size, cache: WidgetCache::Text(tc) },
                            ),
                            Err(e) => Err(e),
                        }
                    },
                }
            },
        }
    }
}

} // verus!

verus! {

use crate::shape::{shape_model, shapes_model, GlyphModel, ShapeKindModel, ShapeModel};
use crate::text_style::{TextStyle, TextStyleComputed};

/// The cache a paint pass accepts for a widget: the right variant, one
/// entry per flex child, and non-negative flex extents (they become tight
/// constraints for the children).
pub open spec fn cache_wf(w: Widget, cm: CacheModel) -> bool {
    match w {
        Widget::Container(_) => cm is Plain,
        Widget::Flex(f) => cm matches CacheModel::Flex { extents, offsets } && extents.len()
            == f.children@.len() && offsets.len() == f.children@.len() && (forall|k: int|
            0 <= k < extents.len() ==> 0 <= #[trigger] extents[k]),
        Widget::Text(_) => cm is Text,
    }
}

/// The glyph shapes of the first `n` laid-out letters: each letter becomes
/// one glyph shape at its absolute position translated by `offset`,
/// carrying the character's current atlas rectangle.
pub open spec fn spec_text_shapes(
    letters: Seq<LetterRect>,
    style: TextStyle,
    computed: TextStyleComputed,
    offset: Offset,
    n: int,
) -> Result<Seq<ShapeModel>, UiError>
    decreases n,
{
    if 0 < n <= letters.len() {
        match spec_text_shapes(letters, style, computed, offset, n - 1) {
            Ok(prev) => {
                let l = letters[n - 1];
                match computed.spec_rect_of(l.ch) {
                    Some(rect) => Ok(
                        prev.push(
                            ShapeModel {
                                offset: Offset { dx: l.x, dy: l.y }.spec_add(offset),
                                size: Size { width: l.w, height: l.h },
                                kind: ShapeKindModel::Glyph(
                                    GlyphModel {
                                        character: l.ch,
                                        family: style.font_family@,
                                        color: style.color,
                                        handle: TextStyleHandle(
                                            spec_style_hash(style.font_family@, style.font_size),
                                        ),
                                        atlas_rect: rect,
                                    },
                                ),
                            },
                        ),
                    ),
                    None => Err(UiError::UnknownHandle),
                }
            },
            Err(e) => Err(e),
        }
    } else {
        Ok(Seq::empty())
    }
}

/// A failed glyph lookup fails the whole paint pass.
proof fn lemma_text_shapes_err(
    letters: Seq<LetterRect>,
    style: TextStyle,
    computed: TextStyleComputed,
    offset: Offset,
    m: int,
    k: int,
)
    requires
        0 <= m <= k <= letters.len(),
        spec_text_shapes(letters, style, computed, offset, m) is Err,
    ensures
        spec_text_shapes(letters, style, computed, offset, k) == spec_text_shapes(
            letters,
            style,
            computed,
            offset,
            m,
        ),
    decreases k,
{
    if k > m {
        lemma_text_shapes_err(letters, style, computed, offset, m, k - 1);
    }
}

/// Emit a widget's paint geometry, consuming the cache its preceding
/// `layout` call produced.
///
/// A container emits exactly one rectangle in its background color, sized
/// to its own extents clamped into the incoming constraints (it does not
/// recurse into its child's shapes — a long-standing gap kept for
/// compatibility). A flex run re-measures each child under the incoming
/// constraints, then paints it under a tight constraint made of the cached
/// main-axis extent and the child's measured cross extent, translated by the
/// cached offset. A text run emits one glyph per laid-out letter.
pub open spec fn spec_get_shapes(
    w: Widget,
    offset: Offset,
    c: BoxConstraints,
    cm: CacheModel,
    ctx: Context,
) -> Result<Seq<ShapeModel>, UiError>
    decreases w, 2int,
    via spec_get_shapes_dec
{
    match w {
        Widget::Container(k) => Ok(
            seq![
                ShapeModel {
                    offset,
                    size: Size { width: k.width, height: k.height }.spec_constrain(c),
                    kind: ShapeKindModel::Rectangle(k.color),
                },
            ],
        ),
        Widget::Flex(f) => match cm {
            CacheModel::Flex { extents, offsets } => {
                if extents.len() == f.children@.len() && offsets.len() == f.children@.len() {
                    spec_shapes_children(
                        f.children@,
                        offset,
                        c,
                        extents,
                        offsets,
                        f.axis,
                        ctx,
                        f.children@.len() as int,
                    )
                } else {
                    Err(UiError::UnknownHandle)
                }
            },
            _ => Err(UiError::UnknownHandle),
        },
        Widget::Text(t) => match cm {
            CacheModel::Text { letters, truncated } => {
                let h = TextStyleHandle(spec_style_hash(t.style.font_family@, t.style.font_size));
                match Context::spec_style_of(ctx.spec_styles(), h) {
                    Some(computed) => spec_text_shapes(
                        letters,
                        t.style,
                        computed,
                        offset,
                        letters.len() as int,
                    ),
                    None => Err(UiError::StyleNotFound),
                }
            },
            _ => Err(UiError::UnknownHandle),
        },
    }
}

#[via_fn]
proof fn spec_get_shapes_dec(w: Widget, offset: Offset, c: BoxConstraints, cm: CacheModel, ctx: Context) {
    match w {
        Widget::Flex(f) => {
            assert(decreases_to!(w => w->Flex_0));
            assert(decreases_to!(w->Flex_0 => w->Flex_0.children));
            assert(decreases_to!(w->Flex_0.children => w->Flex_0.children@));
        },
        _ => {},
    }
}

/// Paint the first `n` children of a flex run, in child order.
pub open spec fn spec_shapes_children(
    children: Seq<Child>,
    offset: Offset,
    c: BoxConstraints,
    extents: Seq<i64>,
    offsets: Seq<i64>,
    axis: Axis,
    ctx: Context,
    n: int,
) -> Result<Seq<ShapeModel>, UiError>
    decreases children, n,
    via spec_shapes_children_dec
{
    if 0 < n <= children.len() && n <= extents.len() && n <= offsets.len() {
        match spec_shapes_children(children, offset, c, extents, offsets, axis, ctx, n - 1) {
            Ok(prev) => match spec_layout(children[n - 1].spec_widget(), c, ctx) {
                Ok(m) => {
                    let position = match axis {
                        Axis::Horizontal => Offset { dx: offsets[n - 1], dy: 0 },
                        Axis::Vertical => Offset { dx: 0, dy: offsets[n - 1] },
                    };
                    let new_size = match axis {
                        Axis::Horizontal => Size { width: extents[n - 1], height: m.size.height },
                        Axis::Vertical => Size { width: m.size.width, height: extents[n - 1] },
                    };
                    let tight = BoxConstraints { min: new_size, max: new_size };
                    match spec_get_shapes(
                        children[n - 1].spec_widget(),
                        position.spec_add(offset),
                        tight,
                        m.cache,
                        ctx,
                    ) {
                        Ok(shapes) => Ok(prev + shapes),
                        Err(e) => Err(e),
                    }
                },
                Err(e) => Err(e),
            },
            Err(e) => Err(e),
        }
    } else {
        Ok(Seq::empty())
    }
}

#[via_fn]
proof fn spec_shapes_children_dec(
    children: Seq<Child>,
    offset: Offset,
    c: BoxConstraints,
    extents: Seq<i64>,
    offsets: Seq<i64>,
    axis: Axis,
    ctx: Context,
    n: int,
) {
    if 0 < n <= children.len() {
        child_widget_decreases(children, n - 1);
    }
}

/// One paint step extends the accumulated shapes with the child's shapes.
proof fn lemma_shapes_children_step(
    children: Seq<Child>,
    offset: Offset,
    c: BoxConstraints,
    extents: Seq<i64>,
    offsets: Seq<i64>,
    axis: Axis,
    ctx: Context,
    i: int,
    prev: Seq<ShapeModel>,
    m: LayoutModel,
    cs: Seq<ShapeModel>,
)
    requires
        0 <= i < children.len(),
        i < extents.len(),
        i < offsets.len(),
        spec_shapes_children(children, offset, c, extents, offsets, axis, ctx, i) == Ok::<
            Seq<ShapeModel>,
            UiError,
        >(prev),
        spec_layout(children[i].spec_widget(), c, ctx) == Ok::<LayoutModel, UiError>(m),
        ({
            let position = match axis {
                Axis::Horizontal => Offset { dx: offsets[i], dy: 0 },
                Axis::Vertical => Offset { dx: 0, dy: offsets[i] },
            };
            let new_size = match axis {
                Axis::Horizontal => Size { width: extents[i], height: m.size.height },
                Axis::Vertical => Size { width: m.size.width, height: extents[i] },
            };
            let tight = BoxConstraints { min: new_size, max: new_size };
            spec_get_shapes(children[i].spec_widget(), position.spec_add(offset), tight, m.cache, ctx)
                == Ok::<Seq<ShapeModel>, UiError>(cs)
        }),
    ensures
        spec_shapes_children(children, offset, c, extents, offsets, axis, ctx, i + 1) == Ok::<
            Seq<ShapeModel>,
            UiError,
        >(prev + cs),
{
}

/// Measure one flex child under the run's constraints and paint it under
/// the tight constraint made of its cached extent and measured cross
/// extent, translated by its cached offset.
fn paint_child(
    child: &Child,
    offset: &Offset,
    c: &BoxConstraints,
    ext_i: i64,
    off_i: i64,
    axis: Axis,
    ctx: &Context,
) -> (r: Result<Vec<UIShape>, UiError>)
    requires
        spec_wf(child.spec_widget()),
        c.valid(),
        0 <= ext_i,
    ensures
        ({
            let lm = spec_layout(child.spec_widget(), *c, *ctx);
            match r {
                Ok(v) => lm matches Ok(m) && ({
                    let position = match axis {
                        Axis::Horizontal => Offset { dx: off_i, dy: 0 },
                        Axis::Vertical => Offset { dx: 0, dy: off_i },
                    };
                    let new_size = match axis {
                        Axis::Horizontal => Size { width: ext_i, height: m.size.height },
                        Axis::Vertical => Size { width: m.size.width, height: ext_i },
                    };
                    let tight = BoxConstraints { min: new_size, max: new_size };
                    spec_get_shapes(
                        child.spec_widget(),
                        position.spec_add(*offset),
                        tight,
                        m.cache,
                        *ctx,
                    ) == Ok::<Seq<ShapeModel>, UiError>(shapes_model(v@))
                }),
                Err(e) => lm == Err::<LayoutModel, UiError>(e) || (lm matches Ok(m) && ({
                    let position = match axis {
                        Axis::Horizontal => Offset { dx: off_i, dy: 0 },
                        Axis::Vertical => Offset { dx: 0, dy: off_i },
                    };
                    let new_size = match axis {
                        Axis::Horizontal => Size { width: ext_i, height: m.size.height },
                        Axis::Vertical => Size { width: m.size.width, height: ext_i },
                    };
                    let tight = BoxConstraints { min: new_size, max: new_size };
                    spec_get_shapes(
                        child.spec_widget(),
                        position.spec_add(*offset),
                        tight,
                        m.cache,
                        *ctx,
                    ) == Err::<Seq<ShapeModel>, UiError>(e)
                })),
            }
        }),
    decreases child.spec_widget(), 3int,
{
    proof {
        match child {
            Child::Flex { widget, flex } => {
                assert(decreases_to!(*child => child->Flex_widget));
            },
            Child::Fixed { widget } => {
                assert(decreases_to!(*child => child->Fixed_widget));
            },
        }
    }
    let run = match child.widget().layout(c, ctx) {
        Ok(run) => run,
        Err(e) => {
            return Err(e);
        },
    };
    let position: Offset = match axis {
        Axis::Horizontal => Offset { dx: off_i, dy: 0 },
        Axis::Vertical => Offset { dx: 0, dy: off_i },
    };
    let new_size: Size = match axis {
        Axis::Horizontal => Size { width: ext_i, height: run.size.height },
        Axis::Vertical => Size { width: run.size.width, height: ext_i },
    };
    let tight = BoxConstraints::tight(new_size);
    let pos_offset = position.add(*offset);
    child.widget().get_shapes(&pos_offset, &tight, &run.cache, ctx)
}

/// Paint all children of a flex run.
fn flex_paint(
    children: &Vec<Child>,
    offset: &Offset,
    c: &BoxConstraints,
    cc: &ChildCache,
    axis: Axis,
    ctx: &Context,
) -> (r: Result<Vec<UIShape>, UiError>)
    requires
        cc.size_map@.len() == children@.len(),
        cc.offset_map@.len() == children@.len(),
        c.valid(),
        forall|k: int| 0 <= k < children@.len() ==> 0 <= #[trigger] cc.size_map@[k],
        forall|k: int|
            0 <= k < children@.len() ==> spec_wf(#[trigger] children@[k].spec_widget()),
    ensures
        ({
            let m = spec_shapes_children(
                children@,
                *offset,
                *c,
                cc.size_map@,
                cc.offset_map@,
                axis,
                *ctx,
                children@.len() as int,
            );
            match r {
                Ok(v) => m == Ok::<Seq<ShapeModel>, UiError>(shapes_model(v@)),
                Err(e) => m == Err::<Seq<ShapeModel>, UiError>(e),
            }
        }),
    decreases children@, 4int,
{
    let ghost extents = cc.size_map@;
    let ghost offs = cc.offset_map@;
    let n = children.len();
    let mut shapes: Vec<UIShape> = Vec::new();
    let mut i: usize = 0;
    proof {
        assert(shapes_model(shapes@) =~= Seq::<ShapeModel>::empty());
    }
    while i < n
        invariant
            i <= n,
            n == children@.len(),
            c.valid(),
            extents == cc.size_map@,
            offs == cc.offset_map@,
            extents.len() == n,
            offs.len() == n,
            forall|k: int| 0 <= k < n ==> 0 <= #[trigger] extents[k],
            forall|k: int| 0 <= k < n ==> spec_wf(#[trigger] children@[k].spec_widget()),
            spec_shapes_children(children@, *offset, *c, extents, offs, axis, *ctx, i as int)
                == Ok::<Seq<ShapeModel>, UiError>(shapes_model(shapes@)),
        decreases n - i,
    {
        let child: &Child = &children[i];
        proof {
            assert(decreases_to!(children@ => children@[i as int]));
            child_widget_decreases(children@, i as int);
        }
        let mut child_shapes = match paint_child(
            child,
            offset,
            c,
            cc.size_map[i],
            cc.offset_map[i],
            axis,
            ctx,
        ) {
            Ok(v) => v,
            Err(e) => {
                proof {
                    lemma_shapes_children_err(
                        children@,
                        *offset,
                        *c,
                        extents,
                        offs,
                        axis,
                        *ctx,
                        i + 1,
                        n as int,
                    );
                }
                return Err(e);
            },
        };
        let ghost old_shapes = shapes@;
        let ghost new_shapes = child_shapes@;
        shapes.append(&mut child_shapes);
        proof {
            assert(shapes_model(shapes@) =~= shapes_model(old_shapes) + shapes_model(new_shapes));
            let lm = spec_layout(children@[i as int].spec_widget(), *c, *ctx);
            lemma_shapes_children_step(
                children@,
                *offset,
                *c,
                extents,
                offs,
                axis,
                *ctx,
                i as int,
                shapes_model(old_shapes),
                lm->Ok_0,
                shapes_model(new_shapes),
            );
        }
        i = i + 1;
    }
    Ok(shapes)
}

/// A failed child fails the whole paint pass.
proof fn lemma_shapes_children_err(
    children: Seq<Child>,
    offset: Offset,
    c: BoxConstraints,
    extents: Seq<i64>,
    offsets: Seq<i64>,
    axis: Axis,
    ctx: Context,
    m: int,
    k: int,
)
    requires
        0 <= m <= k <= children.len(),
        k <= extents.len(),
        k <= offsets.len(),
        spec_shapes_children(children, offset, c, extents, offsets, axis, ctx, m) is Err,
    ensures
        spec_shapes_children(children, offset, c, extents, offsets, axis, ctx, k)
            == spec_shapes_children(children, offset, c, extents, offsets, axis, ctx, m),
    decreases k,
{
    if k > m {
        lemma_shapes_children_err(children, offset, c, extents, offsets, axis, ctx, m, k - 1);
    }
}

impl Widget {
    /// Emit this widget's paint geometry. The `cache` parameter is the value
    /// the immediately preceding `layout` call returned.
    #[verifier::rlimit(100)]
    pub fn get_shapes(
        &self,
        offset: &Offset,
        c: &BoxConstraints,
        cache: &WidgetCache,
        ctx: &Context,
    ) -> (r: Result<Vec<UIShape>, UiError>)
        requires
            spec_wf(*self),
            c.valid(),
            cache_wf(*self, cache_model(*cache)),
        ensures
            ({
                let m = spec_get_shapes(*self, *offset, *c, cache_model(*cache), *ctx);
                match r {
                    Ok(v) => m == Ok::<Seq<ShapeModel>, UiError>(shapes_model(v@)),
                    Err(e) => m == Err::<Seq<ShapeModel>, UiError>(e),
                }
            }),
        decreases *self, 2int,
    {
        match self {
            Widget::Container(k) => {
                let size = Size { width: k.width, height: k.height }.constrain(*c);
                let v: Vec<UIShape> = vec![
                    UIShape {
                        offset: *offset,
                        size,
                        shape: ShapeType::Rectangle(RectangleShape { color: k.color }),
                    },
                ];
                proof {
                    assert(shapes_model(v@) =~= seq![shape_model(v@[0])]);
                }
                Ok(v)
            },
            Widget::Flex(f) => {
                let cc: &ChildCache = match cache {
                    WidgetCache::Flex(cc) => cc,
                    WidgetCache::Plain => {
                        proof {
                            assert(false);
                        }
                        return Err(UiError::UnknownHandle);
                    },
                    WidgetCache::Text(_) => {
                        proof {
                            assert(false);
                        }
                        return Err(UiError::UnknownHandle);
                    },
                };
                proof {
                    lemma_wf_children_index(f.children@, f.children@.len() as int);
                    assert(decreases_to!(*self => self->Flex_0));
                    assert(decreases_to!(self->Flex_0 => self->Flex_0.children));
                    assert(decreases_to!(self->Flex_0.children => self->Flex_0.children@));
                }
                flex_paint(&f.children, offset, c, cc, f.axis, ctx)
            },
            Widget::Text(t) => {
                let tc: &TextCache = match cache {
                    WidgetCache::Text(tc) => tc,
                    WidgetCache::Plain => {
                        proof {
                            assert(false);
                        }
                        return Err(UiError::UnknownHandle);
                    },
                    WidgetCache::Flex(_) => {
                        proof {
                            assert(false);
                        }
                        return Err(UiError::UnknownHandle);
                    },
                };
                let handle = t.style.handle();
                let computed = match ctx.get_style(&handle) {
                    Some(computed) => computed,
                    None => {
                        return Err(UiError::StyleNotFound);
                    },
                };
                let ghost letters = tc.letters@;
                let mut shapes: Vec<UIShape> = Vec::new();
                let mut i: usize = 0;
                proof {
                    assert(shapes_model(shapes@) =~= Seq::<ShapeModel>::empty());
                }
                while i < tc.letters.len()
                    invariant
                        i <= tc.letters@.len(),
                        letters == tc.letters@,
                        *self == Widget::Text(*t),
                        *cache == WidgetCache::Text(*tc),
                        handle == TextStyleHandle(
                            spec_style_hash(t.style.font_family@, t.style.font_size),
                        ),
                        Context::spec_style_of(
                            ctx.spec_styles(),
                            TextStyleHandle(spec_style_hash(t.style.font_family@, t.style.font_size)),
                        ) == Some(*computed),
                        spec_text_shapes(letters, t.style, *computed, *offset, i as int) == Ok::<
                            Seq<ShapeModel>,
                            UiError,
                        >(shapes_model(shapes@)),
                    decreases tc.letters@.len() - i,
                {
                    let l: LetterRect = tc.letters[i];
                    let rect = match computed.get_char_rect(l.ch) {
                        Some(rect) => rect,
                        None => {
                            proof {
                                assert(spec_text_shapes(letters, t.style, *computed, *offset, i + 1)
                                    == Err::<Seq<ShapeModel>, UiError>(UiError::UnknownHandle));
                                lemma_text_shapes_err(
                                    letters,
                                    t.style,
                                    *computed,
                                    *offset,
                                    i + 1,
                                    letters.len() as int,
                                );
                                assert(spec_text_shapes(
                                    letters,
                                    t.style,
                                    *computed,
                                    *offset,
                                    letters.len() as int,
                                ) == Err::<Seq<ShapeModel>, UiError>(UiError::UnknownHandle));
                            }
                            return Err(UiError::UnknownHandle);
                        },
                    };
                    let shape = UIShape {
                        offset: Offset { dx: l.x, dy: l.y }.add(*offset),
                        size: Size { width: l.w, height: l.h },
                        shape: ShapeType::Glyph(
                            GlyphShape {
                                character: l.ch,
                                font_family: t.style.font_family.clone(),
                                color: t.style.color,
                                text_style_handle: handle,
                                atlas_rect: rect,
                            },
                        ),
                    };
                    let ghost old_shapes = shapes@;
                    shapes.push(shape);
                    proof {
                        assert(shapes_model(shapes@) =~= shapes_model(old_shapes).push(
                            shape_model(shape),
                        ));
                        let lspec = letters[i as int];
                        assert(lspec == l);
                        assert(shape.offset == Offset { dx: lspec.x, dy: lspec.y }.spec_add(
                            *offset,
                        ));
                        assert(shape.size == (Size { width: lspec.w, height: lspec.h }));
                        assert(shape.shape->Glyph_0.font_family@ == t.style.font_family@);
                        assert(shape.shape->Glyph_0.text_style_handle == TextStyleHandle(
                            spec_style_hash(t.style.font_family@, t.style.font_size),
                        ));
                        assert(shape.shape->Glyph_0.atlas_rect == computed.spec_rect_of(
                            lspec.ch,
                        )->0);
                        assert(shape_model(shape) == (ShapeModel {
                            offset: Offset { dx: lspec.x, dy: lspec.y }.spec_add(*offset),
                            size: Size { width: lspec.w, height: lspec.h },
                            kind: ShapeKindModel::Glyph(
                                GlyphModel {
                                    character: lspec.ch,
                                    family: t.style.font_family@,
                                    color: t.style.color,
                                    handle: TextStyleHandle(
                                        spec_style_hash(t.style.font_family@, t.style.font_size),
                                    ),
                                    atlas_rect: computed.spec_rect_of(lspec.ch)->0,
                                },
                            ),
                        }));
                    }
                    i = i + 1;
                }
                Ok(shapes)
            },
        }
    }
}

} // verus!

verus! {

use crate::container::lemma_container_constraint_conformance;
use crate::widgets::spec_size_within;

/// Constraint conformance at the tree walk: a laid-out container's size
/// lies within the incoming constraints, componentwise. (A flex run or a
/// text run does not clamp its own size, so the same does not hold of
/// them: a flex run whose relaxation pass over-allocates, or a text run
/// wider than its box, can measure past the maximum.)
pub proof fn lemma_container_layout_conformance(k: Container, c: BoxConstraints, ctx: Context)
    requires
        c.valid(),
    ensures
        spec_layout(Widget::Container(k), c, ctx) matches Ok(m) ==> spec_size_within(m.size, c),
{
    let w = Widget::Container(k);
    if spec_layout(w, c, ctx) is Ok {
        match k.child {
            Some(ch) => {
                match spec_layout(*ch, c, ctx) {
                    Ok(cm) => {
                        lemma_container_constraint_conformance(k, Some(cm.size), c);
                    },
                    Err(_) => {},
                }
            },
            None => {
                lemma_container_constraint_conformance(k, None, c);
            },
        }
    }
}

} // verus!
