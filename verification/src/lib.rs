//! A retained-mode UI layout engine paired with a 2D texture-atlas packer.
//!
//! The layout engine computes geometry for a widget tree (containers, flex
//! rows/columns, word-wrapped text) under a box-constraint model; the atlas
//! packer assigns non-overlapping placements to small bitmaps and stitches
//! them into one contiguous image. All geometry is measured in integer
//! layout units; `scalar::UNBOUNDED` stands for an unbounded dimension.

pub mod error;
pub mod text_style;
pub mod texture;
pub mod atlas;
pub mod container;
pub mod context;
pub mod flex;
pub mod loader;
pub mod shape;
pub mod shelf;
pub mod stitch;
pub mod text;
pub mod texture_atlas;
pub mod scalar;
pub mod widget;
pub mod widgets;

use vstd::prelude::*;

verus! {

use crate::scalar::sat_add;

/// An additive translation accumulated while descending the widget tree.
#[derive(Clone, Copy, Debug, PartialEq, Eq, Structural)]
pub struct Offset {
    pub dx: i64,
    pub dy: i64,
}

impl Offset {
    /// The origin offset.
    pub fn zero() -> (r: Offset)
        ensures
            r == (Offset { dx: 0, dy: 0 }),
    {
        Offset { dx: 0, dy: 0 }
    }

    /// Component-wise saturating translation.
    pub fn add(self, rhs: Offset) -> (r: Offset)
        ensures
            r == self.spec_add(rhs),
    {
        Offset { dx: crate::scalar::adds(self.dx, rhs.dx), dy: crate::scalar::adds(self.dy, rhs.dy) }
    }

    /// Component-wise saturating translation, as a mathematical function.
    pub open spec fn spec_add(self, rhs: Offset) -> Offset {
        Offset {
            dx: sat_add(self.dx as int, rhs.dx as int) as i64,
            dy: sat_add(self.dy as int, rhs.dy as int) as i64,
        }
    }
}

/// Lay out a widget tree and emit its paint geometry: one `layout` call on
/// the root followed by one `get_shapes` call at the zero offset.
pub open spec fn spec_build_tree(
    root: crate::widget::Widget,
    constraints: crate::widgets::BoxConstraints,
    context: crate::context::Context,
) -> Result<Seq<crate::shape::ShapeModel>, crate::error::UiError> {
    match crate::widget::spec_layout(root, constraints, context) {
        Ok(m) => crate::widget::spec_get_shapes(
            root,
            Offset { dx: 0, dy: 0 },
            constraints,
            m.cache,
            context,
        ),
        Err(e) => Err(e),
    }
}

/// Lay out a widget tree and emit its paint geometry.
pub fn build_tree(
    root: &crate::widget::Widget,
    constraints: crate::widgets::BoxConstraints,
    context: &crate::context::Context,
) -> (r: Result<Vec<crate::shape::UIShape>, crate::error::UiError>)
    requires
        crate::widget::spec_wf(*root),
        constraints.valid(),
    ensures
        ({
            let m = spec_build_tree(*root, constraints, *context);
            match r {
                Ok(v) => m == Ok::<Seq<crate::shape::ShapeModel>, crate::error::UiError>(
                    crate::shape::shapes_model(v@),
                ),
                Err(e) => m == Err::<Seq<crate::shape::ShapeModel>, crate::error::UiError>(e),
            }
        }),
{
    let run = match root.layout(&constraints, context) {
        Ok(run) => run,
        Err(e) => {
            return Err(e);
        },
    };
    root.get_shapes(&Offset::zero(), &constraints, &run.cache, context)
}

} // verus!
