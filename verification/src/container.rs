//! The container widget: a box with a fixed (or unbounded, meaning
//! "inherit") width and height, an optional single child and a flat
//! background color.

use vstd::prelude::*;

use crate::scalar;
use crate::scalar::UNBOUNDED;
use crate::widget::Widget;
use crate::widgets::{BoxConstraints, Color, Size};

verus! {

/// A box with a fixed or unbounded extent per axis, an optional child, and
/// a background color. An unbounded extent resolves to the child's measured
/// extent on that axis.
pub struct Container {
    pub width: i64,
    pub height: i64,
    pub color: Color,
    pub constraints: Option<BoxConstraints>,
    pub child: Option<Box<Widget>>,
}

/// A fresh default container.
pub fn container() -> (r: Container)
    ensures
        r.width == 0 && r.height == 0 && r.color == Color::RGBA(0, 0, 0, 255),
        r.constraints is None && r.child is None,
{
    Container {
        width: 0,
        height: 0,
        color: Color::black(),
        constraints: None,
        child: None,
    }
}

impl Default for Container {
    /// A zero-sized opaque black container with no child.
    fn default() -> (r: Container)
        ensures
            r.width == 0 && r.height == 0 && r.color == Color::RGBA(0, 0, 0, 255),
            r.constraints is None && r.child is None,
    {
        container()
    }
}

/// The size a container resolves to: its own extent where that is finite,
/// the child's measured extent where not, clamped into the incoming
/// constraints. Without a child, its own extents clamped.
pub open spec fn spec_container_resolve(
    k: Container,
    child_size: Option<Size>,
    c: BoxConstraints,
) -> Size {
    match child_size {
        Some(cs) => Size {
            width: if scalar::spec_is_finite(k.width as int) {
                k.width
            } else {
                cs.width
            },
            height: if scalar::spec_is_finite(k.height as int) {
                k.height
            } else {
                cs.height
            },
        }.spec_constrain(c),
        None => Size { width: k.width, height: k.height }.spec_constrain(c),
    }
}

impl Container {
    /// Resolve this container's size from its child's measured size.
    pub fn resolve(&self, child_size: Option<Size>, c: &BoxConstraints) -> (r: Size)
        ensures
            r == spec_container_resolve(*self, child_size, *c),
    {
        match child_size {
            Some(cs) => {
                let w: i64 = if scalar::is_finite(self.width) {
                    self.width
                } else {
                    cs.width
                };
                let h: i64 = if scalar::is_finite(self.height) {
                    self.height
                } else {
                    cs.height
                };
                Size { width: w, height: h }.constrain(*c)
            },
            None => Size { width: self.width, height: self.height }.constrain(*c),
        }
    }

    /// Set the fixed width.
    pub fn width(self, width: i64) -> (r: Container)
        ensures
            r == (Container { width, ..self }),
    {
        Container { width, ..self }
    }

    /// Set the fixed height.
    pub fn height(self, height: i64) -> (r: Container)
        ensures
            r == (Container { height, ..self }),
    {
        Container { height, ..self }
    }

    /// Set the background color.
    pub fn color(self, color: Color) -> (r: Container)
        ensures
            r == (Container { color, ..self }),
    {
        Container { color, ..self }
    }

    /// Set the single child.
    pub fn child(self, child: Box<Widget>) -> (r: Container)
        ensures
            r == (Container { child: Some(child), ..self }),
    {
        Container { child: Some(child), ..self }
    }

    /// Declare this container's own constraints, used when a flex parent
    /// distributes space.
    pub fn constraints(self, constraints: BoxConstraints) -> (r: Container)
        ensures
            r == (Container { constraints: Some(constraints), ..self }),
    {
        Container { constraints: Some(constraints), ..self }
    }

    /// Fill the available space on both axes (unbounded extents, resolved
    /// from the child or clamped by the incoming constraints).
    pub fn fill(self) -> (r: Container)
        ensures
            r == (Container { width: UNBOUNDED as i64, height: UNBOUNDED as i64, ..self }),
    {
        Container { width: UNBOUNDED, height: UNBOUNDED, ..self }
    }
}

} // verus!

verus! {

use crate::widgets::spec_size_within;

/// Constraint conformance: whatever its declared extents and whatever its
/// child measured, a container's resolved size lies within the incoming
/// constraints, componentwise.
pub proof fn lemma_container_constraint_conformance(
    k: Container,
    child_size: Option<Size>,
    c: BoxConstraints,
)
    requires
        c.valid(),
    ensures
        spec_size_within(spec_container_resolve(k, child_size, c), c),
{
}

} // verus!
