//! Geometry value types shared by all widgets: colors, sizes and the
//! box-constraint model that is passed top-down through the tree.

use vstd::prelude::*;

use crate::flex::Axis;
use crate::scalar;

verus! {

/// A flat color, one byte per channel.
#[derive(Clone, Copy, Debug, PartialEq, Eq, Structural)]
pub enum Color {
    RGBA(u8, u8, u8, u8),
}

impl Color {
    /// The four channels in `[red, green, blue, alpha]` order.
    pub fn as_rgba_u8(&self) -> (r: [u8; 4])
        ensures
            *self matches Color::RGBA(red, green, blue, alpha) && r@ == seq![red, green, blue, alpha],
    {
        match self {
            Color::RGBA(red, green, blue, alpha) => {
                let r = [*red, *green, *blue, *alpha];
                proof {
                    assert(r@ =~= seq![*red, *green, *blue, *alpha]);
                }
                r
            },
        }
    }

    /// Opaque black, the default.
    pub fn black() -> (r: Color)
        ensures
            r == Color::RGBA(0, 0, 0, 255),
    {
        Color::RGBA(0, 0, 0, 255)
    }
}

/// A two-dimensional extent in layout units. Non-negative in every valid
/// state; `UNBOUNDED` on an axis means "unbounded" on that axis.
#[derive(Clone, Copy, Debug, PartialEq, Eq, Structural)]
pub struct Size {
    pub width: i64,
    pub height: i64,
}

impl Size {
    /// Both dimensions are non-negative.
    pub open spec fn valid(self) -> bool {
        0 <= self.width && 0 <= self.height
    }

    /// The extent along the given axis.
    pub open spec fn spec_on_axis(self, axis: Axis) -> int {
        match axis {
            Axis::Horizontal => self.width as int,
            Axis::Vertical => self.height as int,
        }
    }

    pub fn new(width: i64, height: i64) -> (r: Size)
        ensures
            r == (Size { width, height }),
    {
        Size { width, height }
    }

    /// Clamp each dimension independently into `[min, max]` of `constraints`.
    pub fn constrain(&self, constraints: BoxConstraints) -> (r: Size)
        ensures
            r == self.spec_constrain(constraints),
    {
        Size {
            width: scalar::clamp(self.width, constraints.min.width, constraints.max.width),
            height: scalar::clamp(self.height, constraints.min.height, constraints.max.height),
        }
    }

    /// The result of clamping into the constraint box.
    pub open spec fn spec_constrain(self, c: BoxConstraints) -> Size {
        Size {
            width: scalar::spec_clamp(
                self.width as int,
                c.min.width as int,
                c.max.width as int,
            ) as i64,
            height: scalar::spec_clamp(
                self.height as int,
                c.min.height as int,
                c.max.height as int,
            ) as i64,
        }
    }

    /// The extent along the given axis.
    pub fn on_axis(&self, axis: Axis) -> (r: i64)
        ensures
            r == self.spec_on_axis(axis),
    {
        match axis {
            Axis::Horizontal => self.width,
            Axis::Vertical => self.height,
        }
    }

    /// Replace the extent along the given axis.
    pub fn set_on_axis(&mut self, s: i64, axis: Axis)
        ensures
            *final(self) == old(self).spec_set_on_axis(s as int, axis),
    {
        match axis {
            Axis::Horizontal => self.width = s,
            Axis::Vertical => self.height = s,
        }
    }

    /// The size with the extent along `axis` replaced by `s`.
    pub open spec fn spec_set_on_axis(self, s: int, axis: Axis) -> Size {
        match axis {
            Axis::Horizontal => Size { width: s as i64, ..self },
            Axis::Vertical => Size { height: s as i64, ..self },
        }
    }
}

/// The interval of sizes a widget may occupy: `min` component-wise below
/// `max`. Constraints flow down the tree; a laid-out widget's size is meant
/// to land inside them.
#[derive(Clone, Copy, Debug, PartialEq, Eq, Structural)]
pub struct BoxConstraints {
    pub min: Size,
    pub max: Size,
}

impl BoxConstraints {
    /// Well-formed constraints: non-negative and ordered on each axis.
    pub open spec fn valid(self) -> bool {
        &&& self.min.valid()
        &&& self.min.width <= self.max.width
        &&& self.min.height <= self.max.height
    }

    /// The minimum extent along the given axis.
    pub open spec fn spec_min_on_axis(self, axis: Axis) -> int {
        self.min.spec_on_axis(axis)
    }

    /// The maximum extent along the given axis.
    pub open spec fn spec_max_on_axis(self, axis: Axis) -> int {
        self.max.spec_on_axis(axis)
    }

    pub fn new(min: Size, max: Size) -> (r: BoxConstraints)
        ensures
            r == (BoxConstraints { min, max }),
    {
        BoxConstraints { min, max }
    }

    /// The tight constraint forcing exactly `size`.
    pub fn tight(size: Size) -> (r: BoxConstraints)
        ensures
            r == (BoxConstraints { min: size, max: size }),
    {
        BoxConstraints { min: size, max: size }
    }

    pub fn min_on_axis(&self, axis: Axis) -> (r: i64)
        ensures
            r == self.spec_min_on_axis(axis),
    {
        self.min.on_axis(axis)
    }

    pub fn max_on_axis(&self, axis: Axis) -> (r: i64)
        ensures
            r == self.spec_max_on_axis(axis),
    {
        self.max.on_axis(axis)
    }

    /// Whether the maximum on the given axis is bounded (finite).
    pub fn bound_max(&self, axis: Axis) -> (r: bool)
        ensures
            r == scalar::spec_is_finite(self.spec_max_on_axis(axis)),
    {
        scalar::is_finite(self.max.on_axis(axis))
    }

    /// Whether a positive minimum is declared on the given axis.
    pub fn bound_min(&self, axis: Axis) -> (r: bool)
        ensures
            r == (self.spec_min_on_axis(axis) > 0),
    {
        self.min.on_axis(axis) > 0
    }
}

} // verus!

verus! {

/// `s` lies within the constraint box, componentwise.
pub open spec fn spec_size_within(s: Size, c: BoxConstraints) -> bool {
    &&& c.min.width <= s.width <= c.max.width
    &&& c.min.height <= s.height <= c.max.height
}

/// Constraint conformance: clamping any size into valid constraints yields
/// a size within them, componentwise.
pub proof fn lemma_constrain_conformance(s: Size, c: BoxConstraints)
    requires
        c.valid(),
    ensures
        spec_size_within(s.spec_constrain(c), c),
{
}

} // verus!
