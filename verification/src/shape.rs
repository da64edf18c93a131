//! The shapes a layout pass emits for a renderer to draw.

use vstd::prelude::*;

use crate::flex::Axis;
use crate::text_style::TextStyleHandle;
use crate::texture_atlas::Rect;
use crate::widgets::{Color, Size};
use crate::Offset;

verus! {

/// One drawable item: an absolute offset, an extent, and what to draw there.
pub struct UIShape {
    pub offset: Offset,
    pub size: Size,
    pub shape: ShapeType,
}

/// What a shape draws.
pub enum ShapeType {
    Rectangle(RectangleShape),
    Glyph(GlyphShape),
}

/// A flat colored rectangle.
pub struct RectangleShape {
    pub color: Color,
}

/// One glyph, with the atlas rectangle its bitmap currently occupies.
pub struct GlyphShape {
    pub character: char,
    pub font_family: String,
    pub color: Color,
    pub text_style_handle: TextStyleHandle,
    pub atlas_rect: Rect,
}

impl UIShape {
    /// Translate the shape by `offset`.
    pub fn offset_by(self, offset: &Offset) -> (r: UIShape)
        ensures
            r.offset == self.offset.spec_add(*offset),
            r.size == self.size,
            r.shape == self.shape,
    {
        UIShape { offset: self.offset.add(*offset), ..self }
    }

    /// Replace the shape's extent.
    pub fn set_size(self, size: Size) -> (r: UIShape)
        ensures
            r.offset == self.offset,
            r.size == size,
            r.shape == self.shape,
    {
        UIShape { size, ..self }
    }

    /// Replace the shape's extent along one axis.
    pub fn set_size_on_axis(self, s: i64, axis: Axis) -> (r: UIShape)
        ensures
            r.offset == self.offset,
            r.size == self.size.spec_set_on_axis(s as int, axis),
            r.shape == self.shape,
    {
        let mut size = self.size;
        size.set_on_axis(s, axis);
        UIShape { size, ..self }
    }
}

} // verus!

verus! {

/// The mathematical content of a glyph shape (the font family as its
/// character sequence).
pub struct GlyphModel {
    pub character: char,
    pub family: Seq<char>,
    pub color: Color,
    pub handle: TextStyleHandle,
    pub atlas_rect: Rect,
}

/// The mathematical content of a shape's kind.
pub enum ShapeKindModel {
    Rectangle(Color),
    Glyph(GlyphModel),
}

/// The mathematical content of a [`UIShape`].
pub struct ShapeModel {
    pub offset: Offset,
    pub size: Size,
    pub kind: ShapeKindModel,
}

/// The mathematical content of a [`UIShape`].
pub open spec fn shape_model(s: UIShape) -> ShapeModel {
    ShapeModel {
        offset: s.offset,
        size: s.size,
        kind: match s.shape {
            ShapeType::Rectangle(r) => ShapeKindModel::Rectangle(r.color),
            ShapeType::Glyph(g) => ShapeKindModel::Glyph(
                GlyphModel {
                    character: g.character,
                    family: g.font_family@,
                    color: g.color,
                    handle: g.text_style_handle,
                    atlas_rect: g.atlas_rect,
                },
            ),
        },
    }
}

/// The mathematical content of a shape list.
pub open spec fn shapes_model(s: Seq<UIShape>) -> Seq<ShapeModel> {
    s.map_values(|x: UIShape| shape_model(x))
}

} // verus!
