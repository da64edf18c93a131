//! Texture data: pixel formats and raw image buffers.

use vstd::prelude::*;

verus! {

/// The pixel formats the atlas and stitcher understand.
#[derive(Clone, Copy, Debug, PartialEq, Eq, Structural)]
pub enum TextureFormat {
    Rgba8Unorm,
    R8Unorm,
    Rgba16,
}

/// Bytes per pixel of a format.
pub open spec fn spec_pixel_size(f: TextureFormat) -> int {
    match f {
        TextureFormat::Rgba8Unorm => 4,
        TextureFormat::R8Unorm => 1,
        TextureFormat::Rgba16 => 8,
    }
}

impl TextureFormat {
    /// Bytes per pixel.
    pub fn pixel_size(&self) -> (r: u32)
        ensures
            r == spec_pixel_size(*self),
    {
        match self {
            TextureFormat::Rgba8Unorm => 4,
            TextureFormat::R8Unorm => 1,
            TextureFormat::Rgba16 => 8,
        }
    }
}

/// A raw image: `width * height` pixels of `format`, row-major.
pub struct Texture {
    pub data: Vec<u8>,
    pub width: u32,
    pub height: u32,
    pub format: TextureFormat,
}

impl Texture {
    /// The width in pixels.
    pub fn width(&self) -> (r: u32)
        ensures
            r == self.width,
    {
        self.width
    }

    /// The height in pixels.
    pub fn height(&self) -> (r: u32)
        ensures
            r == self.height,
    {
        self.height
    }
}

} // verus!

verus! {

use crate::atlas::{index_model, Atlas, RectHandle};
use crate::error::UiError;
use crate::stitch;
use crate::stitch::{spec_entries_ok, spec_stitched, StitchEntry};

/// Some texture's handle does not resolve in the atlas.
pub open spec fn from_atlas_handle_missing(
    textures: Seq<(RectHandle, Texture)>,
    m: Map<int, crate::atlas::Rect>,
) -> bool {
    exists|j: int|
        0 <= j < textures.len() && !m.dom().contains(index_model((#[trigger] textures[j]).0.0))
}

/// Texture `j` resolves, but does not fit: its rectangle leaves the packed
/// area, or its byte length differs from the rectangle's.
pub open spec fn from_atlas_entry_bad(
    textures: Seq<(RectHandle, Texture)>,
    m: Map<int, crate::atlas::Rect>,
    width: int,
    height: int,
    ps: int,
    j: int,
) -> bool {
    m.dom().contains(index_model(textures[j].0.0)) && ({
        let rect = m[index_model(textures[j].0.0)];
        rect.x + rect.w > width || rect.y + rect.h > height || textures[j].1.data@.len() != rect.w
            * rect.h * ps
    })
}

/// Textures `i` and `j` resolve to rectangles the separation test does not
/// tell apart.
pub open spec fn from_atlas_pair_overlap(
    textures: Seq<(RectHandle, Texture)>,
    m: Map<int, crate::atlas::Rect>,
    i: int,
    j: int,
) -> bool {
    m.dom().contains(index_model(textures[i].0.0)) && m.dom().contains(
        index_model(textures[j].0.0),
    ) && ({
        let a = m[index_model(textures[i].0.0)];
        let b = m[index_model(textures[j].0.0)];
        !stitch::spec_apart(
            a.x as int,
            a.y as int,
            a.w as int,
            a.h as int,
            b.x as int,
            b.y as int,
            b.w as int,
            b.h as int,
        )
    })
}

/// Some resolved rectangle does not fit the packed area, two resolved
/// rectangles are not told apart, or the area overflows memory.
pub open spec fn from_atlas_geometry_bad(
    textures: Seq<(RectHandle, Texture)>,
    m: Map<int, crate::atlas::Rect>,
    width: int,
    height: int,
    ps: int,
) -> bool {
    ||| exists|j: int|
        0 <= j < textures.len() && #[trigger] from_atlas_entry_bad(textures, m, width, height, ps, j)
    ||| exists|i: int, j: int|
        0 <= i < j < textures.len() && #[trigger] from_atlas_pair_overlap(textures, m, i, j)
    ||| width * height * ps > usize::MAX
}

/// Stitch entry `j` carries texture `j`'s bytes at the placed rectangle
/// its handle resolves to in the atlas.
pub open spec fn from_atlas_entry_ok(
    textures: Seq<(RectHandle, Texture)>,
    rects: Map<int, crate::atlas::Rect>,
    entries: Seq<StitchEntry>,
    j: int,
) -> bool {
    rects.dom().contains(index_model(textures[j].0.0)) && ({
        let rect = rects[index_model(textures[j].0.0)];
        entries[j].x == rect.x && entries[j].y == rect.y && entries[j].w == rect.w && entries[j].h
            == rect.h && entries[j].data@ == textures[j].1.data@
    })
}

/// Each stitch entry carries one source texture's bytes at the placed
/// rectangle its handle resolves to in the atlas.
pub open spec fn from_atlas_entries_ok(
    textures: Seq<(RectHandle, Texture)>,
    rects: Map<int, crate::atlas::Rect>,
    entries: Seq<StitchEntry>,
) -> bool {
    &&& entries.len() == textures.len()
    &&& forall|j: int|
        0 <= j < textures.len() ==> #[trigger] from_atlas_entry_ok(textures, rects, entries, j)
}

impl Texture {
    /// Compose the registered textures into one image of the packed atlas
    /// area, copying each texture row by row into its placed rectangle.
    /// Fails with [`UiError::UnknownHandle`] when a handle does not
    /// resolve, and with [`UiError::AtlasTooLarge`] when a texture does not
    /// match its rectangle, rectangles overlap or leave the atlas area, or
    /// the area does not fit in memory.
    pub fn from_atlas(atlas: &Atlas, textures: &Vec<(RectHandle, Texture)>) -> (r: Result<
        Texture,
        UiError,
    >)
        ensures
            (r is Err) == (from_atlas_handle_missing(textures@, atlas.spec_model())
                || from_atlas_geometry_bad(
                textures@,
                atlas.spec_model(),
                atlas.spec_width() as int,
                atlas.spec_height() as int,
                spec_pixel_size(atlas.spec_format()),
            )),
            r == Err::<Texture, UiError>(UiError::UnknownHandle) ==> from_atlas_handle_missing(
                textures@,
                atlas.spec_model(),
            ),
            r == Err::<Texture, UiError>(UiError::AtlasTooLarge) ==> from_atlas_geometry_bad(
                textures@,
                atlas.spec_model(),
                atlas.spec_width() as int,
                atlas.spec_height() as int,
                spec_pixel_size(atlas.spec_format()),
            ),
            r matches Err(e) ==> e == UiError::UnknownHandle || e == UiError::AtlasTooLarge,
            r matches Ok(tex) ==> tex.width == atlas.spec_width() && tex.height
                == atlas.spec_height() && tex.format == atlas.spec_format() && tex.data@.len()
                == atlas.spec_width() * atlas.spec_height() * spec_pixel_size(atlas.spec_format())
                && exists|entries: Seq<StitchEntry>|
                #[trigger] from_atlas_entries_ok(textures@, atlas.spec_model(), entries)
                    && spec_entries_ok(
                    entries,
                    atlas.spec_width() as int,
                    atlas.spec_height() as int,
                    spec_pixel_size(atlas.spec_format()),
                ) && spec_stitched(
                    entries,
                    atlas.spec_width() as int,
                    spec_pixel_size(atlas.spec_format()),
                    tex.data@,
                    atlas.spec_height() as int,
                ),
    {
        let ghost m = atlas.spec_model();
        let format: TextureFormat = atlas.pixel_format();
        let ps: u32 = format.pixel_size();
        let (width, height): (u32, u32) = atlas.size();
        let mut entries: Vec<StitchEntry> = Vec::new();
        let mut j: usize = 0;
        while j < textures.len()
            invariant
                j <= textures@.len(),
                m == atlas.spec_model(),
                ps == spec_pixel_size(atlas.spec_format()),
                0 < ps,
                width == atlas.spec_width(),
                height == atlas.spec_height(),
                from_atlas_entries_ok(textures@.take(j as int), m, entries@),
                forall|q: int|
                    0 <= q < entries@.len() ==> (#[trigger] entries@[q]).data@.len()
                        == entries@[q].w * entries@[q].h * ps && entries@[q].x + entries@[q].w
                        <= width && entries@[q].y + entries@[q].h <= height,
                forall|q1: int, q2: int|
                    0 <= q1 < q2 < entries@.len() ==> stitch::spec_apart(
                        (#[trigger] entries@[q1]).x as int,
                        entries@[q1].y as int,
                        entries@[q1].w as int,
                        entries@[q1].h as int,
                        (#[trigger] entries@[q2]).x as int,
                        entries@[q2].y as int,
                        entries@[q2].w as int,
                        entries@[q2].h as int,
                    ),
            decreases textures@.len() - j,
        {
            let handle: RectHandle = textures[j].0;
            let rect = match atlas.get_rect(handle) {
                Some(rect) => rect,
                None => {
                    proof {
                        assert(!m.dom().contains(index_model(textures@[j as int].0.0)));
                        assert(from_atlas_handle_missing(textures@, m));
                    }
                    return Err(UiError::UnknownHandle);
                },
            };
            if rect.x as u64 + rect.w as u64 > width as u64 || rect.y as u64 + rect.h as u64
                > height as u64 {
                proof {
                    assert(from_atlas_entry_bad(
                        textures@,
                        m,
                        width as int,
                        height as int,
                        ps as int,
                        j as int,
                    ));
                }
                return Err(UiError::AtlasTooLarge);
            }
            proof {
                assert(rect.w as int * rect.h as int <= 0xffff_ffff * 0xffff_ffff)
                    by (nonlinear_arith)
                    requires
                        rect.w <= 0xffff_ffff,
                        rect.h <= 0xffff_ffff,
                ;
                assert(rect.w as int * rect.h as int * ps as int <= 0xffff_ffff * 0xffff_ffff
                    * 0xffff_ffff) by (nonlinear_arith)
                    requires
                        rect.w as int * rect.h as int <= 0xffff_ffff * 0xffff_ffff,
                        ps <= 0xffff_ffff,
                        0 <= rect.w as int * rect.h as int,
                ;
            }
            if textures[j].1.data.len() as u128 != rect.w as u128 * rect.h as u128 * ps as u128 {
                proof {
                    assert(from_atlas_entry_bad(
                        textures@,
                        m,
                        width as int,
                        height as int,
                        ps as int,
                        j as int,
                    ));
                }
                return Err(UiError::AtlasTooLarge);
            }
            let entry = StitchEntry {
                x: rect.x,
                y: rect.y,
                w: rect.w,
                h: rect.h,
                data: crate::texture_atlas::copy_image_bytes(&textures[j].1.data),
            };
            let mut q: usize = 0;
            while q < entries.len()
                invariant
                    q <= entries@.len(),
                    j < textures@.len(),
                    m == atlas.spec_model(),
                    m.dom().contains(index_model(textures@[j as int].0.0)),
                    rect == m[index_model(textures@[j as int].0.0)],
                    from_atlas_entries_ok(textures@.take(j as int), m, entries@),
                    forall|q2: int|
                        0 <= q2 < q ==> stitch::spec_apart(
                            (#[trigger] entries@[q2]).x as int,
                            entries@[q2].y as int,
                            entries@[q2].w as int,
                            entries@[q2].h as int,
                            entry.x as int,
                            entry.y as int,
                            entry.w as int,
                            entry.h as int,
                        ),
                    entry.data@ == textures@[j as int].1.data@,
                    entry.x == rect.x && entry.y == rect.y && entry.w == rect.w && entry.h
                        == rect.h,
                decreases entries@.len() - q,
            {
                if !crate::texture_atlas::stitch_entries_disjoint(&entries[q], &entry) {
                    proof {
                        assert(from_atlas_entry_ok(
                            textures@.take(j as int),
                            m,
                            entries@,
                            q as int,
                        ));
                        assert(textures@.take(j as int)[q as int] == textures@[q as int]);
                        assert(from_atlas_pair_overlap(textures@, m, q as int, j as int));
                    }
                    return Err(UiError::AtlasTooLarge);
                }
                q = q + 1;
            }
            let ghost old_entries = entries@;
            entries.push(entry);
            proof {
                assert(textures@.take(j + 1) =~= textures@.take(j as int).push(
                    textures@[j as int],
                ));
                assert(from_atlas_entries_ok(
                    textures@.take(j + 1),
                    atlas.spec_model(),
                    entries@,
                )) by {
                    assert(textures@.take(j + 1)[j as int] == textures@[j as int]);
                    assert forall|q2: int| 0 <= q2 < j + 1 implies #[trigger] from_atlas_entry_ok(
                        textures@.take(j + 1),
                        atlas.spec_model(),
                        entries@,
                        q2,
                    ) by {
                        if q2 < j {
                            assert(from_atlas_entry_ok(
                                textures@.take(j as int),
                                atlas.spec_model(),
                                old_entries,
                                q2,
                            ));
                            assert(textures@.take(j as int)[q2] == textures@.take(j + 1)[q2]);
                            assert(entries@[q2] == old_entries[q2]);
                        }
                    }
                }
            }
            j = j + 1;
        }
        proof {
            assert(width as int * height as int <= 0xffff_ffff * 0xffff_ffff) by (nonlinear_arith)
                requires
                    width <= 0xffff_ffff,
                    height <= 0xffff_ffff,
            ;
            assert(width as int * height as int * ps as int <= 0xffff_ffff * 0xffff_ffff
                * 0xffff_ffff) by (nonlinear_arith)
                requires
                    width as int * height as int <= 0xffff_ffff * 0xffff_ffff,
                    ps <= 0xffff_ffff,
                    0 <= width as int * height as int,
            ;
        }
        if width as u128 * height as u128 * ps as u128 > usize::MAX as u128 {
            return Err(UiError::AtlasTooLarge);
        }
        proof {
            assert(textures@.take(textures@.len() as int) =~= textures@);
            assert(from_atlas_entries_ok(textures@, m, entries@));
            assert(!from_atlas_handle_missing(textures@, m)) by {
                assert forall|j2: int| 0 <= j2 < textures@.len() implies m.dom().contains(
                    index_model((#[trigger] textures@[j2]).0.0),
                ) by {
                    assert(from_atlas_entry_ok(textures@, m, entries@, j2));
                }
            }
            assert(!from_atlas_geometry_bad(
                textures@,
                m,
                width as int,
                height as int,
                ps as int,
            )) by {
                assert forall|j2: int| 0 <= j2 < textures@.len() implies !(
                #[trigger] from_atlas_entry_bad(
                    textures@,
                    m,
                    width as int,
                    height as int,
                    ps as int,
                    j2,
                )) by {
                    assert(from_atlas_entry_ok(textures@, m, entries@, j2));
                    assert(entries@[j2].data@.len() == entries@[j2].w * entries@[j2].h * ps);
                }
                assert forall|i2: int, j2: int| 0 <= i2 < j2 < textures@.len() implies !(
                #[trigger] from_atlas_pair_overlap(textures@, m, i2, j2)) by {
                    assert(from_atlas_entry_ok(textures@, m, entries@, i2));
                    assert(from_atlas_entry_ok(textures@, m, entries@, j2));
                    assert(stitch::spec_apart(
                        entries@[i2].x as int,
                        entries@[i2].y as int,
                        entries@[i2].w as int,
                        entries@[i2].h as int,
                        entries@[j2].x as int,
                        entries@[j2].y as int,
                        entries@[j2].w as int,
                        entries@[j2].h as int,
                    ));
                }
            }
            assert(spec_entries_ok(entries@, width as int, height as int, ps as int)) by {
                assert forall|q1: int, q2: int| 0 <= q1 < q2 < entries@.len() implies
                    stitch::spec_no_overlap(
                    #[trigger] entries@[q1],
                    #[trigger] entries@[q2],
                ) by {
                    stitch::lemma_apart_no_overlap(entries@[q1], entries@[q2]);
                }
            }
        }
        let data = stitch::stitch(width, height, ps, &entries);
        Ok(Texture { data, width, height, format })
    }
}

} // verus!
