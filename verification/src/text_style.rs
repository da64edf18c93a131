//! Text styles and the per-style computed data (glyph atlas and metrics).
//!
//! Rasterizing glyphs is the job of an outside font engine; this module
//! consumes its plain results (per-character metrics and bitmaps) and owns
//! the bookkeeping: a deterministic style handle used as a cache key, the
//! per-style glyph atlas, and metric lookups.

use vstd::prelude::*;

use crate::texture_atlas::{Image, Rect, TextureAtlas};
use crate::widgets::Color;

verus! {

/// A deterministic cache key derived from a style's font family and size.
#[derive(Clone, Copy, Debug, PartialEq, Eq, Hash, Structural)]
pub struct TextStyleHandle(pub u32);

/// Integer glyph metrics, in layout units (pixels).
///
/// `width`/`height` bound the glyph bitmap; `advance_width`/`advance_height`
/// are the pen advances; `xmin`/`ymin` the bitmap offsets from the pen
/// position.
#[derive(Clone, Copy, Debug, PartialEq, Eq, Structural)]
pub struct Metrics {
    pub width: u32,
    pub height: u32,
    pub advance_width: u32,
    pub advance_height: u32,
    pub xmin: i32,
    pub ymin: i32,
}

/// A text style: font family, pixel size and color.
#[derive(Clone)]
pub struct TextStyle {
    pub font_family: String,
    pub font_size: u32,
    pub color: Color,
}

/// The FNV-1a offset basis (32-bit).
pub const FNV_BASIS: u32 = 0x811c_9dc5;

/// The FNV-1a prime (32-bit).
pub const FNV_PRIME: u32 = 0x0100_0193;

/// One FNV-1a round absorbing a 32-bit value.
pub open spec fn spec_fnv_step(h: u32, v: u32) -> u32 {
    (((h ^ v) as int * FNV_PRIME as int) % 0x1_0000_0000) as u32
}

/// FNV-1a over the first `n` characters of `s`, starting from `h`.
pub open spec fn spec_fnv_chars(h: u32, s: Seq<char>, n: int) -> u32
    decreases n,
{
    if 0 < n <= s.len() {
        spec_fnv_step(spec_fnv_chars(h, s, n - 1), s[n - 1] as u32)
    } else {
        h
    }
}

/// The handle value of a `(font_family, font_size)` pair.
pub open spec fn spec_style_hash(family: Seq<char>, font_size: u32) -> u32 {
    spec_fnv_step(spec_fnv_chars(FNV_BASIS, family, family.len() as int), font_size)
}

/// One FNV-1a round absorbing a 32-bit value.
fn fnv_step(h: u32, v: u32) -> (r: u32)
    ensures
        r == spec_fnv_step(h, v),
{
    let hv: u64 = (h ^ v) as u64;
    let x: u64 = hv * FNV_PRIME as u64;
    (x % 0x1_0000_0000) as u32
}

impl TextStyle {
    pub fn new(color: Color, font_family: String, font_size: u32) -> (r: TextStyle)
        ensures
            r.color == color,
            r.font_family@ == font_family@,
            r.font_size == font_size,
    {
        TextStyle { color, font_family, font_size }
    }

    /// The deterministic cache key of this style: an FNV-1a hash of the font
    /// family's characters followed by the font size.
    pub fn handle(&self) -> (r: TextStyleHandle)
        ensures
            r.0 == spec_style_hash(self.font_family@, self.font_size),
    {
        let s: &str = self.font_family.as_str();
        let n: usize = s.unicode_len();
        let mut h: u32 = FNV_BASIS;
        let mut i: usize = 0;
        while i < n
            invariant
                i <= n,
                n == s@.len(),
                s@ == self.font_family@,
                h == spec_fnv_chars(FNV_BASIS, s@, i as int),
            decreases n - i,
        {
            let c: char = s.get_char(i);
            h = fnv_step(h, c as u32);
            i = i + 1;
        }
        TextStyleHandle(fnv_step(h, self.font_size))
    }
}

impl TextStyle {
    /// The computed data registered for this style in the shared context,
    /// or [`UiError::StyleNotFound`] when none has been registered.
    /// Computing a style (rasterizing its glyphs) happens outside a layout
    /// pass; a pass only looks the result up.
    pub fn compute<'a>(&self, context: &'a crate::context::Context) -> (r: Result<
        &'a TextStyleComputed,
        UiError,
    >)
        ensures
            ({
                let looked = crate::context::Context::spec_style_of(
                    context.spec_styles(),
                    TextStyleHandle(spec_style_hash(self.font_family@, self.font_size)),
                );
                match r {
                    Ok(computed) => looked == Some(*computed),
                    Err(e) => looked is None && e == UiError::StyleNotFound,
                }
            }),
    {
        let handle = self.handle();
        match context.get_style(&handle) {
            Some(computed) => Ok(computed),
            None => Err(UiError::StyleNotFound),
        }
    }
}

impl Default for TextStyle {
    /// Black 20-pixel text in the `Roboto` family.
    fn default() -> (r: TextStyle)
        ensures
            r.color == Color::RGBA(0, 0, 0, 255),
            r.font_family@ == "Roboto"@,
            r.font_size == 20,
    {
        TextStyle { color: Color::black(), font_family: "Roboto".to_owned(), font_size: 20 }
    }
}

/// The computed data of one text style: the composed glyph image, the glyph
/// atlas with per-character rectangles, and per-character metrics.
pub struct TextStyleComputed {
    font_image: Image,
    atlas: TextureAtlas,
    char_metrics: Vec<(char, Metrics)>,
}

impl TextStyleComputed {
    /// The per-character metric table, in registration order.
    pub closed spec fn spec_metrics(self) -> Seq<(char, Metrics)> {
        self.char_metrics@
    }

    /// The glyph atlas.
    pub closed spec fn spec_atlas(self) -> TextureAtlas {
        self.atlas
    }

    /// First metrics entry recorded for `c`, if any.
    pub open spec fn spec_metrics_of(table: Seq<(char, Metrics)>, c: char) -> Option<Metrics>
        decreases table.len(),
    {
        if table.len() == 0 {
            None
        } else if table[0].0 == c {
            Some(table[0].1)
        } else {
            Self::spec_metrics_of(table.drop_first(), c)
        }
    }

    /// The atlas rectangle of `c`, if the atlas knows the character.
    pub open spec fn spec_rect_of(self, c: char) -> Option<Rect> {
        match self.spec_atlas().spec_keys() {
            Some(keys) => TextureAtlas::spec_rect_of(keys, c),
            None => None,
        }
    }

    /// The composed glyph image.
    pub closed spec fn spec_image(self) -> Image {
        self.font_image
    }

    /// The composed glyph image.
    pub fn image(&self) -> (r: &Image)
        ensures
            *r == self.spec_image(),
    {
        &self.font_image
    }

    /// The placed atlas rectangle of a character.
    pub fn get_char_rect(&self, c: char) -> (r: Option<Rect>)
        ensures
            r == self.spec_rect_of(c),
    {
        self.atlas.get_rect(c)
    }

    /// The metrics of a character.
    pub fn get_char_metrics(&self, c: char) -> (r: Option<Metrics>)
        ensures
            r == Self::spec_metrics_of(self.spec_metrics(), c),
    {
        let mut i: usize = 0;
        proof {
            assert(self.char_metrics@.skip(0int) =~= self.char_metrics@);
        }
        while i < self.char_metrics.len()
            invariant
                i <= self.char_metrics@.len(),
                Self::spec_metrics_of(self.char_metrics@, c) == Self::spec_metrics_of(
                    self.char_metrics@.skip(i as int),
                    c,
                ),
            decreases self.char_metrics@.len() - i,
        {
            proof {
                assert(self.char_metrics@.skip(i as int).drop_first() =~= self.char_metrics@.skip(
                    i + 1,
                ));
            }
            if self.char_metrics[i].0 == c {
                return Some(self.char_metrics[i].1);
            }
            i = i + 1;
        }
        proof {
            assert(self.char_metrics@.skip(self.char_metrics@.len() as int) =~= Seq::<(
                char,
                Metrics,
            )>::empty());
        }
        None
    }
}

} // verus!

verus! {

use crate::error::UiError;
use crate::shelf::{dims_order, spec_packed_height, Dims};
use crate::stitch::{spec_entries_ok, spec_stitched, StitchEntry};
use crate::texture_atlas::{
    merge_bitmap_bad, merge_char_missing, merge_entries_ok, merge_entry_ok, merge_fails,
    merge_handle_missing, merge_pair_overlap, spec_key_table, ta_dims, TextureHandle,
    TEXTURE_ATLAS_WIDTH,
};

/// The glyph bitmap dimensions, tagged with registration positions.
pub open spec fn glyph_dims(glyphs: Seq<(char, Metrics, Vec<u8>)>) -> Seq<Dims> {
    Seq::new(
        glyphs.len(),
        |i: int| Dims { pos: i as usize, w: glyphs[i].1.width, h: glyphs[i].1.height },
    )
}

/// The height the glyph atlas packs to at the fixed packing width.
pub open spec fn spec_glyph_pack_height(glyphs: Seq<(char, Metrics, Vec<u8>)>) -> int {
    spec_packed_height(glyph_dims(glyphs).sort_by(dims_order()), TEXTURE_ATLAS_WIDTH as int)
}

/// Stitch entry `j` places glyph `j`'s bitmap at its character's table
/// rectangle.
pub open spec fn glyph_entry_ok(
    glyphs: Seq<(char, Metrics, Vec<u8>)>,
    table: Seq<(char, Rect)>,
    entries: Seq<StitchEntry>,
    j: int,
) -> bool {
    TextureAtlas::spec_rect_of(table, glyphs[j].0) matches Some(rect) && entries[j].x == rect.x
        && entries[j].y == rect.y && entries[j].w == rect.w && entries[j].h == rect.h
        && entries[j].data@ == glyphs[j].2@
}

/// The stitch entries place each glyph's bitmap at its character's table
/// rectangle.
pub open spec fn glyph_entries_ok(
    glyphs: Seq<(char, Metrics, Vec<u8>)>,
    table: Seq<(char, Rect)>,
    entries: Seq<StitchEntry>,
) -> bool {
    &&& entries.len() == glyphs.len()
    &&& forall|j: int|
        0 <= j < glyphs.len() ==> #[trigger] glyph_entry_ok(glyphs, table, entries, j)
}

/// Why building a style's computed data fails: a glyph wider than the
/// packing width, a bitmap whose byte length differs from its metrics'
/// area, a packed height past the pixel coordinate range, or a packed area
/// too large for memory.
pub open spec fn style_build_fails(glyphs: Seq<(char, Metrics, Vec<u8>)>) -> bool {
    ||| exists|i: int|
        0 <= i < glyphs.len() && ((#[trigger] glyphs[i]).1.width > TEXTURE_ATLAS_WIDTH
            || glyphs[i].2@.len() != glyphs[i].1.width * glyphs[i].1.height)
    ||| (glyphs.len() > 0 && spec_glyph_pack_height(glyphs) > i32::MAX)
    ||| (glyphs.len() > 0 && TEXTURE_ATLAS_WIDTH * spec_glyph_pack_height(glyphs) > usize::MAX)
}

/// With distinct characters, bounded glyphs and a packed atlas, every key
/// and character of the glyph tables resolves, the resolved rectangles
/// carry the glyph dimensions and fit the packed area, and no merge
/// failure condition holds.
proof fn lemma_style_atlas_ready(
    glyphs: Seq<(char, Metrics, Vec<u8>)>,
    rects0: Seq<(Rect, TextureHandle)>,
    new_rects: Seq<(Rect, TextureHandle)>,
    keys: Seq<(char, TextureHandle)>,
    bitmaps: Seq<(char, Image)>,
    aw: int,
    ah: int,
)
    requires
        glyphs.len() < u32::MAX,
        forall|i: int, j: int|
            0 <= i < j < glyphs.len() ==> (#[trigger] glyphs[i]).0 != (#[trigger] glyphs[j]).0,
        forall|i: int|
            0 <= i < glyphs.len() ==> (#[trigger] glyphs[i]).1.width <= TEXTURE_ATLAS_WIDTH
                && glyphs[i].2@.len() == glyphs[i].1.width * glyphs[i].1.height
                && glyphs[i].1.width <= i32::MAX && glyphs[i].1.height <= i32::MAX,
        rects0.len() == glyphs.len(),
        forall|k: int|
            0 <= k < glyphs.len() ==> (#[trigger] rects0[k]) == (
            Rect { x: 0, y: 0, w: glyphs[k].1.width as i32, h: glyphs[k].1.height as i32 },
            k as u32,
            ),
        keys.len() == glyphs.len(),
        forall|k: int|
            0 <= k < glyphs.len() ==> (#[trigger] keys[k]) == (glyphs[k].0, k as u32),
        bitmaps.len() == glyphs.len(),
        forall|k: int|
            0 <= k < glyphs.len() ==> (#[trigger] bitmaps[k]).0 == glyphs[k].0
                && bitmaps[k].1.data@ == glyphs[k].2@,
        glyphs.len() > 0 ==> crate::texture_atlas::ta_pack_spec(rects0, new_rects, ah) && aw
            == TEXTURE_ATLAS_WIDTH,
        glyphs.len() == 0 ==> new_rects == rects0 && aw == 0 && ah == 0,
        0 <= ah <= i32::MAX,
        aw * ah <= usize::MAX,
    ensures
        !merge_fails(bitmaps, keys, new_rects, aw, ah),
        spec_key_table(keys, new_rects, keys.len() as int) matches Some(t) && t.len()
            == glyphs.len() && (forall|i: int|
            0 <= i < glyphs.len() ==> (TextureAtlas::spec_rect_of(t, (#[trigger] glyphs[i]).0)
                matches Some(rect) && rect.w == glyphs[i].1.width && rect.h == glyphs[i].1.height
                && rect.x >= 0 && rect.y >= 0 && rect.x + rect.w <= aw && rect.y + rect.h <= ah)),
{
    let n = glyphs.len() as int;
    if n == 0 {
        assert(spec_key_table(keys, new_rects, 0) == Some(Seq::<(char, Rect)>::empty()));
        assert(!merge_fails(bitmaps, keys, new_rects, aw, ah));
    } else {
        let d = ta_dims(rects0);
        let sorted = d.sort_by(dims_order());
        let st = crate::shelf::spec_place(sorted, TEXTURE_ATLAS_WIDTH as int, sorted.len() as int);
        assert forall|p: int| 0 <= p < d.len() implies (#[trigger] d[p]).pos == p && d[p].w
            == glyphs[p].1.width && d[p].h == glyphs[p].1.height by {
            assert(rects0[p] == (
                Rect { x: 0, y: 0, w: glyphs[p].1.width as i32, h: glyphs[p].1.height as i32 },
                p as u32,
            ));
            assert(d[p] == Dims {
                pos: p as usize,
                w: rects0[p].0.w as u32,
                h: rects0[p].0.h as u32,
            });
        }
        crate::atlas::lemma_pos_perm(d);
        crate::shelf::lemma_dims_order_total();
        d.lemma_sort_by_ensures(dims_order());
        crate::shelf::lemma_place_inv(sorted, TEXTURE_ATLAS_WIDTH as int, sorted.len() as int);
        crate::shelf::lemma_place_disjoint(sorted, TEXTURE_ATLAS_WIDTH as int);
        // the packed entries carry pairwise distinct handles
        assert forall|k1: int, k2: int| 0 <= k1 < k2 < new_rects.len() implies (
        #[trigger] new_rects[k1]).1 != (#[trigger] new_rects[k2]).1 by {
            assert(sorted[k1].pos != sorted[k2].pos);
            assert(new_rects[k1].1 == rects0[sorted[k1].pos as int].1);
            assert(new_rects[k2].1 == rects0[sorted[k2].pos as int].1);
        }
        // every key's handle resolves to the slot that carries it
        assert forall|k: int| 0 <= k < n implies TextureAtlas::spec_find_handle(
            new_rects,
            (#[trigger] keys[k]).1,
        ) == Some(new_rects[crate::atlas::pos_slot(sorted, k) as int]) by {
            assert(crate::atlas::has_pos(sorted, k));
            let kk = crate::atlas::pos_slot(sorted, k);
            assert(0 <= kk < sorted.len() && sorted[kk].pos == k);
            assert(new_rects[kk].1 == rects0[k].1);
            crate::texture_atlas::lemma_find_handle_distinct(new_rects, kk);
        }
        crate::texture_atlas::lemma_key_table_content(keys, new_rects, n);
        let t = spec_key_table(keys, new_rects, n)->0;
        assert forall|k: int| 0 <= k < n implies (#[trigger] t[k]) == (
            glyphs[k].0,
            new_rects[crate::atlas::pos_slot(sorted, k) as int].0,
        ) by {}
        // the per-character rectangles: the glyph's dimensions, inside the area
        assert forall|jj: int| 0 <= jj < n implies (TextureAtlas::spec_rect_of(
            t,
            (#[trigger] glyphs[jj]).0,
        ) matches Some(rect) && rect == new_rects[crate::atlas::pos_slot(sorted, jj) as int].0
            && rect.w == glyphs[jj].1.width && rect.h == glyphs[jj].1.height && rect.x >= 0
            && rect.y >= 0 && rect.x + rect.w <= aw && rect.y + rect.h <= ah) by {
            assert forall|i1: int, i2: int| 0 <= i1 < i2 < t.len() implies (#[trigger] t[i1]).0
                != (#[trigger] t[i2]).0 by {
                assert(t[i1].0 == glyphs[i1].0 && t[i2].0 == glyphs[i2].0);
            }
            assert(t[jj].0 == glyphs[jj].0);
            crate::texture_atlas::lemma_rect_of_at(t, jj);
            let kk = crate::atlas::pos_slot(sorted, jj);
            assert(crate::atlas::has_pos(sorted, jj));
            assert(0 <= kk < sorted.len() && sorted[kk].pos == jj);
            assert(sorted[kk] == d[jj]);
            assert(new_rects[kk] == (
                Rect {
                    x: st.placed[kk].0 as i32,
                    y: st.placed[kk].1 as i32,
                    w: sorted[kk].w as i32,
                    h: sorted[kk].h as i32,
                },
                rects0[jj].1,
            ));
            assert(0 <= st.placed[kk].0 && 0 <= st.placed[kk].1);
            assert(st.placed[kk].0 == 0 || st.placed[kk].0 + sorted[kk].w
                < TEXTURE_ATLAS_WIDTH as int);
            assert(st.placed[kk].1 + sorted[kk].h <= crate::shelf::spec_packed_height(
                sorted,
                TEXTURE_ATLAS_WIDTH as int,
            ));
        }
        // no merge failure condition holds
        assert(!merge_handle_missing(keys, new_rects));
        assert(!merge_char_missing(bitmaps, t)) by {
            assert forall|j: int| 0 <= j < bitmaps.len() implies TextureAtlas::spec_rect_of(
                t,
                (#[trigger] bitmaps[j]).0,
            ) is Some by {
                assert(bitmaps[j].0 == glyphs[j].0);
            }
        }
        assert forall|j: int| 0 <= j < bitmaps.len() implies !(#[trigger] merge_bitmap_bad(
            bitmaps,
            t,
            aw,
            ah,
            j,
        )) by {
            assert(bitmaps[j].0 == glyphs[j].0);
            assert(bitmaps[j].1.data@ == glyphs[j].2@);
        }
        assert forall|i: int, j: int| 0 <= i < j < bitmaps.len() implies !(
        #[trigger] merge_pair_overlap(bitmaps, t, i, j)) by {
            assert(bitmaps[i].0 == glyphs[i].0 && bitmaps[j].0 == glyphs[j].0);
            let ki = crate::atlas::pos_slot(sorted, i);
            let kj = crate::atlas::pos_slot(sorted, j);
            assert(crate::atlas::has_pos(sorted, i));
            assert(crate::atlas::has_pos(sorted, j));
            assert(0 <= ki < sorted.len() && sorted[ki].pos == i);
            assert(0 <= kj < sorted.len() && sorted[kj].pos == j);
            assert(ki != kj);
            if ki < kj {
                assert(crate::shelf::spec_disjoint(
                    st.placed[ki].0,
                    st.placed[ki].1,
                    sorted[ki].w as int,
                    sorted[ki].h as int,
                    st.placed[kj].0,
                    st.placed[kj].1,
                    sorted[kj].w as int,
                    sorted[kj].h as int,
                ));
            } else {
                assert(crate::shelf::spec_disjoint(
                    st.placed[kj].0,
                    st.placed[kj].1,
                    sorted[kj].w as int,
                    sorted[kj].h as int,
                    st.placed[ki].0,
                    st.placed[ki].1,
                    sorted[ki].w as int,
                    sorted[ki].h as int,
                ));
            }
        }
        assert(!merge_fails(bitmaps, keys, new_rects, aw, ah));
    }
}

impl TextStyleComputed {
    /// Build the computed data of a style from rasterized glyphs (one entry
    /// per character): register each glyph bitmap with a fresh atlas, pack
    /// it, compose the composite glyph image, and record the per-character
    /// metrics. Fails, with [`UiError::AtlasTooLarge`], exactly when a
    /// glyph is wider than the packing width, a bitmap does not match its
    /// metrics, or the packed atlas outgrows the coordinate range or
    /// memory; afterwards every character's atlas rectangle carries its
    /// bitmap's dimensions.
    pub fn new(glyphs: Vec<(char, Metrics, Vec<u8>)>) -> (r: Result<TextStyleComputed, UiError>)
        requires
            glyphs@.len() < u32::MAX,
            forall|i: int|
                0 <= i < glyphs@.len() ==> (#[trigger] glyphs@[i]).1.width <= i32::MAX
                    && glyphs@[i].1.height <= i32::MAX,
            forall|i: int, j: int|
                0 <= i < j < glyphs@.len() ==> (#[trigger] glyphs@[i]).0 != (
                #[trigger] glyphs@[j]).0,
        ensures
            (r is Err) == style_build_fails(glyphs@),
            r matches Err(e) ==> e == UiError::AtlasTooLarge,
            r matches Ok(computed) ==> computed.spec_metrics() == Seq::new(
                glyphs@.len(),
                |i: int| (glyphs@[i].0, glyphs@[i].1),
            ) && (computed.spec_atlas().spec_keys() matches Some(table) && (forall|i: int|
                0 <= i < glyphs@.len() ==> (TextureAtlas::spec_rect_of(
                    table,
                    (#[trigger] glyphs@[i]).0,
                ) matches Some(rect) && rect.w == glyphs@[i].1.width && rect.h
                    == glyphs@[i].1.height && rect.x >= 0 && rect.y >= 0))
                && computed.spec_image().width == computed.spec_atlas().spec_width()
                && computed.spec_image().height == computed.spec_atlas().spec_height()
                && computed.spec_image().data@.len() == computed.spec_atlas().spec_width()
                * computed.spec_atlas().spec_height() && (exists|entries: Seq<StitchEntry>|
                #[trigger] glyph_entries_ok(glyphs@, table, entries) && spec_entries_ok(
                    entries,
                    computed.spec_atlas().spec_width() as int,
                    computed.spec_atlas().spec_height() as int,
                    1,
                ) && spec_stitched(
                    entries,
                    computed.spec_atlas().spec_width() as int,
                    1,
                    computed.spec_image().data@,
                    computed.spec_atlas().spec_height() as int,
                ))),
    {
        let n = glyphs.len();
        let mut atlas = TextureAtlas::new();
        let mut char_to_handle: Vec<(char, TextureHandle)> = Vec::new();
        let mut images: Vec<(char, Image)> = Vec::new();
        let mut char_metrics: Vec<(char, Metrics)> = Vec::new();
        let mut i: usize = 0;
        proof {
            assert(char_metrics@ =~= Seq::new(0nat, |k: int| (glyphs@[k].0, glyphs@[k].1)));
            assert(atlas.spec_rects() =~= Seq::new(
                0nat,
                |k: int| (
                    Rect {
                        x: 0,
                        y: 0,
                        w: glyphs@[k].1.width as i32,
                        h: glyphs@[k].1.height as i32,
                    },
                    k as u32,
                ),
            ));
            assert(char_to_handle@ =~= Seq::new(0nat, |k: int| (glyphs@[k].0, k as u32)));
        }
        while i < n
            invariant
                i <= n,
                n == glyphs@.len(),
                glyphs@.len() < u32::MAX,
                atlas.spec_counter() == i,
                atlas.spec_keys() is None,
                atlas.spec_width() == 0,
                atlas.spec_height() == 0,
                crate::texture_atlas::spec_rects_wf(atlas.spec_rects()),
                atlas.spec_rects() =~= Seq::new(
                    i as nat,
                    |k: int| (
                        Rect {
                            x: 0,
                            y: 0,
                            w: glyphs@[k].1.width as i32,
                            h: glyphs@[k].1.height as i32,
                        },
                        k as u32,
                    ),
                ),
                char_to_handle@ =~= Seq::new(i as nat, |k: int| (glyphs@[k].0, k as u32)),
                images@.len() == i,
                forall|k: int|
                    0 <= k < i ==> (#[trigger] images@[k]).0 == glyphs@[k].0 && images@[k].1.data@
                        == glyphs@[k].2@,
                char_metrics@ =~= Seq::new(i as nat, |k: int| (glyphs@[k].0, glyphs@[k].1)),
                forall|k: int|
                    0 <= k < i ==> (#[trigger] glyphs@[k]).1.width <= TEXTURE_ATLAS_WIDTH
                        && glyphs@[k].2@.len() == glyphs@[k].1.width * glyphs@[k].1.height,
                forall|k: int|
                    0 <= k < glyphs@.len() ==> (#[trigger] glyphs@[k]).1.width <= i32::MAX
                        && glyphs@[k].1.height <= i32::MAX,
            decreases n - i,
        {
            let ch: char = glyphs[i].0;
            let m: Metrics = glyphs[i].1;
            if m.width > TEXTURE_ATLAS_WIDTH as u32 {
                proof {
                    assert(style_build_fails(glyphs@)) by {
                        assert(glyphs@[i as int].1.width > TEXTURE_ATLAS_WIDTH);
                    }
                }
                return Err(UiError::AtlasTooLarge);
            }
            proof {
                assert(m.width as int * m.height as int <= 0xffff_ffff * 0xffff_ffff)
                    by (nonlinear_arith)
                    requires
                        m.width <= 0xffff_ffff,
                        m.height <= 0xffff_ffff,
                ;
            }
            if glyphs[i].2.len() as u64 != m.width as u64 * m.height as u64 {
                proof {
                    assert(style_build_fails(glyphs@)) by {
                        assert(glyphs@[i as int].2@.len() != glyphs@[i as int].1.width
                            * glyphs@[i as int].1.height);
                    }
                }
                return Err(UiError::AtlasTooLarge);
            }
            let bitmap: Vec<u8> = crate::texture_atlas::copy_image_bytes(&glyphs[i].2);
            images.push(
                (ch, Image { data: bitmap, width: m.width as usize, height: m.height as usize }),
            );
            let handle = atlas.add(m.width as i32, m.height as i32);
            char_to_handle.push((ch, handle));
            char_metrics.push((ch, m));
            proof {
                assert(char_metrics@ =~= Seq::new(
                    (i + 1) as nat,
                    |k: int| (glyphs@[k].0, glyphs@[k].1),
                ));
                assert(atlas.spec_rects() =~= Seq::new(
                    (i + 1) as nat,
                    |k: int| (
                        Rect {
                            x: 0,
                            y: 0,
                            w: glyphs@[k].1.width as i32,
                            h: glyphs@[k].1.height as i32,
                        },
                        k as u32,
                    ),
                ));
                assert(char_to_handle@ =~= Seq::new(
                    (i + 1) as nat,
                    |k: int| (glyphs@[k].0, k as u32),
                ));
            }
            i = i + 1;
        }
        let ghost rects0 = atlas.spec_rects();
        proof {
            assert(ta_dims(rects0) =~= glyph_dims(glyphs@)) by {
                assert forall|p: int| 0 <= p < n implies ta_dims(rects0)[p] == glyph_dims(
                    glyphs@,
                )[p] by {
                    assert(rects0[p] == (
                        Rect {
                            x: 0,
                            y: 0,
                            w: glyphs@[p].1.width as i32,
                            h: glyphs@[p].1.height as i32,
                        },
                        p as u32,
                    ));
                }
            }
        }
        if atlas.rects_len() > 0 {
            match atlas.pack() {
                Ok(()) => {},
                Err(e) => {
                    proof {
                        assert(style_build_fails(glyphs@)) by {
                            assert(spec_glyph_pack_height(glyphs@) > i32::MAX);
                        }
                    }
                    return Err(e);
                },
            }
        }
        let (aw, ah) = atlas.size();
        if aw as u64 * ah as u64 > usize::MAX as u64 {
            proof {
                assert(n > 0);
                assert(style_build_fails(glyphs@)) by {
                    assert(aw == TEXTURE_ATLAS_WIDTH);
                    assert(ah as int == spec_glyph_pack_height(glyphs@));
                }
            }
            return Err(UiError::AtlasTooLarge);
        }
        let ghost keys_g = char_to_handle@;
        let ghost bitmaps_g = images@;
        let ghost new_rects = atlas.spec_rects();
        let ghost d = ta_dims(rects0);
        let ghost sorted = d.sort_by(dims_order());
        proof {
            lemma_style_atlas_ready(glyphs@, rects0, new_rects, keys_g, bitmaps_g, aw as int, ah as int);
        }
        let font_image = match atlas.merge_bitmaps(images, char_to_handle) {
            Ok(img) => img,
            Err(_) => {
                proof {
                    assert(false);
                }
                return Err(UiError::AtlasTooLarge);
            },
        };
        let ghost tbl = spec_key_table(keys_g, new_rects, keys_g.len() as int)->0;
        let ghost entries = choose|entries: Seq<StitchEntry>|
            #[trigger] merge_entries_ok(bitmaps_g, tbl, entries) && spec_entries_ok(
                entries,
                aw as int,
                ah as int,
                1,
            ) && spec_stitched(entries, aw as int, 1, font_image.data@, ah as int);
        let computed = TextStyleComputed { font_image, atlas, char_metrics };
        proof {
            assert(char_metrics@ =~= Seq::new(
                glyphs@.len(),
                |k: int| (glyphs@[k].0, glyphs@[k].1),
            ));
            assert(!style_build_fails(glyphs@)) by {
                assert forall|i2: int| 0 <= i2 < glyphs@.len() implies !((
                #[trigger] glyphs@[i2]).1.width > TEXTURE_ATLAS_WIDTH || glyphs@[i2].2@.len()
                    != glyphs@[i2].1.width * glyphs@[i2].1.height) by {}
            }
            assert(computed.spec_atlas().spec_keys() == Some(tbl));
            assert(merge_entries_ok(bitmaps_g, tbl, entries) && spec_entries_ok(
                entries,
                aw as int,
                ah as int,
                1,
            ) && spec_stitched(entries, aw as int, 1, font_image.data@, ah as int));
            assert(glyph_entries_ok(glyphs@, tbl, entries)) by {
                assert forall|j: int| 0 <= j < glyphs@.len() implies #[trigger] glyph_entry_ok(
                    glyphs@,
                    tbl,
                    entries,
                    j,
                ) by {
                    assert(merge_entry_ok(bitmaps_g, tbl, entries, j));
                    assert(bitmaps_g[j].0 == glyphs@[j].0);
                    assert(bitmaps_g[j].1.data@ == glyphs@[j].2@);
                }
            }
        }
        Ok(computed)
    }
}

} // verus!
