//! A character-keyed texture atlas with a fixed packing width, used for the
//! glyph bitmaps of one text style.

use vstd::prelude::*;


verus! {

/// A handle to a rectangle registered with a [`TextureAtlas`].
pub type TextureHandle = u32;

/// A plain bitmap: `width * height` single-byte pixels, row-major.
pub struct Image {
    pub data: Vec<u8>,
    pub width: usize,
    pub height: usize,
}

/// A placed rectangle in atlas pixel coordinates.
#[derive(Clone, Copy, Debug, PartialEq, Eq, Structural)]
pub struct Rect {
    pub x: i32,
    pub y: i32,
    pub w: i32,
    pub h: i32,
}

/// The packing width every [`TextureAtlas`] breaks rows on.
pub const TEXTURE_ATLAS_WIDTH: i32 = 512;

/// An atlas of same-lifetime rectangles keyed by the character they render.
///
/// Rectangles accumulate through [`TextureAtlas::add`]; a call to
/// [`TextureAtlas::pack`] assigns every rectangle a position by shelf
/// packing at a fixed width. [`TextureAtlas::merge_bitmaps`] then associates
/// characters with the placed rectangles and composes the glyph bitmaps
/// into one image.
pub struct TextureAtlas {
    counter: u32,
    key_to_rect: Option<Vec<(char, Rect)>>,
    rects: Vec<(Rect, TextureHandle)>,
    pub width: i32,
    pub height: i32,
}

impl TextureAtlas {
    /// The registered rectangles, in storage order.
    pub closed spec fn spec_rects(self) -> Seq<(Rect, TextureHandle)> {
        self.rects@
    }

    /// The character table built by `merge_bitmaps`, if any.
    pub closed spec fn spec_keys(self) -> Option<Seq<(char, Rect)>> {
        match self.key_to_rect {
            Some(v) => Some(v@),
            None => None,
        }
    }

    /// The next handle to be issued.
    pub closed spec fn spec_counter(self) -> u32 {
        self.counter
    }

    /// The packing width, in pixels.
    pub closed spec fn spec_width(self) -> i32 {
        self.width
    }

    /// The packed height, in pixels.
    pub closed spec fn spec_height(self) -> i32 {
        self.height
    }

    /// First rectangle recorded for character `c`, if any.
    pub open spec fn spec_rect_of(keys: Seq<(char, Rect)>, c: char) -> Option<Rect>
        decreases keys.len(),
    {
        if keys.len() == 0 {
            None
        } else if keys[0].0 == c {
            Some(keys[0].1)
        } else {
            Self::spec_rect_of(keys.drop_first(), c)
        }
    }

    pub fn new() -> (r: TextureAtlas)
        ensures
            r.spec_rects() == Seq::<(Rect, TextureHandle)>::empty(),
            r.spec_keys() is None,
            r.spec_counter() == 0,
            r.spec_width() == 0,
            r.spec_height() == 0,
    {
        TextureAtlas { counter: 0, key_to_rect: None, rects: Vec::new(), width: 0, height: 0 }
    }

    /// Register an unplaced `w` by `h` rectangle; returns its stable handle.
    pub fn add(&mut self, w: i32, h: i32) -> (handle: TextureHandle)
        requires
            0 <= w,
            0 <= h,
            old(self).spec_counter() < u32::MAX,
        ensures
            handle == old(self).spec_counter(),
            final(self).spec_counter() == old(self).spec_counter() + 1,
            final(self).spec_rects() == old(self).spec_rects().push(
                (Rect { x: 0, y: 0, w, h }, handle),
            ),
            final(self).spec_keys() == old(self).spec_keys(),
            final(self).spec_width() == old(self).spec_width(),
            final(self).spec_height() == old(self).spec_height(),
    {
        let handle = self.counter;
        self.counter = self.counter + 1;
        let rect = Rect { x: 0, y: 0, w, h };
        self.rects.push((rect, handle));
        handle
    }

    /// The packed area in pixels.
    pub fn size(&self) -> (r: (i32, i32))
        ensures
            r.0 == self.spec_width(),
            r.1 == self.spec_height(),
    {
        (self.width, self.height)
    }

    /// How many rectangles are registered.
    pub fn rects_len(&self) -> (r: usize)
        ensures
            r == self.spec_rects().len(),
    {
        self.rects.len()
    }

    /// Look up a placed rectangle by its handle.
    pub fn get_rect_from_handle(&self, handle: &TextureHandle) -> (r: Option<(Rect, TextureHandle)>)
        ensures
            r == Self::spec_find_handle(self.spec_rects(), *handle),
    {
        let mut i: usize = 0;
        proof {
            assert(self.spec_rects().skip(0int) =~= self.spec_rects());
        }
        while i < self.rects.len()
            invariant
                i <= self.rects@.len(),
                forall|j: int| 0 <= j < i ==> self.rects@[j].1 != *handle,
                Self::spec_find_handle(self.spec_rects(), *handle) == Self::spec_find_handle(
                    self.spec_rects().skip(i as int),
                    *handle,
                ),
            decreases self.rects@.len() - i,
        {
            proof {
                assert(self.spec_rects().skip(i as int).drop_first() =~= self.spec_rects().skip(
                    i + 1,
                ));
            }
            if self.rects[i].1 == *handle {
                return Some(self.rects[i]);
            }
            i = i + 1;
        }
        proof {
            assert(self.spec_rects().skip(self.spec_rects().len() as int) =~= Seq::<(
                Rect,
                TextureHandle,
            )>::empty());
        }
        None
    }

    /// First entry recorded for handle `h`, if any.
    pub open spec fn spec_find_handle(
        rects: Seq<(Rect, TextureHandle)>,
        h: TextureHandle,
    ) -> Option<(Rect, TextureHandle)>
        decreases rects.len(),
    {
        if rects.len() == 0 {
            None
        } else if rects[0].1 == h {
            Some(rects[0])
        } else {
            Self::spec_find_handle(rects.drop_first(), h)
        }
    }

    /// Look up the placed rectangle of a character, once `merge_bitmaps` has
    /// built the character table. `None` before that, or for an unknown key.
    pub fn get_rect(&self, t: char) -> (r: Option<Rect>)
        ensures
            r == match self.spec_keys() {
                Some(keys) => Self::spec_rect_of(keys, t),
                None => None::<Rect>,
            },
    {
        match &self.key_to_rect {
            None => None,
            Some(keys) => {
                let mut i: usize = 0;
                proof {
                    assert(keys@.skip(0int) =~= keys@);
                }
                while i < keys.len()
                    invariant
                        self.spec_keys() == Some(keys@),
                        i <= keys@.len(),
                        Self::spec_rect_of(keys@, t) == Self::spec_rect_of(keys@.skip(i as int), t),
                    decreases keys@.len() - i,
                {
                    proof {
                        assert(keys@.skip(i as int).drop_first() =~= keys@.skip(i + 1));
                    }
                    if keys[i].0 == t {
                        proof {
                            assert(keys@.skip(i as int)[0] == keys@[i as int]);
                        }
                        return Some(keys[i].1);
                    }
                    i = i + 1;
                }
                proof {
                    assert(keys@.skip(keys@.len() as int) =~= Seq::<(char, Rect)>::empty());
                }
                None
            },
        }
    }
}

} // verus!

verus! {

use crate::error::UiError;
use crate::shelf;
use crate::shelf::{dims_order, spec_packed_height, spec_place, Dims};
use crate::stitch;
use crate::stitch::{spec_entries_ok, spec_stitched, StitchEntry};

/// All registered rectangles have non-negative dimensions.
pub open spec fn spec_rects_wf(rects: Seq<(Rect, TextureHandle)>) -> bool {
    forall|i: int| 0 <= i < rects.len() ==> 0 <= (#[trigger] rects[i]).0.w && 0 <= rects[i].0.h
}

/// The dimensions of the registered rectangles, tagged with their position.
pub open spec fn ta_dims(rects: Seq<(Rect, TextureHandle)>) -> Seq<Dims> {
    Seq::new(rects.len(), |p: int| Dims { pos: p as usize, w: rects[p].0.w as u32, h: rects[p].0.h as u32 })
}

/// What a successful `pack()` leaves behind: the rectangles in packing
/// order (descending height, ties in registration order), each at the
/// position the shelf cursor assigned, keeping its dimensions and handle.
pub open spec fn ta_pack_spec(
    old_rects: Seq<(Rect, TextureHandle)>,
    new_rects: Seq<(Rect, TextureHandle)>,
    height: int,
) -> bool {
    let sorted = ta_dims(old_rects).sort_by(dims_order());
    let st = spec_place(sorted, TEXTURE_ATLAS_WIDTH as int, sorted.len() as int);
    &&& new_rects.len() == old_rects.len()
    &&& height == spec_packed_height(sorted, TEXTURE_ATLAS_WIDTH as int)
    &&& forall|k: int|
        0 <= k < new_rects.len() ==> (#[trigger] new_rects[k]) == (
        Rect {
            x: st.placed[k].0 as i32,
            y: st.placed[k].1 as i32,
            w: sorted[k].w as i32,
            h: sorted[k].h as i32,
        },
        old_rects[sorted[k].pos as int].1,
        )
}

impl TextureAtlas {
    /// Assign every rectangle a position by shelf packing at the fixed
    /// width: rectangles are visited in order of descending height (ties in
    /// registration order) and stored in that order. Fails with
    /// [`UiError::AtlasTooLarge`], changing nothing, when the packed height
    /// does not fit the pixel coordinate range.
    pub fn pack(&mut self) -> (r: Result<(), UiError>)
        requires
            spec_rects_wf(old(self).spec_rects()),
        ensures
            final(self).spec_counter() == old(self).spec_counter(),
            final(self).spec_keys() == old(self).spec_keys(),
            match r {
                Ok(()) => final(self).spec_width() == TEXTURE_ATLAS_WIDTH
                    && final(self).spec_height() >= 0 && ta_pack_spec(
                    old(self).spec_rects(),
                    final(self).spec_rects(),
                    final(self).spec_height() as int,
                ),
                Err(err) => err == UiError::AtlasTooLarge && *final(self) == *old(self)
                    && spec_packed_height(
                    ta_dims(old(self).spec_rects()).sort_by(dims_order()),
                    TEXTURE_ATLAS_WIDTH as int,
                ) > i32::MAX,
            },
    {
        let n = self.rects.len();
        let mut dvec: Vec<Dims> = Vec::new();
        let mut i: usize = 0;
        proof {
            assert(dvec@ =~= ta_dims(self.spec_rects()).take(0int));
        }
        while i < n
            invariant
                i <= n,
                n == self.spec_rects().len(),
                spec_rects_wf(self.spec_rects()),
                dvec@ =~= ta_dims(self.spec_rects()).take(i as int),
            decreases n - i,
        {
            let w: i32 = self.rects[i].0.w;
            let h: i32 = self.rects[i].0.h;
            dvec.push(Dims { pos: i, w: w as u32, h: h as u32 });
            proof {
                assert(dvec@ =~= ta_dims(self.spec_rects()).take(i + 1));
            }
            i = i + 1;
        }
        proof {
            assert(dvec@ =~= ta_dims(self.spec_rects()));
        }
        let sorted = shelf::sort_dims(dvec);
        let placed_opt = shelf::place_all(&sorted, TEXTURE_ATLAS_WIDTH as u32);
        let (placed, height) = match placed_opt {
            Some(ph) => ph,
            None => {
                proof {
                    assert(spec_packed_height(sorted@, TEXTURE_ATLAS_WIDTH as int) > u32::MAX);
                }
                return Err(UiError::AtlasTooLarge);
            },
        };
        if height > i32::MAX as u32 {
            return Err(UiError::AtlasTooLarge);
        }
        proof {
            shelf::lemma_place_inv(sorted@, TEXTURE_ATLAS_WIDTH as int, sorted@.len() as int);
            shelf::lemma_place_disjoint(sorted@, TEXTURE_ATLAS_WIDTH as int);
        }
        let ghost old_rects = self.spec_rects();
        proof {
            assert forall|p: int| 0 <= p < ta_dims(old_rects).len() implies (#[trigger] ta_dims(
                old_rects,
            )[p]).pos == p by {
                assert(ta_dims(old_rects)[p] == Dims {
                    pos: p as usize,
                    w: old_rects[p].0.w as u32,
                    h: old_rects[p].0.h as u32,
                });
            }
            crate::atlas::lemma_pos_perm(ta_dims(old_rects));
        }
        let mut new_rects: Vec<(Rect, TextureHandle)> = Vec::new();
        let mut k: usize = 0;
        while k < sorted.len()
            invariant
                k <= sorted@.len(),
                sorted@ == ta_dims(old_rects).sort_by(dims_order()),
                sorted@.len() == n,
                n == old_rects.len(),
                old_rects == self.spec_rects(),
                spec_rects_wf(old_rects),
                placed@.len() == n,
                height == spec_packed_height(sorted@, TEXTURE_ATLAS_WIDTH as int),
                height <= i32::MAX as u32,
                forall|j: int|
                    0 <= j < n ==> ((#[trigger] placed@[j]).0 as int, placed@[j].1 as int)
                        == spec_place(sorted@, TEXTURE_ATLAS_WIDTH as int, n as int).placed[j],
                forall|j: int|
                    0 <= j < n ==> 0 <= (#[trigger] spec_place(
                        sorted@,
                        TEXTURE_ATLAS_WIDTH as int,
                        n as int,
                    ).placed[j]).1 && spec_place(sorted@, TEXTURE_ATLAS_WIDTH as int, n as int).placed[j].1
                        + sorted@[j].h <= spec_packed_height(sorted@, TEXTURE_ATLAS_WIDTH as int),
                forall|j: int|
                    0 <= j < k ==> (#[trigger] new_rects@[j]) == (
                    Rect {
                        x: spec_place(sorted@, TEXTURE_ATLAS_WIDTH as int, n as int).placed[j].0 as i32,
                        y: spec_place(sorted@, TEXTURE_ATLAS_WIDTH as int, n as int).placed[j].1 as i32,
                        w: sorted@[j].w as i32,
                        h: sorted@[j].h as i32,
                    },
                    old_rects[sorted@[j].pos as int].1,
                    ),
                new_rects@.len() == k,
                forall|j: int|
                    0 <= j < n ==> (#[trigger] sorted@[j]).pos < n && sorted@[j] == ta_dims(
                        old_rects,
                    )[sorted@[j].pos as int],
            decreases sorted@.len() - k,
        {
            let p: usize = sorted[k].pos;
            let handle: TextureHandle = self.rects[p].1;
            let rect = Rect {
                x: placed[k].0 as i32,
                y: placed[k].1 as i32,
                w: sorted[k].w as i32,
                h: sorted[k].h as i32,
            };
            proof {
                let pos = sorted@[k as int].pos as int;
                assert(0 <= (old_rects[pos]).0.w && 0 <= (old_rects[pos]).0.h);
                assert(ta_dims(old_rects)[pos] == Dims {
                    pos: pos as usize,
                    w: old_rects[pos].0.w as u32,
                    h: old_rects[pos].0.h as u32,
                });
                assert(sorted@[k as int].w <= i32::MAX as u32);
                assert(sorted@[k as int].h <= i32::MAX as u32);
            }
            new_rects.push((rect, handle));
            k = k + 1;
        }
        self.rects = new_rects;
        self.width = TEXTURE_ATLAS_WIDTH;
        self.height = height as i32;
        Ok(())
    }
}

} // verus!

verus! {

/// The character table: each key resolved against the placed rectangles by
/// its handle, or nothing when some handle is unknown.
pub open spec fn spec_key_table(
    keys: Seq<(char, TextureHandle)>,
    rects: Seq<(Rect, TextureHandle)>,
    n: int,
) -> Option<Seq<(char, Rect)>>
    decreases n,
{
    if 0 < n <= keys.len() {
        match spec_key_table(keys, rects, n - 1) {
            Some(prev) => match TextureAtlas::spec_find_handle(rects, keys[n - 1].1) {
                Some(found) => Some(prev.push((keys[n - 1].0, found.0))),
                None => None,
            },
            None => None,
        }
    } else {
        Some(Seq::empty())
    }
}

/// The stitch entries correspond to the bitmaps: each character resolves
/// through the table (first match) to the entry's rectangle, and the entry
/// carries the bitmap's bytes.
/// Entry `j` corresponds to bitmap `j` through the table.
pub open spec fn merge_entry_ok(
    bitmaps: Seq<(char, Image)>,
    table: Seq<(char, Rect)>,
    entries: Seq<StitchEntry>,
    j: int,
) -> bool {
    TextureAtlas::spec_rect_of(table, bitmaps[j].0) matches Some(rect) && entries[j].x == rect.x
        && entries[j].y == rect.y && entries[j].w == rect.w && entries[j].h == rect.h
        && entries[j].data@ == bitmaps[j].1.data@
}

/// The stitch entries correspond to the bitmaps: each character resolves
/// through the table (first match) to the entry's rectangle, and the entry
/// carries the bitmap's bytes.
pub open spec fn merge_entries_ok(
    bitmaps: Seq<(char, Image)>,
    table: Seq<(char, Rect)>,
    entries: Seq<StitchEntry>,
) -> bool {
    &&& entries.len() == bitmaps.len()
    &&& forall|j: int|
        0 <= j < bitmaps.len() ==> #[trigger] merge_entry_ok(bitmaps, table, entries, j)
}

/// Some key's handle does not resolve among the placed rectangles.
pub open spec fn merge_handle_missing(
    keys: Seq<(char, TextureHandle)>,
    rects: Seq<(Rect, TextureHandle)>,
) -> bool {
    exists|k: int|
        0 <= k < keys.len() && TextureAtlas::spec_find_handle(rects, (#[trigger] keys[k]).1)
            is None
}

/// Some bitmap's character is not in the resolved table.
pub open spec fn merge_char_missing(bitmaps: Seq<(char, Image)>, table: Seq<(char, Rect)>) -> bool {
    exists|j: int|
        0 <= j < bitmaps.len() && TextureAtlas::spec_rect_of(table, (#[trigger] bitmaps[j]).0)
            is None
}

/// Bitmap `j` resolves, but does not fit: its rectangle is negative or
/// leaves the atlas area, or its byte length differs from the rectangle's.
pub open spec fn merge_bitmap_bad(
    bitmaps: Seq<(char, Image)>,
    table: Seq<(char, Rect)>,
    width: int,
    height: int,
    j: int,
) -> bool {
    TextureAtlas::spec_rect_of(table, bitmaps[j].0) matches Some(rect) && (rect.x < 0 || rect.y < 0
        || rect.w < 0 || rect.h < 0 || rect.x + rect.w > width || rect.y + rect.h > height
        || bitmaps[j].1.data@.len() != rect.w * rect.h)
}

/// Bitmaps `i` and `j` resolve to rectangles the separation test does not
/// tell apart.
pub open spec fn merge_pair_overlap(
    bitmaps: Seq<(char, Image)>,
    table: Seq<(char, Rect)>,
    i: int,
    j: int,
) -> bool {
    TextureAtlas::spec_rect_of(table, bitmaps[i].0) matches Some(a)
        && (TextureAtlas::spec_rect_of(table, bitmaps[j].0) matches Some(b) && !crate::stitch::spec_apart(
        a.x as int,
        a.y as int,
        a.w as int,
        a.h as int,
        b.x as int,
        b.y as int,
        b.w as int,
        b.h as int,
    ))
}

/// Why a merge fails: a negative atlas area, an unresolved handle or
/// character, a bitmap that does not fit its rectangle, rectangles the
/// separation test does not tell apart, or an area too large for memory.
pub open spec fn merge_fails(
    bitmaps: Seq<(char, Image)>,
    keys: Seq<(char, TextureHandle)>,
    rects: Seq<(Rect, TextureHandle)>,
    width: int,
    height: int,
) -> bool {
    ||| width < 0
    ||| height < 0
    ||| merge_handle_missing(keys, rects)
    ||| (spec_key_table(keys, rects, keys.len() as int) matches Some(table) && (merge_char_missing(
        bitmaps,
        table,
    ) || (exists|j: int|
        0 <= j < bitmaps.len() && #[trigger] merge_bitmap_bad(bitmaps, table, width, height, j))
        || (exists|i: int, j: int|
        0 <= i < j < bitmaps.len() && #[trigger] merge_pair_overlap(bitmaps, table, i, j))))
    ||| width * height > usize::MAX
}

/// A resolved key table means every key's handle resolves.
proof fn lemma_key_table_resolves(
    keys: Seq<(char, TextureHandle)>,
    rects: Seq<(Rect, TextureHandle)>,
    n: int,
)
    requires
        n <= keys.len(),
        spec_key_table(keys, rects, n) is Some,
    ensures
        forall|k: int|
            0 <= k < n ==> TextureAtlas::spec_find_handle(rects, (#[trigger] keys[k]).1) is Some,
    decreases n,
{
    if 0 < n {
        lemma_key_table_resolves(keys, rects, n - 1);
    }
}

/// Copy a byte vector.
pub fn copy_image_bytes(src: &Vec<u8>) -> (r: Vec<u8>)
    ensures
        r@ == src@,
{
    let mut r: Vec<u8> = Vec::new();
    let mut i: usize = 0;
    while i < src.len()
        invariant
            i <= src@.len(),
            r@ =~= src@.take(i as int),
        decreases src@.len() - i,
    {
        r.push(src[i]);
        proof {
            assert(r@ =~= src@.take(i + 1));
        }
        i = i + 1;
    }
    proof {
        assert(r@ =~= src@);
    }
    r
}

/// Whether the two rectangles (as stitch entries) are separated on some
/// axis; separated rectangles share no pixel.
pub fn stitch_entries_disjoint(a: &StitchEntry, b: &StitchEntry) -> (r: bool)
    ensures
        r == stitch::spec_apart(
            a.x as int,
            a.y as int,
            a.w as int,
            a.h as int,
            b.x as int,
            b.y as int,
            b.w as int,
            b.h as int,
        ),
        r ==> stitch::spec_no_overlap(*a, *b),
{
    let apart = a.x as u64 + a.w as u64 <= b.x as u64 || b.x as u64 + b.w as u64 <= a.x as u64
        || a.y as u64 + a.h as u64 <= b.y as u64 || b.y as u64 + b.h as u64 <= a.y as u64;
    proof {
        if apart {
            stitch::lemma_apart_no_overlap(*a, *b);
        }
    }
    apart
}

impl TextureAtlas {
    /// Associate each character with its packed rectangle and compose the
    /// character bitmaps into one single-channel image of the atlas area,
    /// row by row. Fails with [`UiError::UnknownHandle`] when a handle or a
    /// character does not resolve, and with [`UiError::AtlasTooLarge`] when
    /// a bitmap does not match its rectangle, rectangles overlap or leave
    /// the atlas area, or the area does not fit in memory.
    #[verifier::rlimit(60)]
    pub fn merge_bitmaps(
        &mut self,
        bitmaps: Vec<(char, Image)>,
        keys: Vec<(char, TextureHandle)>,
    ) -> (r: Result<Image, UiError>)
        ensures
            final(self).spec_rects() == old(self).spec_rects(),
            final(self).spec_counter() == old(self).spec_counter(),
            final(self).spec_width() == old(self).spec_width(),
            final(self).spec_height() == old(self).spec_height(),
            (r is Err) == merge_fails(
                bitmaps@,
                keys@,
                old(self).spec_rects(),
                old(self).spec_width() as int,
                old(self).spec_height() as int,
            ),
            r == Err::<Image, UiError>(UiError::UnknownHandle) ==> merge_handle_missing(
                keys@,
                old(self).spec_rects(),
            ) || (spec_key_table(keys@, old(self).spec_rects(), keys@.len() as int) matches Some(
                table,
            ) && merge_char_missing(bitmaps@, table)),
            r matches Err(e) ==> e == UiError::UnknownHandle || e == UiError::AtlasTooLarge,
            match r {
                Ok(img) => {
                    &&& spec_key_table(keys@, old(self).spec_rects(), keys@.len() as int)
                        matches Some(table) && final(self).spec_keys() == Some(table)
                    &&& img.width == old(self).spec_width()
                    &&& img.height == old(self).spec_height()
                    &&& img.data@.len() == old(self).spec_width() * old(self).spec_height()
                    &&& exists|entries: Seq<StitchEntry>|
                        #[trigger] merge_entries_ok(
                            bitmaps@,
                            spec_key_table(keys@, old(self).spec_rects(), keys@.len() as int)->0,
                            entries,
                        ) && spec_entries_ok(
                            entries,
                            old(self).spec_width() as int,
                            old(self).spec_height() as int,
                            1,
                        ) && spec_stitched(
                            entries,
                            old(self).spec_width() as int,
                            1,
                            img.data@,
                            old(self).spec_height() as int,
                        )
                },
                Err(_) => final(self).spec_keys() == old(self).spec_keys(),
            },
    {
        if self.width < 0 || self.height < 0 {
            proof {
                assert(merge_fails(
                    bitmaps@,
                    keys@,
                    self.spec_rects(),
                    self.spec_width() as int,
                    self.spec_height() as int,
                ));
            }
            return Err(UiError::AtlasTooLarge);
        }
        let width: u32 = self.width as u32;
        let height: u32 = self.height as u32;
        // resolve the key table
        let mut table: Vec<(char, Rect)> = Vec::new();
        let mut i: usize = 0;
        proof {
            assert(Some(table@) =~= spec_key_table(keys@, self.spec_rects(), 0int));
        }
        while i < keys.len()
            invariant
                i <= keys@.len(),
                spec_key_table(keys@, self.spec_rects(), i as int) == Some(table@),
            decreases keys@.len() - i,
        {
            match self.get_rect_from_handle(&keys[i].1) {
                Some(found) => {
                    table.push((keys[i].0, found.0));
                },
                None => {
                    proof {
                        assert(Self::spec_find_handle(self.spec_rects(), keys@[i as int].1)
                            is None);
                        assert(merge_handle_missing(keys@, self.spec_rects()));
                    }
                    return Err(UiError::UnknownHandle);
                },
            }
            i = i + 1;
        }
        // resolve and validate the stitch entries
        let mut entries: Vec<StitchEntry> = Vec::new();
        let mut j: usize = 0;
        while j < bitmaps.len()
            invariant
                j <= bitmaps@.len(),
                merge_entries_ok(bitmaps@.take(j as int), table@, entries@),
                spec_key_table(keys@, self.spec_rects(), keys@.len() as int) == Some(table@),
                width == self.spec_width() as u32,
                height == self.spec_height() as u32,
                0 <= self.spec_width(),
                0 <= self.spec_height(),
                forall|q: int|
                    0 <= q < entries@.len() ==> (#[trigger] entries@[q]).data@.len()
                        == entries@[q].w * entries@[q].h && entries@[q].x + entries@[q].w <= width
                        && entries@[q].y + entries@[q].h <= height,
                forall|q1: int, q2: int|
                    0 <= q1 < q2 < entries@.len() ==> stitch::spec_apart(
                        (#[trigger] entries@[q1]).x as int,
                        entries@[q1].y as int,
                        entries@[q1].w as int,
                        entries@[q1].h as int,
                        (#[trigger] entries@[q2]).x as int,
                        entries@[q2].y as int,
                        entries@[q2].w as int,
                        entries@[q2].h as int,
                    ),
            decreases bitmaps@.len() - j,
        {
            let ch: char = bitmaps[j].0;
            let rect = match Self::table_lookup(&table, ch) {
                Some(rect) => rect,
                None => {
                    proof {
                        assert(Self::spec_rect_of(table@, bitmaps@[j as int].0) is None);
                        assert(merge_char_missing(bitmaps@, table@));
                    }
                    return Err(UiError::UnknownHandle);
                },
            };
            if rect.x < 0 || rect.y < 0 || rect.w < 0 || rect.h < 0 {
                proof {
                    assert(merge_bitmap_bad(
                        bitmaps@,
                        table@,
                        self.spec_width() as int,
                        self.spec_height() as int,
                        j as int,
                    ));
                }
                return Err(UiError::AtlasTooLarge);
            }
            let ex: u32 = rect.x as u32;
            let ey: u32 = rect.y as u32;
            let ew: u32 = rect.w as u32;
            let eh: u32 = rect.h as u32;
            if ex as u64 + ew as u64 > width as u64 || ey as u64 + eh as u64 > height as u64 {
                proof {
                    assert(merge_bitmap_bad(
                        bitmaps@,
                        table@,
                        self.spec_width() as int,
                        self.spec_height() as int,
                        j as int,
                    ));
                }
                return Err(UiError::AtlasTooLarge);
            }
            proof {
                assert(ew as int * eh as int <= 0xffff_ffff * 0xffff_ffff) by (nonlinear_arith)
                    requires
                        ew <= 0xffff_ffff,
                        eh <= 0xffff_ffff,
                ;
            }
            if bitmaps[j].1.data.len() as u64 != ew as u64 * eh as u64 {
                proof {
                    assert(merge_bitmap_bad(
                        bitmaps@,
                        table@,
                        self.spec_width() as int,
                        self.spec_height() as int,
                        j as int,
                    ));
                }
                return Err(UiError::AtlasTooLarge);
            }
            let entry = StitchEntry {
                x: ex,
                y: ey,
                w: ew,
                h: eh,
                data: copy_image_bytes(&bitmaps[j].1.data),
            };
            let mut q: usize = 0;
            while q < entries.len()
                invariant
                    q <= entries@.len(),
                    j < bitmaps@.len(),
                    merge_entries_ok(bitmaps@.take(j as int), table@, entries@),
                    spec_key_table(keys@, self.spec_rects(), keys@.len() as int) == Some(table@),
                    width == self.spec_width() as u32,
                    height == self.spec_height() as u32,
                    Self::spec_rect_of(table@, bitmaps@[j as int].0) == Some(rect),
                    0 <= rect.x && 0 <= rect.y && 0 <= rect.w && 0 <= rect.h,
                    forall|q2: int|
                        0 <= q2 < q ==> stitch::spec_apart(
                            (#[trigger] entries@[q2]).x as int,
                            entries@[q2].y as int,
                            entries@[q2].w as int,
                            entries@[q2].h as int,
                            entry.x as int,
                            entry.y as int,
                            entry.w as int,
                            entry.h as int,
                        ),
                    entry.data@ == bitmaps@[j as int].1.data@,
                    entry.x == ex && entry.y == ey && entry.w == ew && entry.h == eh,
                    ex == rect.x as u32 && ey == rect.y as u32 && ew == rect.w as u32 && eh
                        == rect.h as u32,
                decreases entries@.len() - q,
            {
                if !stitch_entries_disjoint(&entries[q], &entry) {
                    proof {
                        assert(merge_entry_ok(bitmaps@.take(j as int), table@, entries@, q as int));
                        assert(bitmaps@.take(j as int)[q as int] == bitmaps@[q as int]);
                        assert(merge_pair_overlap(bitmaps@, table@, q as int, j as int));
                    }
                    return Err(UiError::AtlasTooLarge);
                }
                q = q + 1;
            }
            let ghost old_entries = entries@;
            entries.push(entry);
            proof {
                assert(bitmaps@.take(j + 1) =~= bitmaps@.take(j as int).push(bitmaps@[j as int]));
                assert(merge_entries_ok(bitmaps@.take(j + 1), table@, entries@)) by {
                    assert(merge_entries_ok(bitmaps@.take(j as int), table@, old_entries));
                    assert(bitmaps@.take(j + 1)[j as int] == bitmaps@[j as int]);
                    assert(entries@[j as int].x == rect.x && entries@[j as int].y == rect.y
                        && entries@[j as int].w == rect.w && entries@[j as int].h == rect.h);
                    assert(entries@[j as int].data@ == bitmaps@[j as int].1.data@);
                    assert(Self::spec_rect_of(table@, bitmaps@[j as int].0) == Some(rect));
                    assert forall|q2: int| 0 <= q2 < j + 1 implies #[trigger] merge_entry_ok(
                        bitmaps@.take(j + 1),
                        table@,
                        entries@,
                        q2,
                    ) by {
                        if q2 < j {
                            assert(merge_entry_ok(
                                bitmaps@.take(j as int),
                                table@,
                                old_entries,
                                q2,
                            ));
                            assert(bitmaps@.take(j as int)[q2] == bitmaps@.take(j + 1)[q2]);
                            assert(entries@[q2] == old_entries[q2]);
                        } else {
                            assert(bitmaps@.take(j + 1)[q2] == bitmaps@[j as int]);
                        }
                    }
                }
            }
            j = j + 1;
        }
        proof {
            assert(width as int * height as int <= 0xffff_ffff * 0xffff_ffff) by (nonlinear_arith)
                requires
                    width <= 0xffff_ffff,
                    height <= 0xffff_ffff,
            ;
        }
        if width as u64 * height as u64 > usize::MAX as u64 {
            proof {
                assert(merge_fails(
                    bitmaps@,
                    keys@,
                    self.spec_rects(),
                    self.spec_width() as int,
                    self.spec_height() as int,
                ));
            }
            return Err(UiError::AtlasTooLarge);
        }
        proof {
            assert(width as int * height as int * 1 <= usize::MAX);
            assert(bitmaps@.take(bitmaps@.len() as int) =~= bitmaps@);
        }
        let ghost table_g = table@;
        proof {
            assert(spec_key_table(keys@, self.spec_rects(), keys@.len() as int) == Some(table_g));
        }
        proof {
            assert(spec_entries_ok(entries@, width as int, height as int, 1)) by {
                assert forall|q1: int, q2: int| 0 <= q1 < q2 < entries@.len() implies
                    stitch::spec_no_overlap(
                    #[trigger] entries@[q1],
                    #[trigger] entries@[q2],
                ) by {
                    stitch::lemma_apart_no_overlap(entries@[q1], entries@[q2]);
                }
            }
            assert(bitmaps@.take(bitmaps@.len() as int) =~= bitmaps@);
            assert(merge_entries_ok(bitmaps@, table_g, entries@));
            assert(!merge_fails(
                bitmaps@,
                keys@,
                self.spec_rects(),
                self.spec_width() as int,
                self.spec_height() as int,
            )) by {
                lemma_key_table_resolves(keys@, self.spec_rects(), keys@.len() as int);
                assert(!merge_handle_missing(keys@, self.spec_rects()));
                assert(!merge_char_missing(bitmaps@, table_g)) by {
                    assert forall|j2: int| 0 <= j2 < bitmaps@.len() implies Self::spec_rect_of(
                        table_g,
                        (#[trigger] bitmaps@[j2]).0,
                    ) is Some by {
                        assert(merge_entry_ok(bitmaps@, table_g, entries@, j2));
                    }
                }
                assert forall|j2: int| 0 <= j2 < bitmaps@.len() implies !(
                #[trigger] merge_bitmap_bad(
                    bitmaps@,
                    table_g,
                    self.spec_width() as int,
                    self.spec_height() as int,
                    j2,
                )) by {
                    assert(merge_entry_ok(bitmaps@, table_g, entries@, j2));
                    assert(entries@[j2].data@.len() == entries@[j2].w * entries@[j2].h);
                }
                assert forall|i2: int, j2: int| 0 <= i2 < j2 < bitmaps@.len() implies !(
                #[trigger] merge_pair_overlap(bitmaps@, table_g, i2, j2)) by {
                    assert(merge_entry_ok(bitmaps@, table_g, entries@, i2));
                    assert(merge_entry_ok(bitmaps@, table_g, entries@, j2));
                    assert(stitch::spec_apart(
                        entries@[i2].x as int,
                        entries@[i2].y as int,
                        entries@[i2].w as int,
                        entries@[i2].h as int,
                        entries@[j2].x as int,
                        entries@[j2].y as int,
                        entries@[j2].w as int,
                        entries@[j2].h as int,
                    ));
                }
            }
        }
        let data = stitch::stitch(width, height, 1, &entries);
        proof {
            assert(bitmaps@.take(bitmaps@.len() as int) =~= bitmaps@);
            assert(merge_entries_ok(bitmaps@, table_g, entries@));
            assert(spec_entries_ok(entries@, width as int, height as int, 1));
            assert(spec_stitched(entries@, width as int, 1, data@, height as int));
            assert(data@.len() == width as int * height as int);
            assert(merge_entries_ok(
                bitmaps@,
                spec_key_table(keys@, self.spec_rects(), keys@.len() as int)->0,
                entries@,
            ));
        }
        self.key_to_rect = Some(table);
        proof {
            assert(self.spec_keys() == Some(table_g));
            assert(spec_key_table(keys@, self.spec_rects(), keys@.len() as int) == Some(table_g));
        }
        Ok(Image { data, width: width as usize, height: height as usize })
    }

    /// The placed rectangle of a character in a resolved table.
    fn table_lookup(table: &Vec<(char, Rect)>, c: char) -> (r: Option<Rect>)
        ensures
            r == Self::spec_rect_of(table@, c),
    {
        let mut i: usize = 0;
        proof {
            assert(table@.skip(0int) =~= table@);
        }
        while i < table.len()
            invariant
                i <= table@.len(),
                Self::spec_rect_of(table@, c) == Self::spec_rect_of(table@.skip(i as int), c),
            decreases table@.len() - i,
        {
            proof {
                assert(table@.skip(i as int).drop_first() =~= table@.skip(i + 1));
            }
            if table[i].0 == c {
                proof {
                    assert(table@.skip(i as int)[0] == table@[i as int]);
                }
                return Some(table[i].1);
            }
            i = i + 1;
        }
        proof {
            assert(table@.skip(table@.len() as int) =~= Seq::<(char, Rect)>::empty());
        }
        None
    }
}

} // verus!

verus! {

/// A handle that appears among the entries is found.
pub proof fn lemma_find_handle_some(rects: Seq<(Rect, TextureHandle)>, h: TextureHandle)
    requires
        exists|j: int| 0 <= j < rects.len() && (#[trigger] rects[j]).1 == h,
    ensures
        TextureAtlas::spec_find_handle(rects, h) is Some,
    decreases rects.len(),
{
    if rects.len() > 0 && rects[0].1 != h {
        let j = choose|j: int| 0 <= j < rects.len() && (#[trigger] rects[j]).1 == h;
        assert(rects.drop_first()[j - 1] == rects[j]);
        lemma_find_handle_some(rects.drop_first(), h);
    }
}

/// With pairwise distinct handles, the lookup returns the entry that
/// carries the handle.
pub proof fn lemma_find_handle_distinct(rects: Seq<(Rect, TextureHandle)>, j: int)
    requires
        0 <= j < rects.len(),
        forall|j1: int, j2: int|
            0 <= j1 < j2 < rects.len() ==> (#[trigger] rects[j1]).1 != (#[trigger] rects[j2]).1,
    ensures
        TextureAtlas::spec_find_handle(rects, rects[j].1) == Some(rects[j]),
    decreases j,
{
    if j > 0 {
        assert(rects[0].1 != rects[j].1);
        assert(rects.drop_first()[j - 1] == rects[j]);
        assert forall|j1: int, j2: int|
            0 <= j1 < j2 < rects.drop_first().len() implies (#[trigger] rects.drop_first()[j1]).1
            != (#[trigger] rects.drop_first()[j2]).1 by {
            assert(rects.drop_first()[j1] == rects[j1 + 1]);
            assert(rects.drop_first()[j2] == rects[j2 + 1]);
        }
        lemma_find_handle_distinct(rects.drop_first(), j - 1);
    }
}

/// When every key resolves, the table pairs each key's character with the
/// rectangle its handle carries.
pub proof fn lemma_key_table_content(
    keys: Seq<(char, TextureHandle)>,
    rects: Seq<(Rect, TextureHandle)>,
    n: int,
)
    requires
        0 <= n <= keys.len(),
        forall|k: int|
            0 <= k < n ==> TextureAtlas::spec_find_handle(rects, (#[trigger] keys[k]).1) is Some,
    ensures
        spec_key_table(keys, rects, n) matches Some(t) && t.len() == n && (forall|k: int|
            0 <= k < n ==> (#[trigger] t[k]) == (
            keys[k].0,
            (TextureAtlas::spec_find_handle(rects, keys[k].1)->0).0,
            )),
    decreases n,
{
    if 0 < n {
        lemma_key_table_content(keys, rects, n - 1);
    }
}

/// With pairwise distinct characters, the table lookup returns entry `j`'s
/// rectangle for entry `j`'s character.
pub proof fn lemma_rect_of_at(table: Seq<(char, Rect)>, j: int)
    requires
        0 <= j < table.len(),
        forall|i1: int, i2: int|
            0 <= i1 < i2 < table.len() ==> (#[trigger] table[i1]).0 != (#[trigger] table[i2]).0,
    ensures
        TextureAtlas::spec_rect_of(table, table[j].0) == Some(table[j].1),
    decreases j,
{
    if j > 0 {
        assert(table[0].0 != table[j].0);
        assert(table.drop_first()[j - 1] == table[j]);
        assert forall|i1: int, i2: int|
            0 <= i1 < i2 < table.drop_first().len() implies (#[trigger] table.drop_first()[i1]).0
            != (#[trigger] table.drop_first()[i2]).0 by {
            assert(table.drop_first()[i1] == table[i1 + 1]);
            assert(table.drop_first()[i2] == table[i2 + 1]);
        }
        lemma_rect_of_at(table.drop_first(), j - 1);
    }
}

} // verus!
