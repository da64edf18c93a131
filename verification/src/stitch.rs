//! Row-wise bitmap stitching: compose source bitmaps into one contiguous
//! destination buffer at their packed positions.
//!
//! A source rectangle's row stride in the destination differs from its own
//! width whenever the destination is wider, so each source row is copied
//! separately; a flat copy would skew the output.

use vstd::prelude::*;

verus! {

/// One bitmap to stitch: its destination rectangle in pixels and its bytes
/// (`w * h * ps` of them, row-major).
pub struct StitchEntry {
    pub x: u32,
    pub y: u32,
    pub w: u32,
    pub h: u32,
    pub data: Vec<u8>,
}

/// Whether pixel `(px, py)` lies in the rectangle of `entry`.
pub open spec fn spec_pixel_in(e: StitchEntry, px: int, py: int) -> bool {
    e.x <= px < e.x + e.w && e.y <= py < e.y + e.h
}

/// The byte index of channel `b` of pixel `(px, py)` in a `width`-wide
/// buffer with `ps` bytes per pixel.
pub open spec fn spec_at(width: int, ps: int, px: int, py: int, b: int) -> int {
    (py * width + px) * ps + b
}

/// No pixel lies in both entries' rectangles.
pub open spec fn spec_no_overlap(a: StitchEntry, b: StitchEntry) -> bool {
    forall|px: int, py: int| !(#[trigger] spec_pixel_in(a, px, py) && spec_pixel_in(b, px, py))
}

/// The two rectangles are separated on some axis (the conservative test
/// the validators run: a zero-area rectangle that the test does not
/// separate still counts as overlapping here, though it shares no pixel).
pub open spec fn spec_apart(ax: int, ay: int, aw: int, ah: int, bx: int, by: int, bw: int, bh: int) -> bool {
    ax + aw <= bx || bx + bw <= ax || ay + ah <= by || by + bh <= ay
}

/// Separated rectangles share no pixel.
pub proof fn lemma_apart_no_overlap(a: StitchEntry, b: StitchEntry)
    requires
        spec_apart(
            a.x as int,
            a.y as int,
            a.w as int,
            a.h as int,
            b.x as int,
            b.y as int,
            b.w as int,
            b.h as int,
        ),
    ensures
        spec_no_overlap(a, b),
{
}

/// Entries are well-formed for a `width` by `height` destination: each has
/// the right amount of bytes and lies inside the destination, and no two
/// overlap.
pub open spec fn spec_entries_ok(entries: Seq<StitchEntry>, width: int, height: int, ps: int) -> bool {
    &&& forall|i: int|
        0 <= i < entries.len() ==> (#[trigger] entries[i]).data@.len() == entries[i].w * entries[i].h
            * ps && entries[i].x + entries[i].w <= width && entries[i].y + entries[i].h <= height
    &&& forall|i: int, j: int|
        0 <= i < j < entries.len() ==> spec_no_overlap(
            #[trigger] entries[i],
            #[trigger] entries[j],
        )
}

/// Quotient and remainder by a positive modulus are unique.
proof fn lemma_qr_unique(q1: int, r1: int, q2: int, r2: int, m: int)
    requires
        0 < m,
        0 <= r1 < m,
        0 <= r2 < m,
        q1 * m + r1 == q2 * m + r2,
    ensures
        q1 == q2,
        r1 == r2,
{
    assert(q1 == q2 && r1 == r2) by (nonlinear_arith)
        requires
            0 < m,
            0 <= r1 < m,
            0 <= r2 < m,
            q1 * m + r1 == q2 * m + r2,
    ;
}

/// Byte indices determine their pixel and channel.
proof fn lemma_at_inj(
    width: int,
    ps: int,
    px1: int,
    py1: int,
    b1: int,
    px2: int,
    py2: int,
    b2: int,
)
    requires
        0 < width,
        0 < ps,
        0 <= px1 < width,
        0 <= px2 < width,
        0 <= b1 < ps,
        0 <= b2 < ps,
        0 <= py1,
        0 <= py2,
        spec_at(width, ps, px1, py1, b1) == spec_at(width, ps, px2, py2, b2),
    ensures
        px1 == px2,
        py1 == py2,
        b1 == b2,
{
    lemma_qr_unique(py1 * width + px1, b1, py2 * width + px2, b2, ps);
    lemma_qr_unique(py1, px1, py2, px2, width);
}

/// Byte `(rr, cc, b)` of entry `e` was copied to its destination index.
pub open spec fn spec_entry_byte(
    e: StitchEntry,
    width: int,
    ps: int,
    out: Seq<u8>,
    rr: int,
    cc: int,
    b: int,
) -> bool {
    out[spec_at(width, ps, e.x + cc, e.y + rr, b)] == e.data@[(rr * e.w + cc) * ps + b]
}

/// A byte index of an in-range pixel lies inside the buffer.
proof fn lemma_at_range(width: int, height: int, ps: int, px: int, py: int, b: int)
    requires
        0 < ps,
        0 <= px < width,
        0 <= py < height,
        0 <= b < ps,
    ensures
        0 <= spec_at(width, ps, px, py, b) < width * height * ps,
{
    assert(0 <= (py * width + px) * ps + b < width * height * ps) by (nonlinear_arith)
        requires
            0 <= px < width,
            0 <= py < height,
            0 <= b < ps,
    ;
}

/// The stitched value of byte `idx`: the corresponding source byte when its
/// pixel lies in some entry's rectangle, and zero when not.
pub open spec fn spec_stitched(
    entries: Seq<StitchEntry>,
    width: int,
    ps: int,
    out: Seq<u8>,
    height: int,
) -> bool {
    &&& forall|i: int, rr: int, cc: int, b: int|
        0 <= i < entries.len() && 0 <= rr < entries[i].h && 0 <= cc < entries[i].w && 0 <= b < ps
            ==> #[trigger] spec_entry_byte(entries[i], width, ps, out, rr, cc, b)
    &&& forall|px: int, py: int, b: int|
        #![trigger spec_at(width, ps, px, py, b)]
        0 <= px < width && 0 <= py < height && 0 <= b < ps && (forall|i: int|
            0 <= i < entries.len() ==> !spec_pixel_in(#[trigger] entries[i], px, py)) ==> out[
            spec_at(width, ps, px, py, b)] == 0
}

/// Compose the entries into one zero-initialized `width` by `height` buffer
/// with `ps` bytes per pixel, copying row by row.
pub fn stitch(width: u32, height: u32, ps: u32, entries: &Vec<StitchEntry>) -> (r: Vec<u8>)
    requires
        0 < ps,
        width * height * ps <= usize::MAX,
        spec_entries_ok(entries@, width as int, height as int, ps as int),
    ensures
        r@.len() == width * height * ps,
        spec_stitched(entries@, width as int, ps as int, r@, height as int),
{
    proof {
        assert(width as int * height as int <= usize::MAX) by (nonlinear_arith)
            requires
                0 < ps,
                width * height * ps <= usize::MAX,
                0 <= width,
                0 <= height,
        ;
    }
    let total: usize = (width as usize) * (height as usize) * (ps as usize);
    let mut out: Vec<u8> = Vec::new();
    let mut z: usize = 0;
    while z < total
        invariant
            z <= total,
            out@.len() == z,
            forall|j: int| 0 <= j < z ==> out@[j] == 0,
        decreases total - z,
    {
        out.push(0);
        z = z + 1;
    }
    proof {
        assert forall|px: int, py: int, b: int|
            #![trigger spec_at(width as int, ps as int, px, py, b)]
            0 <= px < width && 0 <= py < height && 0 <= b < ps implies out@[spec_at(
            width as int,
            ps as int,
            px,
            py,
            b,
        )] == 0 by {
            assert(0 <= (py * width + px) * ps + b < width * height * ps) by (nonlinear_arith)
                requires
                    0 <= px < width,
                    0 <= py < height,
                    0 <= b < ps,
            ;
        }
    }
    if width == 0 {
        proof {
            assert forall|i: int, rr: int, cc: int, b: int|
                0 <= i < entries@.len() && 0 <= rr < entries@[i].h && 0 <= cc < entries@[i].w && 0
                    <= b < ps implies #[trigger] spec_entry_byte(
                entries@[i],
                width as int,
                ps as int,
                out@,
                rr,
                cc,
                b,
            ) by {
                assert(entries@[i].x + entries@[i].w <= 0);
            }
        }
        return out;
    }
    let mut i: usize = 0;
    while i < entries.len()
        invariant
            i <= entries@.len(),
            0 < ps,
            0 < width,
            out@.len() == width * height * ps,
            width * height * ps <= usize::MAX,
            spec_entries_ok(entries@, width as int, height as int, ps as int),
            forall|i2: int, rr: int, cc: int, b: int|
                0 <= i2 < i && 0 <= rr < entries@[i2].h && 0 <= cc < entries@[i2].w && 0 <= b < ps
                    ==> #[trigger] spec_entry_byte(
                    entries@[i2],
                    width as int,
                    ps as int,
                    out@,
                    rr,
                    cc,
                    b,
                ),
            forall|px: int, py: int, b: int|
                #![trigger spec_at(width as int, ps as int, px, py, b)]
                0 <= px < width && 0 <= py < height && 0 <= b < ps && (forall|i2: int|
                    0 <= i2 < i ==> !spec_pixel_in(#[trigger] entries@[i2], px, py)) ==> out@[
                    spec_at(width as int, ps as int, px, py, b)] == 0,
        decreases entries@.len() - i,
    {
        let ex: u32 = entries[i].x;
        let ey: u32 = entries[i].y;
        let ew: u32 = entries[i].w;
        let eh: u32 = entries[i].h;
        let mut rr: usize = 0;
        while rr < eh as usize
            invariant
                rr <= eh,
                i < entries@.len(),
                ex == entries@[i as int].x,
                ey == entries@[i as int].y,
                ew == entries@[i as int].w,
                eh == entries@[i as int].h,
                0 < ps,
                0 < width,
                out@.len() == width * height * ps,
                width * height * ps <= usize::MAX,
                spec_entries_ok(entries@, width as int, height as int, ps as int),
                forall|i2: int, rr2: int, cc: int, b: int|
                    0 <= i2 < i && 0 <= rr2 < entries@[i2].h && 0 <= cc < entries@[i2].w && 0 <= b
                        < ps ==> #[trigger] spec_entry_byte(
                        entries@[i2],
                        width as int,
                        ps as int,
                        out@,
                        rr2,
                        cc,
                        b,
                    ),
                forall|rr2: int, cc: int, b: int|
                    0 <= rr2 < rr && 0 <= cc < ew && 0 <= b < ps ==> #[trigger] spec_entry_byte(
                        entries@[i as int],
                        width as int,
                        ps as int,
                        out@,
                        rr2,
                        cc,
                        b,
                    ),
                forall|px: int, py: int, b: int|
                    #![trigger spec_at(width as int, ps as int, px, py, b)]
                    0 <= px < width && 0 <= py < height && 0 <= b < ps && (forall|i2: int|
                        0 <= i2 < i ==> !spec_pixel_in(#[trigger] entries@[i2], px, py)) && !(ex
                        <= px < ex + ew && ey <= py < ey + rr) ==> out@[spec_at(
                        width as int,
                        ps as int,
                        px,
                        py,
                        b,
                    )] == 0,
            decreases eh - rr,
        {
            proof {
                assert(ew as int * ps as int <= width as int * height as int * ps as int)
                    by (nonlinear_arith)
                    requires
                        ew <= width,
                        1 <= eh <= height,
                        0 <= ps,
                        0 <= ew,
                ;
            }
            let row_bytes: usize = (ew as usize) * (ps as usize);
            let mut k: usize = 0;
            // copy one source row: `ew * ps` consecutive bytes
            while k < row_bytes
                invariant
                    k <= ew * ps,
                    rr < eh,
                    i < entries@.len(),
                    ex == entries@[i as int].x,
                    ey == entries@[i as int].y,
                    ew == entries@[i as int].w,
                    eh == entries@[i as int].h,
                    0 < ps,
                    0 < width,
                    out@.len() == width * height * ps,
                    width * height * ps <= usize::MAX,
                    spec_entries_ok(entries@, width as int, height as int, ps as int),
                    forall|i2: int, rr2: int, cc: int, b: int|
                        0 <= i2 < i && 0 <= rr2 < entries@[i2].h && 0 <= cc < entries@[i2].w && 0
                            <= b < ps ==> #[trigger] spec_entry_byte(
                            entries@[i2],
                            width as int,
                            ps as int,
                            out@,
                            rr2,
                            cc,
                            b,
                        ),
                    forall|rr2: int, cc: int, b: int|
                        0 <= rr2 < rr && 0 <= cc < ew && 0 <= b < ps ==> #[trigger] spec_entry_byte(
                            entries@[i as int],
                            width as int,
                            ps as int,
                            out@,
                            rr2,
                            cc,
                            b,
                        ),
                    forall|cc: int, b: int|
                        0 <= cc < ew && 0 <= b < ps && cc * ps + b < k
                            ==> #[trigger] spec_entry_byte(
                            entries@[i as int],
                            width as int,
                            ps as int,
                            out@,
                            rr as int,
                            cc,
                            b,
                        ),
                    forall|px: int, py: int, b: int|
                        #![trigger spec_at(width as int, ps as int, px, py, b)]
                        0 <= px < width && 0 <= py < height && 0 <= b < ps && (forall|i2: int|
                            0 <= i2 < i ==> !spec_pixel_in(#[trigger] entries@[i2], px, py)) && !(
                        ex <= px < ex + ew && ey <= py < ey + rr) && !(ey + rr == py && ex <= px
                            && (px - ex) * ps + b < k) ==> out@[spec_at(
                            width as int,
                            ps as int,
                            px,
                            py,
                            b,
                        )] == 0,
                    row_bytes == ew * ps,
                decreases ew * ps - k,
            {
                let cc: usize = k / (ps as usize);
                let b: usize = k % (ps as usize);
                let ghost old_out = out@;
                proof {
                    vstd::arithmetic::div_mod::lemma_fundamental_div_mod(k as int, ps as int);
                    assert(cc < ew) by (nonlinear_arith)
                        requires
                            k < ew * ps,
                            0 < ps,
                            cc == k as int / ps as int,
                            k as int == ps as int * (k as int / ps as int) + k as int % (
                            ps as int),
                            0 <= k as int % (ps as int) < ps,
                    ;
                    assert(((ey + rr) * width + (ex + cc)) * ps + b < width * height * ps)
                        by (nonlinear_arith)
                        requires
                            ey + rr < height,
                            ex + cc < width,
                            b < ps,
                            0 < ps,
                            0 < width,
                            0 <= ey + rr,
                            0 <= ex + cc,
                            0 <= b,
                    ;
                    assert((rr as int * ew + cc) * ps + b < ew * eh * ps) by (nonlinear_arith)
                        requires
                            rr < eh,
                            cc < ew,
                            b < ps,
                            0 < ps,
                            0 <= rr,
                            0 <= cc,
                            0 <= b,
                            0 <= ew,
                    ;
                    assert((ey as int + rr as int) * (width as int) * (ps as int)
                        <= (height as int) * (width as int) * (ps as int)) by (nonlinear_arith)
                        requires
                            ey + rr < height,
                            0 <= ey,
                            0 < width,
                            0 < ps,
                    ;
                }
                proof {
                    assert((ey as int + rr as int) * (width as int) + (ex as int + cc as int)
                        < width as int * height as int) by (nonlinear_arith)
                        requires
                            ey + rr < height,
                            ex + cc < width,
                            0 <= ey + rr,
                            0 <= ex,
                            0 <= cc,
                            0 < width,
                    ;
                    assert((width as int * height as int) * ps as int <= usize::MAX)
                        by (nonlinear_arith)
                        requires
                            width * height * ps <= usize::MAX,
                    ;
                    assert((rr as int * ew as int + cc as int) * ps as int + b
                        < ew as int * eh as int * ps as int) by (nonlinear_arith)
                        requires
                            rr < eh,
                            cc < ew,
                            b < ps,
                            0 < ps,
                            0 <= rr,
                            0 <= cc,
                            0 <= b,
                            0 <= ew,
                    ;
                    assert(ew as int * eh as int * ps as int <= width as int * height as int
                        * ps as int) by (nonlinear_arith)
                        requires
                            ew <= width,
                            eh <= height,
                            0 <= ps,
                            0 <= ew,
                            0 <= eh,
                    ;
                    assert(ew as int * eh as int * ps as int <= usize::MAX);
                    assert((rr as int * ew as int + cc as int) * ps as int + b <= usize::MAX);
                    assert((ey as int + rr as int) * (width as int) <= width as int * height as int)
                        by (nonlinear_arith)
                        requires
                            ey + rr < height,
                            0 <= ey + rr,
                            0 < width,
                    ;
                    assert(width as int * height as int <= width as int * height as int
                        * ps as int) by (nonlinear_arith)
                        requires
                            0 < ps,
                            0 <= width,
                            0 <= height,
                    ;
                    assert(rr as int * ew as int <= ew as int * eh as int) by (nonlinear_arith)
                        requires
                            rr < eh,
                            0 <= rr,
                            0 <= ew,
                    ;
                    assert(rr as int * ew as int + cc as int <= ew as int * eh as int)
                        by (nonlinear_arith)
                        requires
                            rr < eh,
                            cc < ew,
                            0 <= rr,
                            0 <= cc,
                            0 <= ew,
                    ;
                    assert(ew as int * eh as int <= ew as int * eh as int * ps as int)
                        by (nonlinear_arith)
                        requires
                            0 < ps,
                            0 <= ew,
                            0 <= eh,
                    ;
                }
                let dst: usize = (((ey as usize) + rr) * (width as usize) + ((ex as usize) + cc))
                    * (ps as usize) + b;
                let src: usize = (rr * (ew as usize) + cc) * (ps as usize) + b;
                let v: u8 = entries[i].data[src];
                out.set(dst, v);
                proof {
                    // the write lands on this entry's pixel, so every older
                    // claim is about a different byte
                    assert forall|i2: int, rr2: int, cc2: int, b2: int|
                        0 <= i2 < i && 0 <= rr2 < entries@[i2].h && 0 <= cc2 < entries@[i2].w && 0
                            <= b2 < ps implies #[trigger] spec_entry_byte(
                        entries@[i2],
                        width as int,
                        ps as int,
                        out@,
                        rr2,
                        cc2,
                        b2,
                    ) by {
                        let px2 = entries@[i2].x + cc2;
                        let py2 = entries@[i2].y + rr2;
                        assert(spec_entry_byte(
                            entries@[i2],
                            width as int,
                            ps as int,
                            old_out,
                            rr2,
                            cc2,
                            b2,
                        ));
                        if spec_at(width as int, ps as int, px2, py2, b2) == dst as int {
                            lemma_at_inj(
                                width as int,
                                ps as int,
                                px2,
                                py2,
                                b2,
                                ex + cc,
                                ey + rr as int,
                                b as int,
                            );
                            assert(spec_pixel_in(entries@[i2], px2, py2));
                            assert(spec_pixel_in(entries@[i as int], px2, py2));
                            assert(spec_no_overlap(entries@[i2], entries@[i as int]));
                            assert(false);
                        } else {
                            assert(entries@[i2].x + entries@[i2].w <= width && entries@[i2].y
                                + entries@[i2].h <= height);
                            lemma_at_range(
                                width as int,
                                height as int,
                                ps as int,
                                px2,
                                py2,
                                b2,
                            );
                            assert(out@[spec_at(width as int, ps as int, px2, py2, b2)]
                                == old_out[spec_at(width as int, ps as int, px2, py2, b2)]);
                        }
                    }
                    assert forall|rr2: int, cc2: int, b2: int|
                        0 <= rr2 < rr && 0 <= cc2 < ew && 0 <= b2 < ps implies
                        #[trigger] spec_entry_byte(
                        entries@[i as int],
                        width as int,
                        ps as int,
                        out@,
                        rr2,
                        cc2,
                        b2,
                    ) by {
                        let px2 = ex + cc2;
                        let py2 = ey + rr2;
                        assert(spec_entry_byte(
                            entries@[i as int],
                            width as int,
                            ps as int,
                            old_out,
                            rr2,
                            cc2,
                            b2,
                        ));
                        if spec_at(width as int, ps as int, px2, py2, b2) == dst as int {
                            lemma_at_inj(
                                width as int,
                                ps as int,
                                px2,
                                py2,
                                b2,
                                ex + cc,
                                ey + rr as int,
                                b as int,
                            );
                            assert(false);
                        } else {
                            assert(entries@[i as int].x + entries@[i as int].w <= width
                                && entries@[i as int].y + entries@[i as int].h <= height);
                            lemma_at_range(
                                width as int,
                                height as int,
                                ps as int,
                                px2,
                                py2,
                                b2,
                            );
                            assert(out@[spec_at(width as int, ps as int, px2, py2, b2)]
                                == old_out[spec_at(width as int, ps as int, px2, py2, b2)]);
                        }
                    }
                    assert forall|cc2: int, b2: int|
                        0 <= cc2 < ew && 0 <= b2 < ps && cc2 * ps + b2 < k + 1 implies
                        #[trigger] spec_entry_byte(
                        entries@[i as int],
                        width as int,
                        ps as int,
                        out@,
                        rr as int,
                        cc2,
                        b2,
                    ) by {
                        if cc2 == cc as int && b2 == b as int {
                            assert(out@[dst as int] == v);
                        } else {
                            assert(spec_entry_byte(
                                entries@[i as int],
                                width as int,
                                ps as int,
                                old_out,
                                rr as int,
                                cc2,
                                b2,
                            ) || !(cc2 * ps + b2 < k));
                            assert(cc2 * ps + b2 != cc as int * ps + b) by (nonlinear_arith)
                                requires
                                    0 <= cc2,
                                    0 <= b2 < ps,
                                    0 <= cc,
                                    0 <= b < ps,
                                    !(cc2 == cc && b2 == b),
                            ;
                            assert(cc2 * ps + b2 < k);
                            if spec_at(width as int, ps as int, ex + cc2, ey + rr as int, b2)
                                == dst as int {
                                lemma_at_inj(
                                    width as int,
                                    ps as int,
                                    ex + cc2,
                                    ey + rr as int,
                                    b2,
                                    ex + cc,
                                    ey + rr as int,
                                    b as int,
                                );
                                assert(false);
                            } else {
                                assert(entries@[i as int].x + entries@[i as int].w <= width
                                    && entries@[i as int].y + entries@[i as int].h <= height);
                                lemma_at_range(
                                    width as int,
                                    height as int,
                                    ps as int,
                                    ex + cc2,
                                    ey + rr as int,
                                    b2,
                                );
                                assert(out@[spec_at(
                                    width as int,
                                    ps as int,
                                    ex + cc2,
                                    ey + rr as int,
                                    b2,
                                )] == old_out[spec_at(
                                    width as int,
                                    ps as int,
                                    ex + cc2,
                                    ey + rr as int,
                                    b2,
                                )]);
                            }
                        }
                    }
                    assert(cc as int * ps + b == k) by (nonlinear_arith)
                        requires
                            cc == k as int / ps as int,
                            b == k as int % ps as int,
                            0 < ps,
                            k as int == ps as int * (k as int / ps as int) + k as int % (
                            ps as int),
                    ;
                    assert forall|px: int, py: int, b2: int|
                        0 <= px < width && 0 <= py < height && 0 <= b2 < ps && (forall|i2: int|
                            0 <= i2 < i ==> !spec_pixel_in(#[trigger] entries@[i2], px, py)) && !(
                        ex <= px < ex + ew && ey <= py < ey + rr) && !(ey + rr == py && ex <= px
                            && (px - ex) * ps + b2 < k + 1) implies out@[spec_at(
                        width as int,
                        ps as int,
                        px,
                        py,
                        b2,
                    )] == 0 by {
                        if spec_at(width as int, ps as int, px, py, b2) == dst as int {
                            lemma_at_inj(
                                width as int,
                                ps as int,
                                px,
                                py,
                                b2,
                                ex + cc,
                                ey + rr as int,
                                b as int,
                            );
                            assert((px - ex) * ps + b2 == cc as int * ps + b) by (nonlinear_arith)
                                requires
                                    px - ex == cc,
                                    b2 == b,
                            ;
                            assert(false);
                        } else {
                            lemma_at_range(width as int, height as int, ps as int, px, py, b2);
                            assert(out@[spec_at(width as int, ps as int, px, py, b2)]
                                == old_out[spec_at(width as int, ps as int, px, py, b2)]);
                            assert(old_out[spec_at(width as int, ps as int, px, py, b2)] == 0);
                        }
                    }
                }
                k = k + 1;
            }
            proof {
                assert forall|px: int, py: int, b: int|
                    0 <= px < width && 0 <= py < height && 0 <= b < ps && (forall|i2: int|
                        0 <= i2 < i ==> !spec_pixel_in(#[trigger] entries@[i2], px, py)) && !(ex
                        <= px < ex + ew && ey <= py < ey + rr + 1) implies out@[spec_at(
                    width as int,
                    ps as int,
                    px,
                    py,
                    b,
                )] == 0 by {
                    if ex <= px < ex + ew {
                        assert(!(ey <= py < ey + rr));
                        assert(py != ey + rr);
                    } else {
                        if ey + rr == py && ex <= px {
                            assert(px >= ex + ew);
                            assert((px - ex) * ps + b >= ew * ps) by (nonlinear_arith)
                                requires
                                    px - ex >= ew,
                                    0 <= b,
                                    0 < ps,
                                    0 <= ew,
                            ;
                        }
                    }
                }
                assert forall|rr2: int, cc: int, b: int|
                    0 <= rr2 < rr + 1 && 0 <= cc < ew && 0 <= b < ps implies
                    #[trigger] spec_entry_byte(
                    entries@[i as int],
                    width as int,
                    ps as int,
                    out@,
                    rr2,
                    cc,
                    b,
                ) by {
                    if rr2 == rr as int {
                        assert(cc * ps + b < ew * ps) by (nonlinear_arith)
                            requires
                                0 <= cc < ew,
                                0 <= b < ps,
                        ;
                    }
                }
            }
            rr = rr + 1;
        }
        i = i + 1;
    }
    out
}

} // verus!
