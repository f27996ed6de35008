//! The cropped row copy at the heart of a present.
//!
//! Client and window buffers are row-major arrays of packed 32-bit pixels
//! with independent row lengths. A present copies the overlapping top-left
//! rectangle row by row and leaves every other destination pixel exactly as
//! the compositor last wrote it: crop without clear.

use vstd::prelude::*;
use vstd::arithmetic::div_mod::{
    lemma_div_pos_is_pos, lemma_fundamental_div_mod, lemma_fundamental_div_mod_converse,
    lemma_mod_bound,
};
use vstd::arithmetic::mul::{
    lemma_mul_basics, lemma_mul_by_zero_is_zero, lemma_mul_inequality, lemma_mul_is_commutative,
    lemma_mul_is_distributive_add_other_way,
};

verus! {

/// The smaller of two mathematical integers.
pub open spec fn min_int(a: int, b: int) -> int {
    if a <= b {
        a
    } else {
        b
    }
}

/// Whether row-major index `i` of a destination with row length `dw` lies in
/// the copied top-left rectangle of `mw` columns and `mh` rows.
pub open spec fn covered(i: int, dw: int, mw: int, mh: int) -> bool {
    dw > 0 && 0 <= i && i / dw < mh && i % dw < mw
}

/// The destination contents after a cropped row copy: each pixel of the
/// top-left `min(sw, dw)` by `min(sh, dh)` rectangle comes from the source
/// pixel of the same row and column, and every other destination pixel keeps
/// its prior value.
pub open spec fn blit_spec(
    dest0: Seq<u32>,
    src: Seq<u32>,
    dw: int,
    dh: int,
    sw: int,
    sh: int,
) -> Seq<u32> {
    let mw = min_int(sw, dw);
    let mh = min_int(sh, dh);
    Seq::new(
        dest0.len(),
        |i: int|
            if covered(i, dw, mw, mh) {
                src[(i / dw) * sw + i % dw]
            } else {
                dest0[i]
            },
    )
}

/// Row `y`, column `x` of a row-major array with row length `w` sits at
/// index `y * w + x`, and that index decomposes back into the same row and
/// column.
proof fn lemma_row_major(y: int, x: int, w: int)
    requires
        0 < w,
        0 <= y,
        0 <= x < w,
    ensures
        (y * w + x) / w == y,
        (y * w + x) % w == x,
{
    lemma_fundamental_div_mod_converse(y * w + x, w, y, x);
}

/// The index of a pixel in the first `h` rows and first `w` columns stays
/// below `w * h`.
proof fn lemma_row_major_in_range(y: int, x: int, w: int, h: int)
    requires
        0 <= y < h,
        0 <= x < w,
    ensures
        0 <= y * w + x < w * h,
{
    assert(0 <= y * w + x < w * h) by (nonlinear_arith)
        requires
            0 <= y < h,
            0 <= x < w,
    ;
}

/// Any row-major index below `w * h` decomposes into a row below `h` and a
/// column below `w`.
proof fn lemma_index_decompose(i: int, w: int, h: int)
    requires
        0 < w,
        0 <= i < w * h,
    ensures
        0 <= i / w < h,
        0 <= i % w < w,
        (i / w) * w + i % w == i,
{
    lemma_fundamental_div_mod(i, w);
    lemma_mod_bound(i, w);
    lemma_div_pos_is_pos(i, w);
    lemma_mul_is_commutative(w, i / w);
    if i / w >= h {
        lemma_mul_inequality(h, i / w, w);
        lemma_mul_is_commutative(w, h);
        assert(false);
    }
}

/// A row-major index at or past `w * h` does not fall in the first `h` rows.
proof fn lemma_index_past_rows(i: int, w: int, h: int)
    requires
        0 < w,
        0 <= h,
        w * h <= i,
    ensures
        i / w >= h,
{
    if i / w < h {
        lemma_fundamental_div_mod(i, w);
        lemma_mod_bound(i, w);
        lemma_div_pos_is_pos(i, w);
        lemma_mul_inequality(i / w + 1, h, w);
        lemma_mul_is_distributive_add_other_way(w, i / w, 1);
        lemma_mul_is_commutative(w, i / w);
        lemma_mul_is_commutative(w, h);
        lemma_mul_basics(w);
        assert(false);
    }
}

/// Partial coverage while the copy is under way: rows before `y` are done,
/// and in row `y` the columns before `x` are done.
spec fn covered_upto(i: int, dw: int, mw: int, y: int, x: int) -> bool {
    dw > 0 && 0 <= i && i % dw < mw && (i / dw < y || (i / dw == y && i % dw < x))
}

/// Copies the overlapping top-left rectangle of `src` (row length
/// `src_width`, `src_height` rows) into `dest` (row length `dest_width`,
/// `dest_height` rows), row by row, leaving all other destination pixels
/// unchanged.
pub fn blit_rows(
    dest: &mut Vec<u32>,
    dest_width: usize,
    dest_height: usize,
    src: &Vec<u32>,
    src_width: usize,
    src_height: usize,
)
    requires
        dest_width * dest_height <= old(dest)@.len(),
        src_width * src_height <= src@.len(),
    ensures
        final(dest)@ == blit_spec(
            old(dest)@,
            src@,
            dest_width as int,
            dest_height as int,
            src_width as int,
            src_height as int,
        ),
{
    let min_w: usize = if src_width <= dest_width {
        src_width
    } else {
        dest_width
    };
    let min_h: usize = if src_height <= dest_height {
        src_height
    } else {
        dest_height
    };
    let ghost dw = dest_width as int;
    let ghost sw = src_width as int;
    let ghost mw = min_w as int;
    let ghost dest0 = old(dest)@;
    let dest_len: usize = dest.len();
    let src_len: usize = src.len();
    let mut y: usize = 0;
    while y < min_h
        invariant
            y <= min_h,
            min_w as int == mw,
            mw == min_int(src_width as int, dest_width as int),
            min_h as int == min_int(src_height as int, dest_height as int),
            dw == dest_width as int,
            sw == src_width as int,
            dest0 == old(dest)@,
            dest_len == dest0.len(),
            src_len == src@.len(),
            dest_width * dest_height <= dest0.len(),
            src_width * src_height <= src@.len(),
            dest@.len() == dest0.len(),
            forall|i: int|
                0 <= i < dest@.len() ==> dest@[i] == (if covered_upto(i, dw, mw, y as int, 0) {
                    src@[(i / dw) * sw + i % dw]
                } else {
                    dest0[i]
                }),
        decreases min_h - y,
    {
        let mut x: usize = 0;
        while x < min_w
            invariant
                x <= min_w,
                y < min_h,
                min_w as int == mw,
                mw == min_int(src_width as int, dest_width as int),
                min_h as int == min_int(src_height as int, dest_height as int),
                dw == dest_width as int,
                sw == src_width as int,
                dest0 == old(dest)@,
                dest_len == dest0.len(),
                src_len == src@.len(),
                dest_width * dest_height <= dest0.len(),
                src_width * src_height <= src@.len(),
                dest@.len() == dest0.len(),
                forall|i: int|
                    0 <= i < dest@.len() ==> dest@[i] == (if covered_upto(
                        i,
                        dw,
                        mw,
                        y as int,
                        x as int,
                    ) {
                        src@[(i / dw) * sw + i % dw]
                    } else {
                        dest0[i]
                    }),
            decreases min_w - x,
        {
            proof {
                lemma_row_major_in_range(y as int, x as int, dw, dest_height as int);
                lemma_row_major_in_range(y as int, x as int, sw, src_height as int);
                lemma_row_major(y as int, x as int, dw);
                lemma_row_major(y as int, x as int, sw);
            }
            let di: usize = y * dest_width + x;
            let si: usize = y * src_width + x;
            dest[di] = src[si];
            proof {
                assert forall|i: int| 0 <= i < dest@.len() implies dest@[i] == (if covered_upto(
                    i,
                    dw,
                    mw,
                    y as int,
                    x as int + 1,
                ) {
                    src@[(i / dw) * sw + i % dw]
                } else {
                    dest0[i]
                }) by {
                    if i != di {
                        lemma_fundamental_div_mod(i, dw);
                        lemma_mul_is_commutative(dw, i / dw);
                    }
                }
            }
            x += 1;
        }
        proof {
            assert forall|i: int| 0 <= i < dest@.len() implies dest@[i] == (if covered_upto(
                i,
                dw,
                mw,
                y as int + 1,
                0,
            ) {
                src@[(i / dw) * sw + i % dw]
            } else {
                dest0[i]
            }) by {
                assert(covered_upto(i, dw, mw, y as int, mw) == covered_upto(
                    i,
                    dw,
                    mw,
                    y as int + 1,
                    0,
                ));
            }
        }
        y += 1;
    }
    proof {
        let result = blit_spec(
            dest0,
            src@,
            dest_width as int,
            dest_height as int,
            src_width as int,
            src_height as int,
        );
        let mh = min_int(src_height as int, dest_height as int);
        assert forall|i: int| 0 <= i < dest@.len() implies dest@[i] == result[i] by {
            assert(covered_upto(i, dw, mw, mh, 0) == covered(i, dw, mw, mh));
        }
        assert(dest@ =~= result);
    }
}

/// With matching client and window sizes, every client pixel appears
/// unchanged at the same row-major index of the destination, and no
/// destination pixel at or past the `w * h` range is touched.
pub proof fn lemma_blit_matching_sizes(dest0: Seq<u32>, src: Seq<u32>, w: int, h: int)
    requires
        0 <= w,
        0 <= h,
        w * h <= src.len(),
        w * h <= dest0.len(),
    ensures
        forall|i: int| 0 <= i < w * h ==> #[trigger] blit_spec(dest0, src, w, h, w, h)[i] == src[i],
        forall|i: int|
            w * h <= i < dest0.len() ==> #[trigger] blit_spec(dest0, src, w, h, w, h)[i]
                == dest0[i],
{
    assert forall|i: int| 0 <= i < w * h implies #[trigger] blit_spec(dest0, src, w, h, w, h)[i]
        == src[i] by {
        if w == 0 {
            lemma_mul_by_zero_is_zero(h);
            assert(false);
        }
        lemma_index_decompose(i, w, h);
        assert(covered(i, w, min_int(w, w), min_int(h, h)));
    }
    assert forall|i: int| w * h <= i < dest0.len() implies #[trigger] blit_spec(
        dest0,
        src,
        w,
        h,
        w,
        h,
    )[i] == dest0[i] by {
        if w > 0 {
            lemma_index_past_rows(i, w, h);
        }
    }
}

/// Cropping: with the window no wider and no taller than the client buffer,
/// exactly the top-left `dw` by `dh` rectangle of the client buffer is
/// copied, and every destination pixel at or past `dw * dh` keeps its prior
/// value; nothing is wrapped or scaled.
pub proof fn lemma_blit_crops(dest0: Seq<u32>, src: Seq<u32>, dw: int, dh: int, sw: int, sh: int)
    requires
        0 < dw <= sw,
        0 <= dh <= sh,
        dw * dh <= dest0.len(),
        sw * sh <= src.len(),
    ensures
        forall|y: int, x: int|
            0 <= y < dh && 0 <= x < dw ==> blit_spec(dest0, src, dw, dh, sw, sh)[#[trigger] (y * dw
                + x)] == src[y * sw + x],
        forall|i: int|
            dw * dh <= i < dest0.len() ==> #[trigger] blit_spec(dest0, src, dw, dh, sw, sh)[i]
                == dest0[i],
{
    assert forall|y: int, x: int| 0 <= y < dh && 0 <= x < dw implies blit_spec(
        dest0,
        src,
        dw,
        dh,
        sw,
        sh,
    )[#[trigger] (y * dw + x)] == src[y * sw + x] by {
        lemma_row_major(y, x, dw);
        lemma_row_major_in_range(y, x, dw, dh);
        assert(covered(y * dw + x, dw, min_int(sw, dw), min_int(sh, dh)));
    }
    assert forall|i: int| dw * dh <= i < dest0.len() implies #[trigger] blit_spec(
        dest0,
        src,
        dw,
        dh,
        sw,
        sh,
    )[i] == dest0[i] by {
        lemma_index_past_rows(i, dw, dh);
    }
}

/// Expansion: with the window at least as wide and as tall as the client
/// buffer, only the top-left `sw` by `sh` region of the destination is
/// overwritten, and every destination pixel outside that region keeps its
/// prior value.
pub proof fn lemma_blit_expands(dest0: Seq<u32>, src: Seq<u32>, dw: int, dh: int, sw: int, sh: int)
    requires
        0 <= sw <= dw,
        0 <= sh <= dh,
        dw * dh <= dest0.len(),
        sw * sh <= src.len(),
    ensures
        forall|y: int, x: int|
            0 <= y < sh && 0 <= x < sw ==> blit_spec(dest0, src, dw, dh, sw, sh)[#[trigger] (y * dw
                + x)] == src[y * sw + x],
        forall|i: int|
            0 <= i < dest0.len() && !(dw > 0 && i / dw < sh && i % dw < sw)
                ==> #[trigger] blit_spec(dest0, src, dw, dh, sw, sh)[i] == dest0[i],
{
    assert forall|y: int, x: int| 0 <= y < sh && 0 <= x < sw implies blit_spec(
        dest0,
        src,
        dw,
        dh,
        sw,
        sh,
    )[#[trigger] (y * dw + x)] == src[y * sw + x] by {
        lemma_row_major(y, x, dw);
        lemma_row_major_in_range(y, x, dw, dh);
        assert(covered(y * dw + x, dw, min_int(sw, dw), min_int(sh, dh)));
    }
}

/// Presenting the same unchanged client buffer twice in a row against the
/// same window size leaves the destination exactly as after the first
/// present.
pub proof fn lemma_blit_idempotent(
    dest0: Seq<u32>,
    src: Seq<u32>,
    dw: int,
    dh: int,
    sw: int,
    sh: int,
)
    ensures
        blit_spec(blit_spec(dest0, src, dw, dh, sw, sh), src, dw, dh, sw, sh) == blit_spec(
            dest0,
            src,
            dw,
            dh,
            sw,
            sh,
        ),
{
    let once = blit_spec(dest0, src, dw, dh, sw, sh);
    let twice = blit_spec(once, src, dw, dh, sw, sh);
    assert forall|i: int| 0 <= i < once.len() implies twice[i] == once[i] by {}
    assert(twice =~= once);
}

/// A present against a window or client buffer of zero reported width or
/// height copies nothing: the destination keeps its prior contents.
pub proof fn lemma_blit_degenerate(
    dest0: Seq<u32>,
    src: Seq<u32>,
    dw: int,
    dh: int,
    sw: int,
    sh: int,
)
    requires
        dw == 0 || dh == 0 || sw == 0 || sh == 0,
    ensures
        blit_spec(dest0, src, dw, dh, sw, sh) == dest0,
{
    let result = blit_spec(dest0, src, dw, dh, sw, sh);
    assert forall|i: int| 0 <= i < dest0.len() implies result[i] == dest0[i] by {
        if covered(i, dw, min_int(sw, dw), min_int(sh, dh)) {
            lemma_mod_bound(i, dw);
            lemma_div_pos_is_pos(i, dw);
        }
    }
    assert(result =~= dest0);
}

} // verus!
