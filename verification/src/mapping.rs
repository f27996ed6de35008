//! Sizing of the short-lived window-buffer mapping.
//!
//! A present maps the window's framebuffer for exactly one copy. The byte
//! size handed to the mapping syscall is derived here: the authoritative
//! window dimensions give a pixel count at four bytes per pixel, and the
//! request is rounded up to whole pages, a zero-byte request still occupying
//! one full page.

use vstd::prelude::*;
use vstd::arithmetic::div_mod::{
    lemma_div_by_multiple, lemma_div_is_ordered, lemma_fundamental_div_mod, lemma_mod_bound,
    lemma_mod_multiples_basic,
};
use vstd::arithmetic::mul::lemma_mul_inequality;

verus! {

/// The platform page size in bytes.
pub const PAGE_SIZE: usize = 4096;

/// The byte length actually mapped for a request of `requested` bytes: the
/// request rounded up to a whole number of pages, a zero-byte request
/// occupying one full page.
pub open spec fn page_rounded(requested: int) -> int {
    if requested == 0 {
        PAGE_SIZE as int
    } else {
        ((requested + PAGE_SIZE - 1) / (PAGE_SIZE as int)) * (PAGE_SIZE as int)
    }
}

/// Rounds a requested mapping size up to whole pages.
pub fn page_aligned_size(requested: usize) -> (r: usize)
    requires
        requested + PAGE_SIZE - 1 <= usize::MAX,
    ensures
        r == page_rounded(requested as int),
        r as int % (PAGE_SIZE as int) == 0,
        requested <= r,
        PAGE_SIZE <= r,
        requested > 0 ==> r < requested + PAGE_SIZE,
{
    if requested == 0 {
        PAGE_SIZE
    } else {
        let sum: usize = requested + (PAGE_SIZE - 1);
        let pages: usize = sum / PAGE_SIZE;
        proof {
            lemma_fundamental_div_mod(sum as int, PAGE_SIZE as int);
            lemma_mod_multiples_basic(pages as int, PAGE_SIZE as int);
            assert(pages * PAGE_SIZE <= sum);
            if pages == 0 {
                assert(sum as int == sum as int % (PAGE_SIZE as int));
                assert(false);
            }
            lemma_mul_inequality(1, pages as int, PAGE_SIZE as int);
        }
        pages * PAGE_SIZE
    }
}

/// A mapping sized for `width * height` pixels of four bytes each exposes
/// at least that many 32-bit values: the page rounding never loses room, so
/// a present against the authoritative size always fits the mapped region.
pub proof fn lemma_page_rounding_keeps_pixels(width: usize, height: usize)
    requires
        width * height * 4 <= usize::MAX,
    ensures
        width * height <= page_rounded((width * height * 4) as int) / 4,
{
    let wh = (width * height) as int;
    let r = wh * 4;
    if r == 0 {
        assert(page_rounded(r) / 4 == 1024);
    } else {
        let p = PAGE_SIZE as int;
        let q = (r + p - 1) / p;
        lemma_fundamental_div_mod(r + p - 1, p);
        lemma_mod_bound(r + p - 1, p);
        assert(r <= q * p);
        lemma_div_is_ordered(r, q * p, 4);
        lemma_div_by_multiple(wh, 4);
    }
}

/// The byte length of a `width * height` window buffer of 4-byte pixels, or
/// `None` where that count of bytes does not fit in `usize`.
pub fn buffer_byte_size(width: usize, height: usize) -> (r: Option<usize>)
    ensures
        width * height * 4 <= usize::MAX ==> r == Some((width * height * 4) as usize),
        width * height * 4 > usize::MAX ==> r is None,
{
    match width.checked_mul(height) {
        Some(pixels) => pixels.checked_mul(4),
        None => {
            proof {
                assert(width * height * 4 > usize::MAX) by (nonlinear_arith)
                    requires
                        width * height > usize::MAX,
                ;
            }
            None
        },
    }
}

} // verus!
