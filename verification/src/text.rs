use vstd::prelude::*;
use crate::frame::{in_rect, Color, FrameBuffer};

verus! {

/// The four bytes a coverage value paints: a grayscale intensity with zero
/// alpha — the intended compositing of the text overlay, not a
/// placeholder.
pub open spec fn gray_bytes(v: u8) -> Seq<u8> {
    seq![v, v, v, 0u8]
}

/// Blits a pre-rasterized coverage bitmap (`cov_w * cov_h` intensity
/// values, row-major, rows increasing down the screen) into the
/// framebuffer with its top-left corner at `(sx, sy)`. Every covered
/// viewport pixel takes the grayscale of its coverage value; writes
/// falling outside the framebuffer are skipped.
pub fn blit_coverage(
    fb: &mut FrameBuffer,
    coverage: &Vec<u8>,
    cov_w: usize,
    cov_h: usize,
    sx: usize,
    sy: usize,
)
    requires
        old(fb).wf(),
        coverage@.len() >= (cov_w as int) * (cov_h as int),
        sx + cov_w <= i64::MAX,
        sy + cov_h <= i64::MAX,
    ensures
        final(fb).wf(),
        final(fb).width == old(fb).width,
        final(fb).height == old(fb).height,
        forall|a: int, b: int|
            old(fb).in_frame(a, b) ==> final(fb).pixel(a, b) == (if in_rect(
                sx as int,
                sy as int,
                cov_w as int,
                cov_h as int,
                a,
                b,
            ) {
                gray_bytes(coverage@[(b - sy) * (cov_w as int) + (a - sx)])
            } else {
                old(fb).pixel(a, b)
            }),
{
    let ghost fb0 = *fb;
    let mut i: usize = 0;
    while i < cov_w
        invariant
            fb.wf(),
            fb0.wf(),
            fb.width == fb0.width,
            fb.height == fb0.height,
            i <= cov_w,
            coverage@.len() >= (cov_w as int) * (cov_h as int),
            sx + cov_w <= i64::MAX,
            sy + cov_h <= i64::MAX,
            forall|a: int, b: int|
                fb0.in_frame(a, b) ==> fb.pixel(a, b) == (if in_rect(
                    sx as int,
                    sy as int,
                    i as int,
                    cov_h as int,
                    a,
                    b,
                ) {
                    gray_bytes(coverage@[(b - sy) * (cov_w as int) + (a - sx)])
                } else {
                    fb0.pixel(a, b)
                }),
        decreases cov_w - i,
    {
        let mut j: usize = 0;
        while j < cov_h
            invariant
                fb.wf(),
                fb0.wf(),
                fb.width == fb0.width,
                fb.height == fb0.height,
                i < cov_w,
                j <= cov_h,
                coverage@.len() >= (cov_w as int) * (cov_h as int),
                sx + cov_w <= i64::MAX,
                sy + cov_h <= i64::MAX,
                forall|a: int, b: int|
                    fb0.in_frame(a, b) ==> fb.pixel(a, b) == (if in_rect(
                        sx as int,
                        sy as int,
                        i as int,
                        cov_h as int,
                        a,
                        b,
                    ) || (a == sx + i && sy <= b < sy + j) {
                        gray_bytes(coverage@[(b - sy) * (cov_w as int) + (a - sx)])
                    } else {
                        fb0.pixel(a, b)
                    }),
            decreases cov_h - j,
        {
            proof {
                assert(0 <= (j as int) * (cov_w as int) && (j as int) * (cov_w as int) + (i as int)
                    < (cov_w as int) * (cov_h as int)) by (nonlinear_arith)
                    requires
                        0 <= (i as int) < (cov_w as int),
                        0 <= (j as int) < (cov_h as int),
                ;
            }
            let clen = coverage.len();
            proof {
                assert(clen as int == coverage@.len());
            }
            let v = coverage[j * cov_w + i];
            let ghost prev = *fb;
            fb.set_pixel(sx as i64 + i as i64, sy as i64 + j as i64, Color { r: v, g: v, b: v, a: 0 });
            proof {
                assert forall|a: int, b: int| fb0.in_frame(a, b) implies fb.pixel(a, b) == (
                if in_rect(sx as int, sy as int, i as int, cov_h as int, a, b) || (a == sx + i && sy
                    <= b < sy + (j + 1)) {
                    gray_bytes(coverage@[(b - sy) * (cov_w as int) + (a - sx)])
                } else {
                    fb0.pixel(a, b)
                }) by {
                    if a == sx + i && b == sy + j {
                        assert((b - sy) * (cov_w as int) + (a - sx) == (j as int) * (cov_w as int)
                            + (i as int));
                    } else {
                        assert(fb.pixel(a, b) == prev.pixel(a, b));
                    }
                }
            }
            j += 1;
        }
        i += 1;
    }
}

} // verus!
