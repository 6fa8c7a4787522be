use vstd::prelude::*;

verus! {

/// An RGBA color, one byte per channel.
#[derive(Copy, Clone, Debug, PartialEq, Eq, Structural)]
pub struct Color {
    pub r: u8,
    pub g: u8,
    pub b: u8,
    pub a: u8,
}

/// The four bytes a color occupies in the framebuffer, in storage order.
pub open spec fn color_bytes(c: Color) -> Seq<u8> {
    seq![c.r, c.g, c.b, c.a]
}

/// Membership in an axis-aligned rectangle: `rw` columns starting at `x0`
/// and `rh` rows starting at `y0`.
pub open spec fn in_rect(x0: int, y0: int, rw: int, rh: int, a: int, b: int) -> bool {
    &&& x0 <= a < x0 + rw
    &&& y0 <= b < y0 + rh
}

/// An owned software framebuffer: `width * height` pixels in row-major
/// order, four bytes (RGBA) per pixel. All drawing goes through
/// `set_pixel`, which silently skips writes outside the buffer, so a
/// transient mismatch between the window and the grid degrades to missing
/// pixels rather than a fault.
pub struct FrameBuffer {
    pub width: u32,
    pub height: u32,
    pub data: Vec<u8>,
}

impl FrameBuffer {
    /// The byte store holds exactly four bytes per pixel.
    pub open spec fn wf(self) -> bool {
        self.data@.len() == 4 * (self.width as int) * (self.height as int)
    }

    /// Whether pixel coordinates lie inside the buffer.
    pub open spec fn in_frame(self, x: int, y: int) -> bool {
        &&& 0 <= x < self.width as int
        &&& 0 <= y < self.height as int
    }

    /// The four stored bytes of the pixel at `(x, y)`.
    pub open spec fn pixel(self, x: int, y: int) -> Seq<u8> {
        let base = 4 * (y * (self.width as int) + x);
        self.data@.subrange(base, base + 4)
    }

    /// A buffer of the given dimensions with every byte zero.
    pub fn new(width: u32, height: u32) -> (fb: Self)
        requires
            4 * (width as int) * (height as int) <= usize::MAX as int,
        ensures
            fb.wf(),
            fb.width == width,
            fb.height == height,
            forall|k: int| 0 <= k < fb.data@.len() ==> fb.data@[k] == 0u8,
    {
        let wn = width as usize;
        let hn = height as usize;
        proof {
            assert(0 <= (wn as int) * (hn as int) && 4 * ((wn as int) * (hn as int)) == 4 * (
            width as int) * (height as int)) by (nonlinear_arith)
                requires
                    wn as int == width as int,
                    hn as int == height as int,
            ;
        }
        let cells: usize = wn * hn;
        let n: usize = 4 * cells;
        let mut data: Vec<u8> = Vec::new();
        while data.len() < n
            invariant
                data@.len() <= n,
                forall|k: int| 0 <= k < data@.len() ==> data@[k] == 0u8,
            decreases n - data@.len(),
        {
            data.push(0u8);
        }
        FrameBuffer { width, height, data }
    }

    /// Writes one pixel, skipping coordinates outside the buffer.
    pub fn set_pixel(&mut self, x: i64, y: i64, c: Color)
        requires
            old(self).wf(),
        ensures
            final(self).wf(),
            final(self).width == old(self).width,
            final(self).height == old(self).height,
            old(self).in_frame(x as int, y as int) ==> final(self).pixel(x as int, y as int)
                == color_bytes(c),
            forall|a: int, b: int|
                old(self).in_frame(a, b) && (a != x as int || b != y as int)
                    ==> final(self).pixel(a, b) == old(self).pixel(a, b),
            !old(self).in_frame(x as int, y as int) ==> final(self).data@ == old(self).data@,
    {
        if 0 <= x && 0 <= y && x < self.width as i64 && y < self.height as i64 {
            let w = self.width as usize;
            let h = self.height as usize;
            let xi = x as usize;
            let yi = y as usize;
            let total = self.data.len();
            proof {
                assert(0 <= (yi as int) * (w as int) && 4 * ((yi as int) * (w as int) + (xi as int))
                    + 4 <= 4 * (w as int) * (h as int)) by (nonlinear_arith)
                    requires
                        0 <= (xi as int) < (w as int),
                        0 <= (yi as int) < (h as int),
                ;
                assert(total == 4 * (w as int) * (h as int));
            }
            let idx: usize = 4 * (yi * w + xi);
            self.data[idx] = c.r;
            self.data[idx + 1] = c.g;
            self.data[idx + 2] = c.b;
            self.data[idx + 3] = c.a;
            proof {
                let wi = self.width as int;
                let base = 4 * ((y as int) * wi + (x as int));
                assert(self.pixel(x as int, y as int) =~= color_bytes(c));
                let hi = self.height as int;
                assert forall|a: int, b: int|
                    old(self).in_frame(a, b) && (a != x as int || b != y as int)
                        implies self.pixel(a, b) == old(self).pixel(a, b) by {
                    assert(b * wi + a != (y as int) * wi + (x as int) && 0 <= 4 * (b * wi + a) && 4
                        * (b * wi + a) + 4 <= 4 * wi * hi) by (nonlinear_arith)
                        requires
                            0 <= a < wi,
                            0 <= (x as int) < wi,
                            0 <= b < hi,
                            0 <= (y as int),
                            a != x as int || b != y as int,
                    ;
                    let q = 4 * (b * wi + a);
                    assert(q + 4 <= base || base + 4 <= q);
                    assert(self.pixel(a, b) =~= old(self).pixel(a, b));
                }
            }
        }
    }

    /// Fills an axis-aligned rectangle, clipped to the buffer.
    pub fn fill_rect(&mut self, x0: i64, y0: i64, rw: u32, rh: u32, c: Color)
        requires
            old(self).wf(),
            x0 + rw as int <= i64::MAX as int,
            y0 + rh as int <= i64::MAX as int,
        ensures
            final(self).wf(),
            final(self).width == old(self).width,
            final(self).height == old(self).height,
            forall|a: int, b: int|
                old(self).in_frame(a, b) ==> final(self).pixel(a, b) == (if in_rect(
                    x0 as int,
                    y0 as int,
                    rw as int,
                    rh as int,
                    a,
                    b,
                ) {
                    color_bytes(c)
                } else {
                    old(self).pixel(a, b)
                }),
    {
        let ghost fb0 = *self;
        let mut i: u32 = 0;
        while i < rw
            invariant
                self.wf(),
                self.width == fb0.width,
                self.height == fb0.height,
                i <= rw,
                x0 + rw as int <= i64::MAX as int,
                y0 + rh as int <= i64::MAX as int,
                fb0.wf(),
                forall|a: int, b: int|
                    fb0.in_frame(a, b) ==> self.pixel(a, b) == (if in_rect(
                        x0 as int,
                        y0 as int,
                        i as int,
                        rh as int,
                        a,
                        b,
                    ) {
                        color_bytes(c)
                    } else {
                        fb0.pixel(a, b)
                    }),
            decreases rw - i,
        {
            let px: i64 = x0 + i as i64;
            let mut j: u32 = 0;
            while j < rh
                invariant
                    self.wf(),
                    self.width == fb0.width,
                    self.height == fb0.height,
                    i < rw,
                    j <= rh,
                    px == x0 + i as int,
                    x0 + rw as int <= i64::MAX as int,
                    y0 + rh as int <= i64::MAX as int,
                    fb0.wf(),
                    forall|a: int, b: int|
                        fb0.in_frame(a, b) ==> self.pixel(a, b) == (if in_rect(
                            x0 as int,
                            y0 as int,
                            i as int,
                            rh as int,
                            a,
                            b,
                        ) || (a == px as int && y0 <= b < y0 + j as int) {
                            color_bytes(c)
                        } else {
                            fb0.pixel(a, b)
                        }),
                decreases rh - j,
            {
                let ghost prev = *self;
                self.set_pixel(px, y0 + j as i64, c);
                proof {
                    assert forall|a: int, b: int| fb0.in_frame(a, b) implies self.pixel(a, b)
                        == (if in_rect(x0 as int, y0 as int, i as int, rh as int, a, b) || (a
                        == px as int && y0 <= b < y0 + (j + 1) as int) {
                        color_bytes(c)
                    } else {
                        fb0.pixel(a, b)
                    }) by {
                        if a == px as int && b == y0 + j as int {
                        } else {
                            assert(self.pixel(a, b) == prev.pixel(a, b));
                        }
                    }
                }
                j += 1;
            }
            i += 1;
        }
        proof {
            assert forall|a: int, b: int| fb0.in_frame(a, b) implies self.pixel(a, b) == (if in_rect(
                x0 as int,
                y0 as int,
                rw as int,
                rh as int,
                a,
                b,
            ) {
                color_bytes(c)
            } else {
                fb0.pixel(a, b)
            }) by {}
        }
    }

    /// Resets every byte of the buffer to zero (a fully transparent black
    /// frame), as the start of each redraw.
    pub fn clear(&mut self)
        requires
            old(self).wf(),
        ensures
            final(self).wf(),
            final(self).width == old(self).width,
            final(self).height == old(self).height,
            forall|k: int| 0 <= k < final(self).data@.len() ==> final(self).data@[k] == 0u8,
    {
        let n = self.data.len();
        let mut k: usize = 0;
        while k < n
            invariant
                self.width == old(self).width,
                self.height == old(self).height,
                self.data@.len() == old(self).data@.len(),
                n == self.data@.len(),
                k <= n,
                forall|m: int| 0 <= m < k ==> self.data@[m] == 0u8,
            decreases n - k,
        {
            self.data[k] = 0u8;
            k += 1;
        }
    }
}

} // verus!
