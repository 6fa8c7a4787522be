use vstd::prelude::*;
use crate::frame::{color_bytes, in_rect, Color, FrameBuffer};
use crate::geom::Pos;
use crate::rng::sample_range;

verus! {

/// Whether `p` lies inside the grid bounds
/// `-width/2 <= x < width/2` and `-height/2 <= y < height/2`.
pub open spec fn in_grid(width: int, height: int, p: Pos) -> bool {
    &&& -(width / 2) <= p.x < width / 2
    &&& -(height / 2) <= p.y < height / 2
}

/// The color of the border lines.
pub open spec fn grid_color() -> Color {
    Color { r: 0xff, g: 0xff, b: 0xff, a: 0xff }
}

/// The color of the food square.
pub open spec fn food_color() -> Color {
    Color { r: 0xff, g: 0x00, b: 0x00, a: 0x00 }
}

/// The playing field: grid dimensions in cells, pixels per cell, and the
/// current food position. Grid coordinates have their origin at the grid's
/// center.
#[derive(Clone, Copy)]
pub struct World {
    pub width: u32,
    pub height: u32,
    pub block_size: u32,
    pub food_pos: Pos,
}

/// How many entries of `s` are true.
spec fn count_trues(s: Seq<bool>) -> int
    decreases s.len(),
{
    if s.len() == 0 {
        0
    } else {
        count_trues(s.drop_last()) + if s.last() {
            1int
        } else {
            0int
        }
    }
}

proof fn lemma_count_trues_none(s: Seq<bool>)
    requires
        forall|j: int| 0 <= j < s.len() ==> !s[j],
    ensures
        count_trues(s) == 0,
    decreases s.len(),
{
    if s.len() > 0 {
        assert forall|j: int| 0 <= j < s.drop_last().len() implies !s.drop_last()[j] by {
            assert(s.drop_last()[j] == s[j]);
        }
        lemma_count_trues_none(s.drop_last());
        assert(!s.last());
    }
}

proof fn lemma_count_trues_update(s: Seq<bool>, k: int)
    requires
        0 <= k < s.len(),
    ensures
        count_trues(s.update(k, true)) <= count_trues(s) + 1,
    decreases s.len(),
{
    let t = s.update(k, true);
    if k == s.len() - 1 {
        assert(t.drop_last() =~= s.drop_last());
        assert(t.last());
    } else {
        assert(t.drop_last() =~= s.drop_last().update(k, true));
        assert(t.last() == s.last());
        lemma_count_trues_update(s.drop_last(), k);
    }
}

proof fn lemma_count_trues_all(s: Seq<bool>)
    requires
        forall|j: int| 0 <= j < s.len() ==> s[j],
    ensures
        count_trues(s) == s.len(),
    decreases s.len(),
{
    if s.len() > 0 {
        assert forall|j: int| 0 <= j < s.drop_last().len() implies s.drop_last()[j] by {
            assert(s.drop_last()[j] == s[j]);
        }
        lemma_count_trues_all(s.drop_last());
        assert(s.last());
    }
}

/// The row-major index of an in-grid cell, counting from the grid's
/// bottom-left corner.
spec fn cell_index(width: int, height: int, p: Pos) -> int {
    (p.y + height / 2) * width + (p.x + width / 2)
}

/// Whether `p` occurs in `list`.
pub fn contains_pos(list: &Vec<Pos>, p: Pos) -> (r: bool)
    ensures
        r == list@.contains(p),
{
    let mut i: usize = 0;
    while i < list.len()
        invariant
            i <= list@.len(),
            forall|j: int| 0 <= j < i ==> list@[j] != p,
        decreases list@.len() - i,
    {
        if list[i] == p {
            return true;
        }
        i += 1;
    }
    assert(!list@.contains(p));
    false
}

/// A deterministic fallback for food placement: the first grid cell, in
/// row-major order, that the blacklist does not occupy. One exists because
/// the blacklist is shorter than the number of grid cells.
fn find_free_cell(width: u32, height: u32, blacklist: &Vec<Pos>) -> (p: Pos)
    requires
        width % 2 == 0,
        height % 2 == 0,
        2 <= width <= 0x8000,
        2 <= height <= 0x8000,
        blacklist@.len() < (width as int) * (height as int),
    ensures
        in_grid(width as int, height as int, p),
        !blacklist@.contains(p),
{
    let w = width as usize;
    let h = height as usize;
    let half_w = (width / 2) as i32;
    let half_h = (height / 2) as i32;
    proof {
        assert(0 < (w as int) * (h as int) && (w as int) * (h as int) <= 0x8000 * 0x8000)
            by (nonlinear_arith)
            requires
                2 <= w as int <= 0x8000,
                2 <= h as int <= 0x8000,
        ;
    }
    let n: usize = w * h;
    let ghost gw = width as int;
    let ghost gh = height as int;

    // occupancy per grid cell: true once some blacklist entry maps there
    let mut occ: Vec<bool> = Vec::new();
    while occ.len() < n
        invariant
            occ@.len() <= n,
            forall|j: int| 0 <= j < occ@.len() ==> !occ@[j],
        decreases n - occ@.len(),
    {
        occ.push(false);
    }
    proof {
        lemma_count_trues_none(occ@);
    }

    let mut i: usize = 0;
    while i < blacklist.len()
        invariant
            occ@.len() == n,
            n as int == gw * gh,
            gw == width as int,
            gh == height as int,
            width % 2 == 0,
            height % 2 == 0,
            2 <= width <= 0x8000,
            2 <= height <= 0x8000,
            half_w == gw / 2,
            half_h == gh / 2,
            w == width as usize,
            h == height as usize,
            i <= blacklist@.len(),
            blacklist@.len() < gw * gh,
            count_trues(occ@) <= i as int,
            forall|j: int|
                0 <= j < i && in_grid(gw, gh, blacklist@[j]) ==> {
                    &&& 0 <= cell_index(gw, gh, blacklist@[j]) < n
                    &&& occ@[cell_index(gw, gh, blacklist@[j])]
                },
        decreases blacklist@.len() - i,
    {
        let q = blacklist[i];
        if -half_w <= q.x && q.x < half_w && -half_h <= q.y && q.y < half_h {
            let row = (q.y + half_h) as usize;
            let col = (q.x + half_w) as usize;
            proof {
                assert(0 <= (row as int) * (w as int) && (row as int) * (w as int) + (col as int)
                    < (w as int) * (h as int) && (w as int) * (h as int) <= 0x40000000)
                    by (nonlinear_arith)
                    requires
                        0 <= (col as int) < (w as int),
                        0 <= (row as int) < (h as int),
                        w as int <= 0x8000,
                        h as int <= 0x8000,
                ;
            }
            let k: usize = row * w + col;
            proof {
                assert(k as int == cell_index(gw, gh, q));
                lemma_count_trues_update(occ@, k as int);
            }
            occ[k] = true;
        }
        i += 1;
    }

    // some cell is unmarked: fewer marks than cells
    let mut k: usize = 0;
    while k < n
        invariant
            occ@.len() == n,
            n as int == gw * gh,
            gw == width as int,
            gh == height as int,
            width % 2 == 0,
            height % 2 == 0,
            2 <= width <= 0x8000,
            2 <= height <= 0x8000,
            half_w == gw / 2,
            half_h == gh / 2,
            w == width as usize,
            h == height as usize,
            k <= n,
            blacklist@.len() < gw * gh,
            count_trues(occ@) <= blacklist@.len(),
            forall|j: int|
                0 <= j < blacklist@.len() && in_grid(gw, gh, blacklist@[j]) ==> {
                    &&& 0 <= cell_index(gw, gh, blacklist@[j]) < n
                    &&& occ@[cell_index(gw, gh, blacklist@[j])]
                },
            forall|m: int| 0 <= m < k ==> occ@[m],
        decreases n - k,
    {
        if !occ[k] {
            proof {
                vstd::arithmetic::div_mod::lemma_fundamental_div_mod(k as int, w as int);
                assert(0 <= (k as int) % (w as int) < w as int) by (nonlinear_arith)
                    requires
                        0 < w as int,
                        0 <= k as int,
                ;
                assert((k as int) / (w as int) < h as int && (k as int) == (((k as int) / (
                w as int)) * (w as int)) + ((k as int) % (w as int))) by (nonlinear_arith)
                    requires
                        k as int == ((w as int) * ((k as int) / (w as int))) + ((k as int) % (
                        w as int)),
                        0 <= (k as int) % (w as int),
                        (k as int) < (w as int) * (h as int),
                        0 < w as int,
                ;
            }
            let col = k % w;
            let row = k / w;
            let p = Pos { x: col as i32 - half_w, y: row as i32 - half_h };
            proof {
                assert(in_grid(gw, gh, p));
                assert(cell_index(gw, gh, p) == (row as int) * (w as int) + (col as int));
                assert(cell_index(gw, gh, p) == k as int);
                if blacklist@.contains(p) {
                    let j = choose|j: int| 0 <= j < blacklist@.len() && blacklist@[j] == p;
                    assert(occ@[cell_index(gw, gh, blacklist@[j])]);
                    assert(false);
                }
            }
            return p;
        }
        k += 1;
    }
    proof {
        lemma_count_trues_all(occ@);
        assert(false);
    }
    vstd::pervasive::unreached()
}

impl World {
    /// Dimensions are even, positive and small enough that every pixel
    /// mapping fits comfortably in machine integers; a cell is at least
    /// three pixels wide (the drawn squares leave a three-pixel gutter);
    /// the food lies inside the grid.
    pub open spec fn wf(self) -> bool {
        &&& self.width % 2 == 0
        &&& self.height % 2 == 0
        &&& 2 <= self.width <= 0x8000
        &&& 2 <= self.height <= 0x8000
        &&& 3 <= self.block_size <= 0x8000
        &&& in_grid(self.width as int, self.height as int, self.food_pos)
    }

    /// A fresh world with food already placed somewhere inside the grid.
    pub fn new(width: u32, height: u32, block_size: u32) -> (w: World)
        requires
            width % 2 == 0,
            height % 2 == 0,
            2 <= width <= 0x8000,
            2 <= height <= 0x8000,
            3 <= block_size <= 0x8000,
        ensures
            w.wf(),
            w.width == width,
            w.height == height,
            w.block_size == block_size,
    {
        let mut w = World { width, height, block_size, food_pos: Pos { x: 0, y: 0 } };
        proof {
            assert(0 < (width as int) * (height as int)) by (nonlinear_arith)
                requires
                    2 <= width as int,
                    2 <= height as int,
            ;
        }
        let empty: Vec<Pos> = Vec::new();
        w.place_food(&empty);
        w
    }

    /// Repositions the food uniformly at random among grid cells, rejecting
    /// cells the blacklist occupies; after a bounded number of rejected
    /// samples it falls back to a deterministic scan, so placement always
    /// succeeds while the blacklist is smaller than the grid.
    pub fn place_food(&mut self, blacklist: &Vec<Pos>)
        requires
            old(self).wf(),
            blacklist@.len() < (old(self).width as int) * (old(self).height as int),
        ensures
            final(self).wf(),
            final(self).width == old(self).width,
            final(self).height == old(self).height,
            final(self).block_size == old(self).block_size,
            in_grid(old(self).width as int, old(self).height as int, final(self).food_pos),
            !blacklist@.contains(final(self).food_pos),
    {
        let half_w = (self.width / 2) as i32;
        let half_h = (self.height / 2) as i32;
        let mut attempts: u32 = 0;
        while attempts < 64
            invariant
                *self == *old(self),
                old(self).wf(),
                half_w == old(self).width as int / 2,
                half_h == old(self).height as int / 2,
                blacklist@.len() < (old(self).width as int) * (old(self).height as int),
                attempts <= 64,
            decreases 64 - attempts,
        {
            let x = sample_range(-half_w, half_w);
            let y = sample_range(-half_h, half_h);
            let p = Pos { x, y };
            if !contains_pos(blacklist, p) {
                self.food_pos = p;
                return ;
            }
            attempts += 1;
        }
        let p = find_free_cell(self.width, self.height, blacklist);
        self.food_pos = p;
    }

    /// Pixel row of the border's top line.
    pub open spec fn border_top(self, vh: int) -> int {
        vh / 2 - (self.height as int) * (self.block_size as int) / 2 + 2
    }

    /// Pixel row of the border's bottom line.
    pub open spec fn border_bottom(self, vh: int) -> int {
        (self.height as int) * (self.block_size as int) / 2 + vh / 2 + 2
    }

    /// Pixel column of the border's left line.
    pub open spec fn border_left(self, vw: int) -> int {
        vw / 2 - (self.width as int) * (self.block_size as int) / 2 - 2
    }

    /// Pixel column of the border's right line.
    pub open spec fn border_right(self, vw: int) -> int {
        (self.width as int) * (self.block_size as int) / 2 + vw / 2 - 2
    }

    /// Whether the whole border fits the viewport; when it does not, the
    /// draw backs off entirely rather than write out of bounds.
    pub open spec fn border_visible(self, vw: int, vh: int) -> bool {
        &&& 0 <= self.border_left(vw) < vw
        &&& 0 <= self.border_right(vw) < vw
        &&& 0 <= self.border_top(vh) < vh
        &&& 0 <= self.border_bottom(vh) < vh
    }

    /// The pixels of the border: top and bottom rows spanning
    /// `[left, right)`, and left and right columns spanning `[top, bottom)`
    /// (so the bottom-right corner pixel stays unpainted).
    pub open spec fn on_border(self, vw: int, vh: int, a: int, b: int) -> bool {
        let l = self.border_left(vw);
        let r = self.border_right(vw);
        let t = self.border_top(vh);
        let bo = self.border_bottom(vh);
        ||| in_rect(l, t, r - l, 1, a, b)
        ||| in_rect(l, bo, r - l, 1, a, b)
        ||| in_rect(l, t, 1, bo - t, a, b)
        ||| in_rect(r, t, 1, bo - t, a, b)
    }

    /// Pixel column of the food cell's left edge.
    pub open spec fn food_px(self, vw: int) -> int {
        (self.food_pos.x as int) * (self.block_size as int) + vw / 2
    }

    /// Pixel row of the food cell's bottom edge.
    pub open spec fn food_py(self, vh: int) -> int {
        -(self.food_pos.y as int) * (self.block_size as int) + vh / 2
    }

    /// The food square: `block_size - 3` pixels a side, anchored at the
    /// mapped cell position and growing up the screen, leaving a gutter
    /// between cells.
    pub open spec fn in_food_square(self, vw: int, vh: int, a: int, b: int) -> bool {
        let s = self.block_size as int - 3;
        in_rect(self.food_px(vw), self.food_py(vh) - s + 1, s, s, a, b)
    }

    /// Draws the centered border and the food square. If the border would
    /// fall outside the viewport the whole draw is skipped; otherwise every
    /// viewport pixel ends up food-colored inside the food square,
    /// grid-colored on the border, and untouched elsewhere.
    pub fn draw(&self, fb: &mut FrameBuffer)
        requires
            self.wf(),
            old(fb).wf(),
        ensures
            final(fb).wf(),
            final(fb).width == old(fb).width,
            final(fb).height == old(fb).height,
            !self.border_visible(old(fb).width as int, old(fb).height as int) ==> final(fb).data@
                == old(fb).data@,
            self.border_visible(old(fb).width as int, old(fb).height as int) ==> forall|
                a: int,
                b: int,
            |
                old(fb).in_frame(a, b) ==> final(fb).pixel(a, b) == (if self.in_food_square(
                    old(fb).width as int,
                    old(fb).height as int,
                    a,
                    b,
                ) {
                    color_bytes(food_color())
                } else if self.on_border(old(fb).width as int, old(fb).height as int, a, b) {
                    color_bytes(grid_color())
                } else {
                    old(fb).pixel(a, b)
                }),
    {
        let ghost vwi = fb.width as int;
        let ghost vhi = fb.height as int;
        let vw2 = fb.width / 2;
        let vh2 = fb.height / 2;
        proof {
            assert(0 <= (self.height as int) * (self.block_size as int) <= 0x40000000 && 0 <= (
            self.width as int) * (self.block_size as int) <= 0x40000000) by (nonlinear_arith)
                requires
                    0 <= self.width as int <= 0x8000,
                    0 <= self.height as int <= 0x8000,
                    0 <= self.block_size as int <= 0x8000,
            ;
        }
        let hb = self.height * self.block_size / 2;
        let wb = self.width * self.block_size / 2;
        let bottom: i64 = hb as i64 + vh2 as i64 + 2;
        let top: i64 = vh2 as i64 - hb as i64 + 2;
        let left: i64 = vw2 as i64 - wb as i64 - 2;
        let right: i64 = wb as i64 + vw2 as i64 - 2;
        proof {
            assert(top == self.border_top(vhi));
            assert(bottom == self.border_bottom(vhi));
            assert(left == self.border_left(vwi));
            assert(right == self.border_right(vwi));
        }
        if !(0 <= left && left < fb.width as i64 && 0 <= right && right < fb.width as i64 && 0
            <= top && top < fb.height as i64 && 0 <= bottom && bottom < fb.height as i64) {
            proof {
                assert(!self.border_visible(vwi, vhi));
            }
            return ;
        }
        let bw_len: u32 = (right - left) as u32;
        let bh_len: u32 = (bottom - top) as u32;
        let gc = Color { r: 0xff, g: 0xff, b: 0xff, a: 0xff };
        let fc = Color { r: 0xff, g: 0x00, b: 0x00, a: 0x00 };
        let ghost g0 = *fb;
        fb.fill_rect(left, top, bw_len, 1, gc);
        let ghost g1 = *fb;
        fb.fill_rect(left, bottom, bw_len, 1, gc);
        let ghost g2 = *fb;
        fb.fill_rect(left, top, 1, bh_len, gc);
        let ghost g3 = *fb;
        fb.fill_rect(right, top, 1, bh_len, gc);
        let ghost g4 = *fb;
        let s: u32 = self.block_size - 3;
        proof {
            assert(-0x20000000 <= (self.food_pos.x as int) * (self.block_size as int) <= 0x20000000
                && -0x20000000 <= -(self.food_pos.y as int) * (self.block_size as int)
                <= 0x20000000) by (nonlinear_arith)
                requires
                    -0x4000 <= self.food_pos.x as int <= 0x4000,
                    -0x4000 <= self.food_pos.y as int <= 0x4000,
                    0 <= self.block_size as int <= 0x8000,
            ;
        }
        let fx: i64 = (self.food_pos.x as i64) * (self.block_size as i64) + vw2 as i64;
        let fy: i64 = -(self.food_pos.y as i64) * (self.block_size as i64) + vh2 as i64;
        proof {
            assert(fx == self.food_px(vwi));
            assert(fy == self.food_py(vhi));
        }
        fb.fill_rect(fx, fy - s as i64 + 1, s, s, fc);
        proof {
            assert forall|a: int, b: int| g0.in_frame(a, b) implies fb.pixel(a, b) == (
            if self.in_food_square(vwi, vhi, a, b) {
                color_bytes(food_color())
            } else if self.on_border(vwi, vhi, a, b) {
                color_bytes(grid_color())
            } else {
                g0.pixel(a, b)
            }) by {
                assert(g1.pixel(a, b) == (if in_rect(left as int, top as int, bw_len as int, 1, a, b) {
                    color_bytes(gc)
                } else {
                    g0.pixel(a, b)
                }));
                assert(g2.pixel(a, b) == (if in_rect(
                    left as int,
                    bottom as int,
                    bw_len as int,
                    1,
                    a,
                    b,
                ) {
                    color_bytes(gc)
                } else {
                    g1.pixel(a, b)
                }));
                assert(g3.pixel(a, b) == (if in_rect(left as int, top as int, 1, bh_len as int, a, b) {
                    color_bytes(gc)
                } else {
                    g2.pixel(a, b)
                }));
                assert(g4.pixel(a, b) == (if in_rect(
                    right as int,
                    top as int,
                    1,
                    bh_len as int,
                    a,
                    b,
                ) {
                    color_bytes(gc)
                } else {
                    g3.pixel(a, b)
                }));
                assert(fb.pixel(a, b) == (if in_rect(
                    fx as int,
                    fy as int - s as int + 1,
                    s as int,
                    s as int,
                    a,
                    b,
                ) {
                    color_bytes(fc)
                } else {
                    g4.pixel(a, b)
                }));
            }
        }
    }
}

} // verus!
