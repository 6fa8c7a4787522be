use vstd::prelude::*;
use std::collections::VecDeque;
use crate::frame::{color_bytes, in_rect, Color, FrameBuffer};
use crate::geom::{effective_dir, opposite, step_pos, Direction, Pos};
use crate::world::{food_color, grid_color, in_grid, World};

verus! {

/// The fill color of the head segment.
pub open spec fn head_color() -> Color {
    Color { r: 0xf7, g: 0xe8, b: 0x72, a: 0xff }
}

/// The fill color of every other body segment.
pub open spec fn body_color() -> Color {
    Color { r: 0xff, g: 0xff, b: 0xff, a: 0xff }
}

/// The snake: an ordered body (front is the head), the current heading,
/// the world it lives in, the count of ticks during which the tail is kept
/// (pending growth), and the length it is reset to.
pub struct SlitherySnek {
    pub body: VecDeque<Pos>,
    pub dir: Direction,
    pub world: World,
    pub grow_buf: u32,
    pub initial_size: u32,
}

/// The freshly seeded body: `len` segments on the horizontal center line,
/// head at `x = len - 1`, tail at `x = 0`.
pub open spec fn initial_body(len: int) -> Seq<Pos> {
    Seq::new(len as nat, |i: int| Pos { x: (len - 1 - i) as i32, y: 0 })
}

/// Whether the snake's head sits on the food, which is the condition under
/// which the coming tick feeds it.
pub open spec fn eats(s: SlitherySnek) -> bool {
    s.world.food_pos == s.body@[0]
}

/// How one tick relates the snake before (`pre`) and after (`post`), given
/// the buffered direction request `dir`: the heading follows the request
/// unless the request reverses it; the new head is one step ahead; on a
/// feeding tick the food moves off the body and three growth ticks are
/// credited (one of which is consumed at once); otherwise the tail is kept
/// while growth is pending and popped when it is not.
pub open spec fn slither_rel(pre: SlitherySnek, post: SlitherySnek, dir: Option<Direction>) -> bool {
    let eff = effective_dir(pre.dir, dir);
    let new_head = step_pos(pre.body@[0], eff);
    let grown = seq![new_head] + pre.body@;
    &&& post.dir == eff
    &&& post.initial_size == pre.initial_size
    &&& post.world.width == pre.world.width
    &&& post.world.height == pre.world.height
    &&& post.world.block_size == pre.world.block_size
    &&& if eats(pre) {
        &&& post.grow_buf == 2
        &&& post.body@ == grown
        &&& in_grid(pre.world.width as int, pre.world.height as int, post.world.food_pos)
        &&& !grown.contains(post.world.food_pos)
    } else {
        &&& post.world.food_pos == pre.world.food_pos
        &&& if pre.grow_buf > 0 {
            &&& post.grow_buf == pre.grow_buf - 1
            &&& post.body@ == grown
        } else {
            &&& post.grow_buf == 0
            &&& post.body@ == grown.drop_last()
        }
    }
}

/// The entries of a deque, copied into a vector front to back.
fn deque_to_vec(d: &VecDeque<Pos>) -> (v: Vec<Pos>)
    ensures
        v@ == d@,
{
    let mut v: Vec<Pos> = Vec::new();
    let mut i: usize = 0;
    while i < d.len()
        invariant
            i <= d@.len(),
            v@.len() == i,
            forall|j: int| 0 <= j < i ==> v@[j] == d@[j],
        decreases d@.len() - i,
    {
        v.push(d[i]);
        i += 1;
    }
    proof {
        assert(v@ =~= d@);
    }
    v
}

/// The seeded body as a deque.
fn make_initial_body(len: u32) -> (body: VecDeque<Pos>)
    requires
        1 <= len <= 0x4000,
    ensures
        body@ == initial_body(len as int),
{
    let mut body: VecDeque<Pos> = VecDeque::new();
    let mut i: u32 = 0;
    while i < len
        invariant
            i <= len,
            len <= 0x4000,
            body@.len() == i as int,
            forall|j: int| 0 <= j < i ==> body@[j] == (Pos { x: (i - 1 - j) as i32, y: 0 }),
        decreases len - i,
    {
        body.push_front(Pos { x: i as i32, y: 0 });
        i += 1;
    }
    proof {
        assert(body@ =~= initial_body(len as int));
    }
    body
}

impl SlitherySnek {
    /// The world is well formed, the body is never empty, and the reset
    /// length keeps the seeded body inside the grid.
    pub open spec fn wf(self) -> bool {
        &&& self.world.wf()
        &&& self.body@.len() >= 1
        &&& 1 <= self.initial_size as int <= self.world.width as int / 2
    }

    /// The head segment.
    pub open spec fn head(self) -> Pos {
        self.body@[0]
    }

    /// Whether the snake is dead: the head lies outside the grid, or on
    /// another body segment.
    pub open spec fn dead_spec(self) -> bool {
        ||| !in_grid(self.world.width as int, self.world.height as int, self.head())
        ||| exists|i: int| 1 <= i < self.body@.len() && #[trigger] self.body@[i] == self.body@[0]
    }

    /// A fresh snake of `len` segments, heading right from the grid's
    /// center line.
    pub fn new(len: u32, world: World) -> (snek: SlitherySnek)
        requires
            world.wf(),
            1 <= len as int <= world.width as int / 2,
        ensures
            snek.wf(),
            snek.body@ == initial_body(len as int),
            snek.dir == Direction::Right,
            snek.grow_buf == 0,
            snek.initial_size == len,
            snek.world == world,
            !snek.dead_spec(),
    {
        let body = make_initial_body(len);
        let snek = SlitherySnek { body, dir: Direction::Right, world, grow_buf: 0, initial_size: len };
        proof {
            assert(in_grid(world.width as int, world.height as int, snek.head()));
            assert forall|i: int|
                1 <= i < snek.body@.len() implies #[trigger] snek.body@[i] != snek.body@[0] by {}
        }
        snek
    }

    /// Restores the seeded body, right heading and empty growth buffer,
    /// regardless of the state at the time of the call. The world — in
    /// particular the food — is untouched.
    pub fn reset(&mut self)
        requires
            old(self).wf(),
        ensures
            final(self).wf(),
            final(self).body@ == initial_body(old(self).initial_size as int),
            final(self).dir == Direction::Right,
            final(self).grow_buf == 0,
            final(self).world == old(self).world,
            final(self).initial_size == old(self).initial_size,
            !final(self).dead_spec(),
    {
        self.body = make_initial_body(self.initial_size);
        self.grow_buf = 0;
        self.dir = Direction::Right;
        proof {
            assert(in_grid(self.world.width as int, self.world.height as int, self.head()));
        }
    }

    /// Whether the snake is dead, by bounds or self-collision. Pure query.
    pub fn check_dead(&self) -> (r: bool)
        requires
            self.wf(),
        ensures
            r == self.dead_spec(),
    {
        let half_w = (self.world.width / 2) as i32;
        let half_h = (self.world.height / 2) as i32;
        let head = self.body[0];
        if head.x < -half_w || head.x >= half_w || head.y < -half_h || head.y >= half_h {
            return true;
        }
        let mut i: usize = 1;
        while i < self.body.len()
            invariant
                1 <= i <= self.body@.len(),
                head == self.body@[0],
                forall|j: int| 1 <= j < i ==> #[trigger] self.body@[j] != self.body@[0],
            decreases self.body@.len() - i,
        {
            if self.body[i] == head {
                proof {
                    assert(self.body@[i as int] == self.body@[0]);
                }
                return true;
            }
            i += 1;
        }
        false
    }

    /// One tick of movement: resolve the requested direction (a reversal
    /// is ignored), advance the head, feed on the food the head was on,
    /// and trim or keep the tail according to pending growth.
    pub fn slither(&mut self, dir: Option<Direction>)
        requires
            old(self).wf(),
            in_grid(old(self).world.width as int, old(self).world.height as int, old(self).head()),
            old(self).body@.len() + 1 < (old(self).world.width as int) * (
            old(self).world.height as int),
        ensures
            final(self).wf(),
            slither_rel(*old(self), *final(self), dir),
    {
        self.dir = match dir {
            Some(Direction::Up) => if matches!(self.dir, Direction::Down) {
                self.dir
            } else {
                Direction::Up
            },
            Some(Direction::Down) => if matches!(self.dir, Direction::Up) {
                self.dir
            } else {
                Direction::Down
            },
            Some(Direction::Left) => if matches!(self.dir, Direction::Right) {
                self.dir
            } else {
                Direction::Left
            },
            Some(Direction::Right) => if matches!(self.dir, Direction::Left) {
                self.dir
            } else {
                Direction::Right
            },
            None => self.dir,
        };
        proof {
            assert(self.dir == effective_dir(old(self).dir, dir));
        }
        let head = self.body[0];
        let new_head = match self.dir {
            Direction::Up => Pos { x: head.x, y: head.y + 1 },
            Direction::Down => Pos { x: head.x, y: head.y - 1 },
            Direction::Left => Pos { x: head.x - 1, y: head.y },
            Direction::Right => Pos { x: head.x + 1, y: head.y },
        };
        proof {
            assert(new_head == step_pos(old(self).head(), effective_dir(old(self).dir, dir)));
        }
        self.body.push_front(new_head);
        if self.world.food_pos == head {
            let blacklist = deque_to_vec(&self.body);
            self.world.place_food(&blacklist);
            self.grow_buf = 3;
        }
        if self.grow_buf > 0 {
            self.grow_buf = self.grow_buf - 1;
        } else {
            self.body.pop_back();
        }
        proof {
            let grown = seq![step_pos(old(self).head(), effective_dir(old(self).dir, dir))]
                + old(self).body@;
            if !eats(*old(self)) && old(self).grow_buf == 0 {
                assert(self.body@ =~= grown.drop_last());
            }
        }
    }

    /// The displayed score: current length plus pending growth.
    pub fn score(&self) -> (s: u64)
        requires
            self.body@.len() + self.grow_buf <= u64::MAX,
        ensures
            s == self.body@.len() + self.grow_buf,
    {
        self.body.len() as u64 + self.grow_buf as u64
    }

    /// Whether a tick may run: the head is inside the grid (the snake is
    /// not dead by bounds) and the grid still has room to replace the food.
    pub fn can_tick(&self) -> (r: bool)
        requires
            self.wf(),
        ensures
            r == (in_grid(self.world.width as int, self.world.height as int, self.head())
                && self.body@.len() + 1 < (self.world.width as int) * (self.world.height as int)),
    {
        let half_w = (self.world.width / 2) as i32;
        let half_h = (self.world.height / 2) as i32;
        let head = self.body[0];
        let in_bounds = -half_w <= head.x && head.x < half_w && -half_h <= head.y && head.y
            < half_h;
        proof {
            assert(0 <= (self.world.width as int) * (self.world.height as int) <= 0x40000000)
                by (nonlinear_arith)
                requires
                    0 <= self.world.width as int <= 0x8000,
                    0 <= self.world.height as int <= 0x8000,
            ;
        }
        let cells = (self.world.width as u64) * (self.world.height as u64);
        let room = (self.body.len() as u64) < u64::MAX && (self.body.len() as u64) + 1 < cells;
        proof {
            assert((self.world.width as int) * (self.world.height as int) == cells as int);
        }
        in_bounds && room
    }

    /// Pixel column of segment `j`'s left edge.
    pub open spec fn seg_px(self, vw: int, j: int) -> int {
        (self.body@[j].x as int) * (self.world.block_size as int) + vw / 2
    }

    /// Pixel row of segment `j`'s bottom edge.
    pub open spec fn seg_py(self, vh: int, j: int) -> int {
        -(self.body@[j].y as int) * (self.world.block_size as int) + vh / 2
    }

    /// Whether segment `j`'s anchor pixel lies inside the viewport;
    /// segments mapping outside are skipped entirely.
    pub open spec fn seg_visible(self, vw: int, vh: int, j: int) -> bool {
        &&& 0 <= self.seg_px(vw, j) < vw
        &&& 0 <= self.seg_py(vh, j) < vh
    }

    /// The pixels segment `j` paints: a `block_size - 3` square anchored
    /// at the mapped position and growing up the screen.
    pub open spec fn seg_covers(self, vw: int, vh: int, j: int, a: int, b: int) -> bool {
        let s = self.world.block_size as int - 3;
        &&& self.seg_visible(vw, vh, j)
        &&& in_rect(self.seg_px(vw, j), self.seg_py(vh, j) - s + 1, s, s, a, b)
    }

    /// Whether some non-head segment paints the pixel.
    pub open spec fn body_covers(self, vw: int, vh: int, a: int, b: int) -> bool {
        exists|j: int| 1 <= j < self.body@.len() && #[trigger] self.seg_covers(vw, vh, j, a, b)
    }

    /// Renders the world (border and food) and then every body segment,
    /// head first in its own color, later segments painting over earlier
    /// ones. Segments whose anchor maps outside the viewport are skipped,
    /// and all writes are clipped, so a resized window degrades to missing
    /// pixels.
    pub fn draw(&self, fb: &mut FrameBuffer)
        requires
            self.wf(),
            old(fb).wf(),
        ensures
            final(fb).wf(),
            final(fb).width == old(fb).width,
            final(fb).height == old(fb).height,
            forall|a: int, b: int|
                old(fb).in_frame(a, b) ==> final(fb).pixel(a, b) == (if self.body_covers(
                    old(fb).width as int,
                    old(fb).height as int,
                    a,
                    b,
                ) {
                    color_bytes(body_color())
                } else if self.seg_covers(old(fb).width as int, old(fb).height as int, 0, a, b) {
                    color_bytes(head_color())
                } else if self.world.border_visible(old(fb).width as int, old(fb).height as int)
                    && self.world.in_food_square(old(fb).width as int, old(fb).height as int, a, b) {
                    color_bytes(food_color())
                } else if self.world.border_visible(old(fb).width as int, old(fb).height as int)
                    && self.world.on_border(old(fb).width as int, old(fb).height as int, a, b) {
                    color_bytes(grid_color())
                } else {
                    old(fb).pixel(a, b)
                }),
    {
        let ghost vwi = fb.width as int;
        let ghost vhi = fb.height as int;
        self.world.draw(fb);
        let ghost g1 = *fb;
        let bs = self.world.block_size;
        let s: u32 = bs - 3;
        let vw2 = fb.width / 2;
        let vh2 = fb.height / 2;
        let mut i: usize = 0;
        while i < self.body.len()
            invariant
                self.wf(),
                fb.wf(),
                g1.wf(),
                fb.width == g1.width,
                fb.height == g1.height,
                vwi == g1.width as int,
                vhi == g1.height as int,
                vw2 == g1.width / 2,
                vh2 == g1.height / 2,
                bs == self.world.block_size,
                s == bs - 3,
                i <= self.body@.len(),
                forall|a: int, b: int|
                    g1.in_frame(a, b) ==> fb.pixel(a, b) == (if exists|j: int|
                        1 <= j < i && #[trigger] self.seg_covers(vwi, vhi, j, a, b) {
                        color_bytes(body_color())
                    } else if i > 0 && self.seg_covers(vwi, vhi, 0, a, b) {
                        color_bytes(head_color())
                    } else {
                        g1.pixel(a, b)
                    }),
            decreases self.body@.len() - i,
        {
            let p = self.body[i];
            proof {
                assert(-0x400000000000 <= (p.x as int) * (bs as int) <= 0x400000000000
                    && -0x400000000000 <= -(p.y as int) * (bs as int) <= 0x400000000000)
                    by (nonlinear_arith)
                    requires
                        -0x80000000 <= p.x as int <= 0x80000000,
                        -0x80000000 <= p.y as int <= 0x80000000,
                        0 <= bs as int <= 0x8000,
                ;
            }
            let px: i64 = (p.x as i64) * (bs as i64) + vw2 as i64;
            let py: i64 = -(p.y as i64) * (bs as i64) + vh2 as i64;
            proof {
                assert(px == self.seg_px(vwi, i as int));
                assert(py == self.seg_py(vhi, i as int));
            }
            let ghost prev = *fb;
            if 0 <= px && px < fb.width as i64 && 0 <= py && py < fb.height as i64 {
                let color = if i == 0 {
                    Color { r: 0xf7, g: 0xe8, b: 0x72, a: 0xff }
                } else {
                    Color { r: 0xff, g: 0xff, b: 0xff, a: 0xff }
                };
                fb.fill_rect(px, py - s as i64 + 1, s, s, color);
            } else {
                proof {
                    assert(!self.seg_visible(vwi, vhi, i as int));
                }
            }
            proof {
                assert forall|a: int, b: int| g1.in_frame(a, b) implies fb.pixel(a, b) == (
                if exists|j: int| 1 <= j < i + 1 && #[trigger] self.seg_covers(vwi, vhi, j, a, b) {
                    color_bytes(body_color())
                } else if i + 1 > 0 && self.seg_covers(vwi, vhi, 0, a, b) {
                    color_bytes(head_color())
                } else {
                    g1.pixel(a, b)
                }) by {
                    if self.seg_covers(vwi, vhi, i as int, a, b) {
                        if i > 0 {
                            assert(1 <= (i as int) < i + 1 && self.seg_covers(
                                vwi,
                                vhi,
                                i as int,
                                a,
                                b,
                            ));
                        }
                    } else {
                        assert(fb.pixel(a, b) == prev.pixel(a, b));
                        if exists|j: int|
                            1 <= j < i + 1 && #[trigger] self.seg_covers(vwi, vhi, j, a, b) {
                            let j = choose|j: int|
                                1 <= j < i + 1 && #[trigger] self.seg_covers(vwi, vhi, j, a, b);
                            assert(1 <= j < i && self.seg_covers(vwi, vhi, j, a, b));
                        }
                    }
                }
            }
            i += 1;
        }
        proof {
            assert forall|a: int, b: int| old(fb).in_frame(a, b) implies fb.pixel(a, b) == (
            if self.body_covers(vwi, vhi, a, b) {
                color_bytes(body_color())
            } else if self.seg_covers(vwi, vhi, 0, a, b) {
                color_bytes(head_color())
            } else if self.world.border_visible(vwi, vhi) && self.world.in_food_square(
                vwi,
                vhi,
                a,
                b,
            ) {
                color_bytes(food_color())
            } else if self.world.border_visible(vwi, vhi) && self.world.on_border(vwi, vhi, a, b) {
                color_bytes(grid_color())
            } else {
                old(fb).pixel(a, b)
            }) by {
                assert(g1.in_frame(a, b));
                if !self.world.border_visible(vwi, vhi) {
                    assert(g1.data@ == old(fb).data@);
                    assert(g1.width == old(fb).width);
                    assert(g1.pixel(a, b) == old(fb).pixel(a, b));
                }
                assert(self.body_covers(vwi, vhi, a, b) == exists|j: int|
                    1 <= j < i && #[trigger] self.seg_covers(vwi, vhi, j, a, b));
            }
        }
    }
}

/// While the snake is alive its head does not lie on any other body
/// segment: self-collision is a death condition, detected the tick it
/// arises.
pub proof fn lemma_alive_head_free(s: SlitherySnek)
    requires
        !s.dead_spec(),
    ensures
        forall|i: int| 1 <= i < s.body@.len() ==> #[trigger] s.body@[i] != s.body@[0],
{
}

/// Requesting the exact opposite of the current direction never changes
/// the direction a tick takes.
pub proof fn lemma_opposite_keeps_direction(
    pre: SlitherySnek,
    post: SlitherySnek,
    d: Direction,
)
    requires
        slither_rel(pre, post, Some(d)),
        d == opposite(pre.dir),
    ensures
        post.dir == pre.dir,
{
}

/// A run of consecutive ticks: `states[i]` steps to `states[i + 1]` under
/// the buffered request `dirs[i]`.
pub open spec fn is_trace(states: Seq<SlitherySnek>, dirs: Seq<Option<Direction>>) -> bool {
    &&& states.len() == dirs.len() + 1
    &&& forall|i: int| 0 <= i < dirs.len() ==> slither_rel(states[i], states[i + 1], dirs[i])
}

/// How many of the first `n` ticks of the trace fed the snake.
pub open spec fn eat_count(states: Seq<SlitherySnek>, n: int) -> int
    decreases n,
{
    if n <= 0 {
        0
    } else {
        eat_count(states, n - 1) + if eats(states[n - 1]) {
            1int
        } else {
            0int
        }
    }
}

/// Growth accounting: across any run of ticks in which food is only eaten
/// while no growth is pending, body length plus pending growth equals the
/// starting length plus pending growth plus three per food eaten. (Eating
/// while growth is pending resets the pending count to three instead of
/// adding to it, so those runs are excluded.)
pub proof fn lemma_growth_accounting(
    states: Seq<SlitherySnek>,
    dirs: Seq<Option<Direction>>,
    n: int,
)
    requires
        is_trace(states, dirs),
        0 <= n < states.len(),
        forall|i: int| 0 <= i < n && eats(states[i]) ==> states[i].grow_buf == 0,
    ensures
        states[n].body@.len() + states[n].grow_buf == states[0].body@.len() + states[0].grow_buf
            + 3 * eat_count(states, n),
    decreases n,
{
    if n > 0 {
        lemma_growth_accounting(states, dirs, n - 1);
        assert(slither_rel(states[n - 1], states[n], dirs[n - 1]));
    }
}

} // verus!
