use vstd::prelude::*;
use crate::input::InputQueue;
use crate::snake::{slither_rel, SlitherySnek};
use crate::world::in_grid;

verus! {

/// The fixed tick interval: milliseconds of accumulated wall-clock time
/// per advancement of the game logic.
pub const TICK_MS: u64 = 125;

/// Addition clamped to the top of `u64`, for the elapsed-time accumulator.
pub open spec fn sat_add(a: int, b: int) -> int {
    if a + b > u64::MAX {
        u64::MAX as int
    } else {
        a + b
    }
}

/// The buffered entry one scheduling pass consumes: the queue's oldest
/// entry, or "no direction" when nothing is buffered.
pub open spec fn popped_of(q: Seq<Option<crate::geom::Direction>>) -> Option<
    crate::geom::Direction,
> {
    if q.len() == 0 {
        Option::None
    } else {
        q[0]
    }
}

/// The death/reset state machine around the fixed-tick loop: an
/// elapsed-time accumulator and the death flag. The driving event loop
/// hands in the snake, the input queue and the time since the last pass;
/// everything it must do in return (redraw or not) comes back as a value.
pub struct GameLoop {
    pub is_dead: bool,
    pub timer_ms: u64,
}

impl GameLoop {
    /// A fresh loop: alive, with an empty accumulator.
    pub fn new() -> (g: GameLoop)
        ensures
            !g.is_dead,
            g.timer_ms == 0,
    {
        GameLoop { is_dead: false, timer_ms: 0 }
    }

    /// One scheduling pass. While dead, any buffered input resets the
    /// snake and revives the game (the input stays buffered, feeding the
    /// next tick). While alive, once the accumulator crosses the tick
    /// interval it is emptied and one tick runs: the oldest buffered entry
    /// is consumed, the snake slithers, and death is re-evaluated; only
    /// such a tick requests a redraw.
    pub fn step(&mut self, snake: &mut SlitherySnek, queue: &mut InputQueue, delta_ms: u64) -> (redraw:
        bool)
        requires
            old(snake).wf(),
            !old(self).is_dead ==> in_grid(
                old(snake).world.width as int,
                old(snake).world.height as int,
                old(snake).head(),
            ) && old(snake).body@.len() + 1 < (old(snake).world.width as int) * (
            old(snake).world.height as int),
        ensures
            final(snake).wf(),
            old(self).is_dead && old(queue).entries@.len() == 0 ==> {
                &&& final(self).is_dead
                &&& final(self).timer_ms == sat_add(old(self).timer_ms as int, delta_ms as int)
                &&& *final(snake) == *old(snake)
                &&& final(queue).entries@ == old(queue).entries@
                &&& !redraw
            },
            old(self).is_dead && old(queue).entries@.len() > 0 ==> {
                &&& !final(self).is_dead
                &&& final(self).timer_ms == sat_add(old(self).timer_ms as int, delta_ms as int)
                &&& final(snake).body@ == crate::snake::initial_body(
                    old(snake).initial_size as int,
                )
                &&& final(snake).dir == crate::geom::Direction::Right
                &&& final(snake).grow_buf == 0
                &&& final(snake).world == old(snake).world
                &&& final(snake).initial_size == old(snake).initial_size
                &&& !final(snake).dead_spec()
                &&& final(queue).entries@ == old(queue).entries@
                &&& !redraw
            },
            !old(self).is_dead && sat_add(old(self).timer_ms as int, delta_ms as int) < TICK_MS
                ==> {
                &&& !final(self).is_dead
                &&& final(self).timer_ms == sat_add(old(self).timer_ms as int, delta_ms as int)
                &&& *final(snake) == *old(snake)
                &&& final(queue).entries@ == old(queue).entries@
                &&& !redraw
            },
            !old(self).is_dead && sat_add(old(self).timer_ms as int, delta_ms as int) >= TICK_MS
                ==> {
                &&& final(self).timer_ms == 0
                &&& slither_rel(*old(snake), *final(snake), popped_of(old(queue).entries@))
                &&& final(self).is_dead == final(snake).dead_spec()
                &&& (old(queue).entries@.len() == 0 ==> final(queue).entries@
                    == old(queue).entries@)
                &&& (old(queue).entries@.len() > 0 ==> final(queue).entries@
                    == old(queue).entries@.subrange(1, old(queue).entries@.len() as int))
                &&& redraw
            },
    {
        let acc = if delta_ms > u64::MAX - self.timer_ms {
            u64::MAX
        } else {
            self.timer_ms + delta_ms
        };
        self.timer_ms = acc;
        if self.is_dead {
            if !queue.is_empty() {
                snake.reset();
                self.is_dead = false;
            }
            false
        } else {
            if self.timer_ms >= TICK_MS {
                self.timer_ms = 0;
                let d = queue.pop();
                snake.slither(d);
                self.is_dead = snake.check_dead();
                true
            } else {
                false
            }
        }
    }
}

} // verus!
