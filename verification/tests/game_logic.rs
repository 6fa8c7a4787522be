use slithery::game::GameLoop;
use slithery::geom::{Direction, Pos};
use slithery::input::InputQueue;
use slithery::snake::SlitherySnek;
use slithery::world::World;

fn standard_snek() -> SlitherySnek {
    let world = World::new(40, 40, 20);
    let mut snek = SlitherySnek::new(3, world);
    // park the food away from the snake's path for deterministic ticks
    snek.world.food_pos = Pos { x: -15, y: -15 };
    snek
}

#[test]
fn world_new_places_food_in_bounds() {
    let w = World::new(40, 40, 20);
    assert!(w.food_pos.x >= -20 && w.food_pos.x < 20);
    assert!(w.food_pos.y >= -20 && w.food_pos.y < 20);
}

#[test]
fn place_food_avoids_exclusions() {
    let mut w = World::new(40, 40, 20);
    let mut excl: Vec<Pos> = Vec::new();
    for x in -20..20 {
        for y in -20..0 {
            excl.push(Pos { x, y });
        }
    }
    for _ in 0..200 {
        w.place_food(&excl);
        assert!(!excl.contains(&w.food_pos));
        assert!(w.food_pos.x >= -20 && w.food_pos.x < 20);
        assert!(w.food_pos.y >= 0 && w.food_pos.y < 20);
    }
}

#[test]
fn initial_body_spans_center_line() {
    let snek = standard_snek();
    assert_eq!(snek.body.len(), 3);
    assert_eq!(snek.body[0], Pos { x: 2, y: 0 });
    assert_eq!(snek.body[1], Pos { x: 1, y: 0 });
    assert_eq!(snek.body[2], Pos { x: 0, y: 0 });
    assert_eq!(snek.dir, Direction::Right);
    assert_eq!(snek.grow_buf, 0);
}

#[test]
fn one_tick_without_input_moves_right() {
    let mut snek = standard_snek();
    snek.slither(None);
    assert_eq!(snek.body.len(), 3);
    assert_eq!(snek.body[0], Pos { x: 3, y: 0 });
    assert_eq!(snek.body[1], Pos { x: 2, y: 0 });
    assert_eq!(snek.body[2], Pos { x: 1, y: 0 });
    assert_eq!(snek.dir, Direction::Right);
}

#[test]
fn opposite_request_is_ignored() {
    let mut snek = standard_snek();
    snek.slither(Some(Direction::Left));
    assert_eq!(snek.dir, Direction::Right);
    assert_eq!(snek.body[0], Pos { x: 3, y: 0 });
    let mut up = standard_snek();
    up.slither(Some(Direction::Up));
    assert_eq!(up.dir, Direction::Up);
    up.slither(Some(Direction::Down));
    assert_eq!(up.dir, Direction::Up);
    assert_eq!(up.body[0], Pos { x: 2, y: 2 });
}

#[test]
fn eating_grows_by_three_over_following_ticks() {
    let mut snek = standard_snek();
    snek.world.food_pos = Pos { x: 2, y: 0 };  // exactly under the head
    snek.slither(None);
    assert_eq!(snek.body.len(), 4);
    assert_eq!(snek.grow_buf, 2);
    assert!(!snek.body.iter().any(|p| *p == snek.world.food_pos));
    snek.world.food_pos = Pos { x: -15, y: -15 };
    snek.slither(None);
    assert_eq!(snek.body.len(), 5);
    assert_eq!(snek.grow_buf, 1);
    snek.slither(None);
    assert_eq!(snek.body.len(), 6);
    assert_eq!(snek.grow_buf, 0);
    snek.slither(None);
    assert_eq!(snek.body.len(), 6);
    assert_eq!(snek.grow_buf, 0);
    assert_eq!(snek.score(), 6);
}

#[test]
fn score_counts_length_plus_pending_growth() {
    let mut snek = standard_snek();
    assert_eq!(snek.score(), 3);
    snek.world.food_pos = Pos { x: 2, y: 0 };
    snek.slither(None);
    assert_eq!(snek.score(), 6);
}

#[test]
fn death_at_the_wall_on_the_exact_tick() {
    let mut snek = standard_snek();
    for k in 1..=17 {
        snek.slither(None);
        assert_eq!(snek.body[0], Pos { x: 2 + k, y: 0 });
        assert!(!snek.check_dead());
    }
    snek.slither(None);
    assert_eq!(snek.body[0], Pos { x: 20, y: 0 });
    assert!(snek.check_dead());
}

#[test]
fn self_collision_detected_on_the_exact_tick() {
    let mut snek = standard_snek();
    snek.world.food_pos = Pos { x: 2, y: 0 };
    snek.slither(None);  // eats: length 4, pending growth 2
    snek.world.food_pos = Pos { x: -15, y: -15 };
    snek.slither(Some(Direction::Up));  // length 5
    assert!(!snek.check_dead());
    snek.slither(Some(Direction::Left));  // length 6
    assert!(!snek.check_dead());
    snek.slither(Some(Direction::Down));  // head re-enters its own body
    assert_eq!(snek.body[0], Pos { x: 2, y: 0 });
    assert!(snek.check_dead());
}

#[test]
fn reset_restores_initial_configuration() {
    let mut snek = standard_snek();
    snek.world.food_pos = Pos { x: 2, y: 0 };
    snek.slither(None);
    snek.world.food_pos = Pos { x: -15, y: -15 };
    snek.slither(Some(Direction::Up));
    snek.slither(Some(Direction::Left));
    snek.slither(Some(Direction::Down));
    assert!(snek.check_dead());
    snek.reset();
    assert_eq!(snek.body.len(), 3);
    assert_eq!(snek.body[0], Pos { x: 2, y: 0 });
    assert_eq!(snek.body[1], Pos { x: 1, y: 0 });
    assert_eq!(snek.body[2], Pos { x: 0, y: 0 });
    assert_eq!(snek.dir, Direction::Right);
    assert_eq!(snek.grow_buf, 0);
    assert!(!snek.check_dead());
}

#[test]
fn queue_keeps_at_most_two_entries() {
    let mut q = InputQueue::new();
    q.push(Some(Direction::Up));
    q.push(Some(Direction::Left));
    assert_eq!(q.to_vec(), vec![Some(Direction::Up), Some(Direction::Left)]);
    q.push(Some(Direction::Down));
    assert_eq!(q.to_vec(), vec![Some(Direction::Down)]);
}

#[test]
fn queue_duplicate_push_clears_and_restarts() {
    let mut q = InputQueue::new();
    q.push(Some(Direction::Up));
    q.push(Some(Direction::Up));
    assert_eq!(q.to_vec(), vec![Some(Direction::Up)]);
    q.push(None);
    q.push(None);
    assert_eq!(q.to_vec(), vec![None]);
}

#[test]
fn queue_pops_in_arrival_order() {
    let mut q = InputQueue::new();
    assert!(q.is_empty());
    q.push(Some(Direction::Up));
    q.push(Some(Direction::Left));
    assert_eq!(q.pop(), Some(Direction::Up));
    assert_eq!(q.pop(), Some(Direction::Left));
    assert_eq!(q.pop(), None);
    assert!(q.is_empty());
}

#[test]
fn game_loop_ticks_only_after_the_interval() {
    let mut g = GameLoop::new();
    let mut snek = standard_snek();
    let mut q = InputQueue::new();
    let redraw = g.step(&mut snek, &mut q, 100);
    assert!(!redraw);
    assert_eq!(snek.body[0], Pos { x: 2, y: 0 });
    let redraw = g.step(&mut snek, &mut q, 25);
    assert!(redraw);
    assert_eq!(snek.body[0], Pos { x: 3, y: 0 });
    assert_eq!(g.timer_ms, 0);
    let redraw = g.step(&mut snek, &mut q, 1);
    assert!(!redraw);
    assert_eq!(snek.body[0], Pos { x: 3, y: 0 });
}

#[test]
fn game_loop_tick_consumes_one_buffered_direction() {
    let mut g = GameLoop::new();
    let mut snek = standard_snek();
    let mut q = InputQueue::new();
    q.push(Some(Direction::Up));
    q.push(Some(Direction::Left));
    let redraw = g.step(&mut snek, &mut q, 125);
    assert!(redraw);
    assert_eq!(snek.dir, Direction::Up);
    assert_eq!(snek.body[0], Pos { x: 2, y: 1 });
    assert_eq!(q.to_vec(), vec![Some(Direction::Left)]);
}

#[test]
fn game_loop_dead_waits_for_input_then_resets() {
    let mut g = GameLoop::new();
    let mut snek = standard_snek();
    let mut q = InputQueue::new();
    g.is_dead = true;
    let redraw = g.step(&mut snek, &mut q, 500);
    assert!(!redraw);
    assert!(g.is_dead);
    q.push(Some(Direction::Up));
    let redraw = g.step(&mut snek, &mut q, 1);
    assert!(!redraw);
    assert!(!g.is_dead);
    assert_eq!(snek.body.len(), 3);
    assert_eq!(snek.body[0], Pos { x: 2, y: 0 });
    assert_eq!(snek.dir, Direction::Right);
    // the buffered entry is kept for the next tick
    assert_eq!(q.to_vec(), vec![Some(Direction::Up)]);
}

#[test]
fn game_loop_timer_saturates_while_dead() {
    let mut g = GameLoop::new();
    let mut snek = standard_snek();
    let mut q = InputQueue::new();
    g.is_dead = true;
    g.step(&mut snek, &mut q, u64::MAX);
    g.step(&mut snek, &mut q, u64::MAX);
    assert_eq!(g.timer_ms, u64::MAX);
    assert!(g.is_dead);
}

#[test]
fn can_tick_holds_for_a_fresh_snake() {
    let snek = standard_snek();
    assert!(snek.can_tick());
}
