use slithery::frame::{Color, FrameBuffer};
use slithery::geom::Pos;
use slithery::snake::SlitherySnek;
use slithery::text::blit_coverage;
use slithery::world::World;

fn px(fb: &FrameBuffer, x: u32, y: u32) -> [u8; 4] {
    let base = (4 * (y * fb.width + x)) as usize;
    [fb.data[base], fb.data[base + 1], fb.data[base + 2], fb.data[base + 3]]
}

#[test]
fn new_framebuffer_is_zeroed() {
    let fb = FrameBuffer::new(10, 8);
    assert_eq!(fb.data.len(), 320);
    assert!(fb.data.iter().all(|b| *b == 0));
}

#[test]
fn set_pixel_writes_the_four_bytes() {
    let mut fb = FrameBuffer::new(10, 8);
    fb.set_pixel(3, 2, Color { r: 1, g: 2, b: 3, a: 4 });
    assert_eq!(px(&fb, 3, 2), [1, 2, 3, 4]);
    assert_eq!(px(&fb, 2, 2), [0, 0, 0, 0]);
    assert_eq!(px(&fb, 3, 1), [0, 0, 0, 0]);
}

#[test]
fn set_pixel_skips_out_of_bounds_writes() {
    let mut fb = FrameBuffer::new(10, 8);
    fb.set_pixel(-1, 0, Color { r: 9, g: 9, b: 9, a: 9 });
    fb.set_pixel(10, 0, Color { r: 9, g: 9, b: 9, a: 9 });
    fb.set_pixel(0, 8, Color { r: 9, g: 9, b: 9, a: 9 });
    assert!(fb.data.iter().all(|b| *b == 0));
}

#[test]
fn fill_rect_paints_exactly_the_rectangle() {
    let mut fb = FrameBuffer::new(10, 8);
    fb.fill_rect(2, 3, 3, 2, Color { r: 7, g: 8, b: 9, a: 10 });
    for x in 0..10u32 {
        for y in 0..8u32 {
            let inside = (2..5).contains(&x) && (3..5).contains(&y);
            if inside {
                assert_eq!(px(&fb, x, y), [7, 8, 9, 10]);
            } else {
                assert_eq!(px(&fb, x, y), [0, 0, 0, 0]);
            }
        }
    }
}

#[test]
fn clear_zeroes_a_painted_buffer() {
    let mut fb = FrameBuffer::new(6, 6);
    fb.fill_rect(0, 0, 6, 6, Color { r: 5, g: 5, b: 5, a: 5 });
    fb.clear();
    assert!(fb.data.iter().all(|b| *b == 0));
}

#[test]
fn world_draw_paints_border_and_food() {
    let mut w = World::new(4, 4, 4);
    w.food_pos = Pos { x: 0, y: 0 };
    let mut fb = FrameBuffer::new(40, 40);
    w.draw(&mut fb);
    // border rows and columns: left 10, right 26, top 14, bottom 30
    assert_eq!(px(&fb, 11, 14), [0xff, 0xff, 0xff, 0xff]);
    assert_eq!(px(&fb, 11, 30), [0xff, 0xff, 0xff, 0xff]);
    assert_eq!(px(&fb, 10, 20), [0xff, 0xff, 0xff, 0xff]);
    assert_eq!(px(&fb, 26, 20), [0xff, 0xff, 0xff, 0xff]);
    // the bottom-right corner pixel stays unpainted
    assert_eq!(px(&fb, 26, 30), [0, 0, 0, 0]);
    // the food square: one pixel at the mapped cell, red with zero alpha
    assert_eq!(px(&fb, 20, 20), [0xff, 0, 0, 0]);
    assert_eq!(px(&fb, 21, 20), [0, 0, 0, 0]);
    // interior pixels stay untouched
    assert_eq!(px(&fb, 15, 16), [0, 0, 0, 0]);
}

#[test]
fn world_draw_backs_off_when_the_border_does_not_fit() {
    let w = World::new(4, 4, 4);
    let mut fb = FrameBuffer::new(8, 8);
    w.draw(&mut fb);
    assert!(fb.data.iter().all(|b| *b == 0));
}

#[test]
fn snake_draw_uses_head_and_body_colors() {
    let world = World::new(4, 4, 4);
    let mut snek = SlitherySnek::new(2, world);
    snek.world.food_pos = Pos { x: 1, y: 1 };
    let mut fb = FrameBuffer::new(40, 40);
    snek.draw(&mut fb);
    // head (1, 0) maps to pixel (24, 20); body (0, 0) to (20, 20)
    assert_eq!(px(&fb, 24, 20), [0xf7, 0xe8, 0x72, 0xff]);
    assert_eq!(px(&fb, 20, 20), [0xff, 0xff, 0xff, 0xff]);
    // food (1, 1) maps to pixel (24, 16)
    assert_eq!(px(&fb, 24, 16), [0xff, 0, 0, 0]);
}

#[test]
fn blit_coverage_writes_grayscale_with_zero_alpha() {
    let mut fb = FrameBuffer::new(10, 10);
    let coverage = vec![10u8, 20, 30, 40];
    blit_coverage(&mut fb, &coverage, 2, 2, 1, 1);
    assert_eq!(px(&fb, 1, 1), [10, 10, 10, 0]);
    assert_eq!(px(&fb, 2, 1), [20, 20, 20, 0]);
    assert_eq!(px(&fb, 1, 2), [30, 30, 30, 0]);
    assert_eq!(px(&fb, 2, 2), [40, 40, 40, 0]);
    assert_eq!(px(&fb, 0, 0), [0, 0, 0, 0]);
    assert_eq!(px(&fb, 3, 1), [0, 0, 0, 0]);
}

#[test]
fn blit_coverage_clips_at_the_frame_edge() {
    let mut fb = FrameBuffer::new(4, 4);
    let coverage = vec![50u8; 9];
    blit_coverage(&mut fb, &coverage, 3, 3, 2, 2);
    assert_eq!(px(&fb, 2, 2), [50, 50, 50, 0]);
    assert_eq!(px(&fb, 3, 3), [50, 50, 50, 0]);
    assert_eq!(px(&fb, 1, 1), [0, 0, 0, 0]);
}
