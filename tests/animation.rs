use maze_terminal::animation::{advance_led_index, palette_frame, rainbow_frame, AnimationCursor};
use maze_terminal::color::Color;

#[test]
fn advance_wraps_at_led_count() {
    let mut i: usize = 5;
    assert_eq!(advance_led_index(&mut i, 87), 6);
    assert_eq!(i, 6);
    let mut i: usize = 86;
    assert_eq!(advance_led_index(&mut i, 87), 0);
    assert_eq!(i, 0);
    let mut i: usize = 200;
    assert_eq!(advance_led_index(&mut i, 87), 0);
    let mut i: usize = 0;
    assert_eq!(advance_led_index(&mut i, 1), 0);
}

#[test]
fn cursor_steps_by_one_and_returns_after_bound_ticks() {
    let mut c = AnimationCursor::new(87);
    assert_eq!(c.pos(), 0);
    for t in 1..=87usize {
        c.tick();
        assert_eq!(c.pos(), t % 87);
        assert_eq!(c.bound(), 87);
    }
    assert_eq!(c.pos(), 0);
}

fn rgb(r: u8, g: u8, b: u8) -> Color {
    Color::new(r, g, b)
}

#[test]
fn palette_sweep_shifts_each_tick() {
    let red = rgb(255, 0, 0);
    let green = rgb(0, 255, 0);
    let blue = rgb(0, 0, 255);
    let palette = vec![red, green, blue];
    assert_eq!(palette_frame(&palette, 0, 6), vec![red, green, blue, red, green, blue]);
    assert_eq!(palette_frame(&palette, 1, 6), vec![green, blue, red, green, blue, red]);
    assert_eq!(palette_frame(&palette, 5, 6), vec![blue, red, green, blue, red, green]);
}

#[test]
fn ramp_segments_for_87_pixels() {
    let f = rainbow_frame(0, 87);
    assert_eq!(f.len(), 87);
    let expect = [
        (0, rgb(255, 0, 0)),
        (13, rgb(255, 156, 0)),
        (14, rgb(255, 255, 0)),
        (27, rgb(99, 255, 0)),
        (28, rgb(0, 255, 0)),
        (41, rgb(0, 255, 156)),
        (42, rgb(0, 255, 255)),
        (55, rgb(0, 99, 255)),
        (56, rgb(0, 0, 255)),
        (69, rgb(156, 0, 255)),
        (70, rgb(255, 0, 255)),
        (86, rgb(255, 0, 63)),
    ];
    for &(i, c) in expect.iter() {
        assert_eq!(f[i], c, "pixel {}", i);
    }
}

#[test]
fn ramp_rotates_with_cursor() {
    let base = rainbow_frame(0, 87);
    let moved = rainbow_frame(1, 87);
    for p in 0..87 {
        assert_eq!(moved[(p + 1) % 87], base[p]);
    }
}

#[test]
fn ramp_on_six_pixels() {
    let f = rainbow_frame(0, 6);
    assert_eq!(
        f,
        vec![rgb(255, 0, 0), rgb(255, 255, 0), rgb(0, 255, 0), rgb(0, 255, 255), rgb(0, 0, 255), rgb(255, 0, 255)]
    );
}
