use maze_terminal::color::Color;
use maze_terminal::encoder::{decode_frame, ChannelOrder, RESET_BYTES};
use maze_terminal::frame_loop::{any_asserted, forward_buttons, Animation, FrameConfig, FrameLoop, OverridePolicy};
use maze_terminal::layout::{maze_config, terminal_config, terminal_regions, NUM_LEDS};
use maze_terminal::region::Region;

fn red() -> Color {
    Color::new(255, 0, 0)
}
fn green() -> Color {
    Color::new(0, 255, 0)
}
fn blue() -> Color {
    Color::new(0, 0, 255)
}

fn palette_loop() -> FrameLoop {
    FrameLoop::new(FrameConfig {
        num_leds: 6,
        regions: vec![Region::new(0, 1), Region::new(5, 6)],
        animation: Animation::Palette(vec![red(), green(), blue()]),
        brightness: 255,
        order: ChannelOrder::Grb,
        policy: OverridePolicy::Fill(Color::new(9, 9, 9)),
        active_low: false,
    })
}

#[test]
fn palette_scenario_two_ticks() {
    let mut fl = palette_loop();
    let idle = vec![false, false];
    let out = fl.step(&idle, &vec![]);
    assert_eq!(out.pixels, vec![red(), green(), blue(), red(), green(), blue()]);
    assert_eq!(fl.cursor(), 1);
    let out = fl.step(&idle, &vec![]);
    assert_eq!(out.pixels, vec![green(), blue(), red(), green(), blue(), red()]);
    assert_eq!(fl.cursor(), 2);
}

#[test]
fn cursor_wraps_after_led_count_ticks() {
    let mut fl = palette_loop();
    let idle = vec![false, false];
    let first = fl.step(&idle, &vec![]);
    for _ in 0..5 {
        fl.step(&idle, &vec![]);
    }
    assert_eq!(fl.cursor(), 0);
    assert_eq!(fl.step(&idle, &vec![]).pixels, first.pixels);
}

#[test]
fn override_wins_over_animation() {
    let mut fl = palette_loop();
    let out = fl.step(&vec![true, false], &vec![]);
    assert_eq!(out.pixels, vec![Color::new(9, 9, 9), green(), blue(), red(), green(), blue()]);
    let out = fl.step(&vec![true, true], &vec![]);
    assert_eq!(out.pixels, vec![Color::new(9, 9, 9), blue(), red(), green(), blue(), Color::new(9, 9, 9)]);
}

#[test]
fn stream_carries_the_scaled_pixels() {
    let mut fl = FrameLoop::new(terminal_config());
    let levels = vec![true, true, true, true];
    let out = fl.step(&levels, &vec![true, false, true, true]);
    assert_eq!(out.pixels.len(), NUM_LEDS);
    assert_eq!(out.stream.len(), 12 * NUM_LEDS + RESET_BYTES);
    let body = out.stream[..12 * NUM_LEDS].to_vec();
    assert_eq!(decode_frame(&body, ChannelOrder::Grb), Some(out.pixels.clone()));
    // full red scaled by 25/255
    assert_eq!(out.pixels[0], Color::new(25, 0, 0));
    assert_eq!(out.forwarded, vec![true, false, true, true]);
}

#[test]
fn terminal_sides_go_dark_when_low() {
    let mut fl = FrameLoop::new(terminal_config());
    // north and west pulled low
    let out = fl.step(&vec![false, true, true, false], &vec![true, true, true, true]);
    let regions = terminal_regions();
    for i in 0..NUM_LEDS {
        let dark = (regions[0].start..regions[0].end).contains(&i) || (regions[3].start..regions[3].end).contains(&i);
        if dark {
            assert_eq!(out.pixels[i], Color::off(), "pixel {}", i);
        } else {
            assert_ne!(out.pixels[i], Color::off(), "pixel {}", i);
        }
    }
}

#[test]
fn maze_mode_blue_with_dark_sides() {
    let mut fl = FrameLoop::new(maze_config());
    let out = fl.step(&vec![true, false, true, true], &vec![]);
    for i in 0..NUM_LEDS {
        if (69..87).contains(&i) {
            assert_eq!(out.pixels[i], Color::off());
        } else {
            assert_eq!(out.pixels[i], Color::new(0, 0, 25));
        }
    }
}

#[test]
fn startup_fork_on_any_pressed_button() {
    assert!(!any_asserted(&vec![true, true, true, true], true));
    assert!(any_asserted(&vec![true, true, false, true], true));
    assert!(any_asserted(&vec![false, true], false));
    assert!(!any_asserted(&vec![], true));
}

#[test]
fn buttons_forwarded_level_for_level() {
    assert_eq!(forward_buttons(&vec![true, false, false, true]), vec![true, false, false, true]);
}
