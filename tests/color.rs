use maze_terminal::color::{scale, scale_frame, Color};

#[test]
fn full_brightness_keeps_color() {
    for &(r, g, b) in &[(0u8, 0u8, 0u8), (1, 2, 3), (255, 128, 7), (255, 255, 255)] {
        let c = Color::new(r, g, b);
        assert_eq!(scale(c, 255), c);
    }
}

#[test]
fn zero_brightness_turns_off() {
    for &(r, g, b) in &[(0u8, 0u8, 0u8), (1, 2, 3), (255, 128, 7), (255, 255, 255)] {
        assert_eq!(scale(Color::new(r, g, b), 0), Color::off());
    }
}

#[test]
fn scale_truncates_exact_values() {
    assert_eq!(scale(Color::new(200, 255, 1), 128), Color::new(100, 128, 0));
    assert_eq!(scale(Color::new(255, 100, 129), 25), Color::new(25, 9, 12));
    assert_eq!(scale(Color::new(129, 254, 255), 1), Color::new(0, 0, 1));
}

#[test]
fn scale_is_monotone_in_factor() {
    let c = Color::new(255, 77, 13);
    let mut prev = scale(c, 0);
    for f in 1..=255u8 {
        let cur = scale(c, f);
        assert!(prev.r <= cur.r && prev.g <= cur.g && prev.b <= cur.b);
        assert!(cur.r <= c.r && cur.g <= c.g && cur.b <= c.b);
        prev = cur;
    }
}

#[test]
fn default_color_is_off() {
    assert_eq!(Color::default(), Color::new(0, 0, 0));
}

#[test]
fn scale_frame_scales_every_pixel() {
    let frame = vec![Color::new(255, 0, 0), Color::new(10, 20, 30), Color::new(0, 0, 255)];
    let out = scale_frame(&frame, 50);
    assert_eq!(out, vec![Color::new(50, 0, 0), Color::new(1, 3, 5), Color::new(0, 0, 50)]);
    assert!(scale_frame(&Vec::new(), 50).is_empty());
}
