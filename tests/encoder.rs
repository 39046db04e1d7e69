use maze_terminal::color::Color;
use maze_terminal::encoder::{decode_frame, encode_frame, frame_stream, ChannelOrder, RESET_BYTES};

fn sample_colors(n: usize) -> Vec<Color> {
    let mut v = Vec::new();
    let mut x: u32 = 12345;
    for _ in 0..n {
        x = x.wrapping_mul(1103515245).wrapping_add(12345);
        let r = (x >> 8) as u8;
        let g = (x >> 16) as u8;
        let b = (x >> 24) as u8;
        v.push(Color::new(r, g, b));
    }
    v
}

#[test]
fn encodes_red_in_grb_order() {
    let out = encode_frame(&vec![Color::new(255, 0, 0)], ChannelOrder::Grb);
    assert_eq!(out, vec![0x88, 0x88, 0x88, 0x88, 0xee, 0xee, 0xee, 0xee, 0x88, 0x88, 0x88, 0x88]);
}

#[test]
fn encodes_bits_most_significant_first() {
    // 0x9c = 10 01 11 00
    let out = encode_frame(&vec![Color::new(0x9c, 0x01, 0x80)], ChannelOrder::Rgb);
    assert_eq!(
        out,
        vec![0xe8, 0x8e, 0xee, 0x88, 0x88, 0x88, 0x88, 0x8e, 0xe8, 0x88, 0x88, 0x88]
    );
}

#[test]
fn channel_order_changes_the_wire() {
    let c = vec![Color::new(1, 2, 3)];
    assert_ne!(encode_frame(&c, ChannelOrder::Rgb), encode_frame(&c, ChannelOrder::Grb));
}

#[test]
fn round_trip_for_several_lengths() {
    for &n in &[0usize, 1, 3, 87] {
        for &order in &[ChannelOrder::Rgb, ChannelOrder::Grb] {
            let colors = sample_colors(n);
            let stream = encode_frame(&colors, order);
            assert_eq!(stream.len(), 12 * n);
            assert_eq!(decode_frame(&stream, order), Some(colors));
        }
    }
}

#[test]
fn round_trip_every_channel_value() {
    let colors: Vec<Color> = (0..=255u8).map(|v| Color::new(v, 255 - v, v ^ 0x5a)).collect();
    let stream = encode_frame(&colors, ChannelOrder::Grb);
    assert_eq!(decode_frame(&stream, ChannelOrder::Grb), Some(colors));
}

#[test]
fn frame_stream_ends_with_reset_gap() {
    let colors = sample_colors(3);
    let stream = frame_stream(&colors, ChannelOrder::Grb);
    assert_eq!(stream.len(), 36 + RESET_BYTES);
    assert_eq!(RESET_BYTES, 20);
    assert_eq!(&stream[..36], &encode_frame(&colors, ChannelOrder::Grb)[..]);
    assert!(stream[36..].iter().all(|&b| b == 0));
}

#[test]
fn decode_rejects_bad_streams() {
    let mut stream = encode_frame(&sample_colors(2), ChannelOrder::Rgb);
    assert_eq!(decode_frame(&stream[..23].to_vec(), ChannelOrder::Rgb), None);
    stream[17] = 0x00;
    assert_eq!(decode_frame(&stream, ChannelOrder::Rgb), None);
    assert_eq!(decode_frame(&Vec::new(), ChannelOrder::Rgb), Some(Vec::new()));
}
