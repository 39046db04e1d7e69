//! The one-wire LED protocol over SPI.
//!
//! Every logical bit becomes four SPI bits: `1110` for a one (long high,
//! short low) and `1000` for a zero (short high, long low). One SPI byte
//! therefore carries two logical bits, and one 8-bit channel takes four SPI
//! bytes, most significant bits first.
use vstd::prelude::*;
use crate::color::Color;

verus! {

/// Number of zero bytes sent after a frame so that the line stays low long
/// enough for the LED chain to latch it.
pub const RESET_BYTES: usize = 20;

/// Order in which the three channels of a pixel go on the wire.
#[derive(Clone, Copy, Debug, PartialEq, Eq, Structural)]
pub enum ChannelOrder {
    Rgb,
    Grb,
}

pub open spec fn wire_channels(c: Color, order: ChannelOrder) -> Seq<u8> {
    match order {
        ChannelOrder::Rgb => seq![c.r, c.g, c.b],
        ChannelOrder::Grb => seq![c.g, c.r, c.b],
    }
}

/// The SPI byte for two logical bits, `bits` being their value in 0..4.
pub open spec fn pulse_pattern(bits: u8) -> u8 {
    if bits == 0 {
        0x88
    } else if bits == 1 {
        0x8e
    } else if bits == 2 {
        0xe8
    } else {
        0xee
    }
}

/// The two logical bits that an SPI byte carries, if it is a valid pattern.
pub open spec fn pulse_bits(p: u8) -> Option<u8> {
    if p == 0x88 {
        Some(0)
    } else if p == 0x8e {
        Some(1)
    } else if p == 0xe8 {
        Some(2)
    } else if p == 0xee {
        Some(3)
    } else {
        None
    }
}

/// The four SPI bytes for one channel value, most significant bits first.
pub open spec fn encode_byte(b: u8) -> Seq<u8> {
    seq![
        pulse_pattern((b / 64) % 4),
        pulse_pattern((b / 16) % 4),
        pulse_pattern((b / 4) % 4),
        pulse_pattern(b % 4),
    ]
}

pub open spec fn encode_pixel(c: Color, order: ChannelOrder) -> Seq<u8> {
    let w = wire_channels(c, order);
    encode_byte(w[0]) + encode_byte(w[1]) + encode_byte(w[2])
}

/// The pulse bytes of a whole buffer: pixels in order, no gap between them.
pub open spec fn encode_pixels(colors: Seq<Color>, order: ChannelOrder) -> Seq<u8>
    decreases colors.len(),
{
    if colors.len() == 0 {
        Seq::empty()
    } else {
        encode_pixels(colors.drop_last(), order) + encode_pixel(colors.last(), order)
    }
}

/// What a frame puts on the wire: the pulse bytes, then the low reset gap.
pub open spec fn frame_bytes(colors: Seq<Color>, order: ChannelOrder) -> Seq<u8> {
    encode_pixels(colors, order) + Seq::new(RESET_BYTES as nat, |i: int| 0u8)
}

/// The channel value that four SPI bytes carry, if each is a valid pattern.
pub open spec fn decode_byte(q: Seq<u8>) -> Option<u8> {
    if q.len() == 4 && pulse_bits(q[0]) is Some && pulse_bits(q[1]) is Some && pulse_bits(
        q[2],
    ) is Some && pulse_bits(q[3]) is Some {
        Some(
            (pulse_bits(q[0])->0 * 64 + pulse_bits(q[1])->0 * 16 + pulse_bits(q[2])->0 * 4
                + pulse_bits(q[3])->0) as u8,
        )
    } else {
        None
    }
}

pub open spec fn color_from_wire(x: u8, y: u8, z: u8, order: ChannelOrder) -> Color {
    match order {
        ChannelOrder::Rgb => Color { r: x, g: y, b: z },
        ChannelOrder::Grb => Color { r: y, g: x, b: z },
    }
}

/// The pixel that twelve SPI bytes carry.
pub open spec fn decode_pixel(q: Seq<u8>, order: ChannelOrder) -> Option<Color> {
    let x = decode_byte(q.subrange(0, 4));
    let y = decode_byte(q.subrange(4, 8));
    let z = decode_byte(q.subrange(8, 12));
    if q.len() == 12 && x is Some && y is Some && z is Some {
        Some(color_from_wire(x->0, y->0, z->0, order))
    } else {
        None
    }
}

/// The buffer that a pulse stream carries, if the stream is a whole number
/// of valid pixels.
pub open spec fn decode_pixels(p: Seq<u8>, order: ChannelOrder) -> Option<Seq<Color>>
    decreases p.len(),
{
    if p.len() % 12 != 0 {
        None
    } else if p.len() == 0 {
        Some(Seq::empty())
    } else {
        let n = p.len() - 12;
        match (decode_pixels(p.subrange(0, n), order), decode_pixel(p.subrange(n, p.len() as int), order)) {
            (Some(front), Some(c)) => Some(front.push(c)),
            _ => None,
        }
    }
}

proof fn lemma_byte_digits(b: u8)
    ensures
        ((b / 64) % 4) as int * 64 + ((b / 16) % 4) as int * 16 + ((b / 4) % 4) as int * 4 + (b
            % 4) as int == b as int,
{
    assert(((b / 64) % 4) * 64 + ((b / 16) % 4) * 16 + ((b / 4) % 4) * 4 + (b % 4) == b)
        by (bit_vector);
}

/// Decoding the four SPI bytes of a channel value gives the value back.
pub proof fn lemma_byte_round_trip(b: u8)
    ensures
        decode_byte(encode_byte(b)) == Some(b),
{
    lemma_byte_digits(b);
    let q = encode_byte(b);
    assert(pulse_bits(q[0]) == Some((b / 64) % 4));
    assert(pulse_bits(q[1]) == Some((b / 16) % 4));
    assert(pulse_bits(q[2]) == Some((b / 4) % 4));
    assert(pulse_bits(q[3]) == Some(b % 4));
}

proof fn lemma_pixel_round_trip(c: Color, order: ChannelOrder)
    ensures
        encode_pixel(c, order).len() == 12,
        decode_pixel(encode_pixel(c, order), order) == Some(c),
{
    let w = wire_channels(c, order);
    let q = encode_pixel(c, order);
    lemma_byte_round_trip(w[0]);
    lemma_byte_round_trip(w[1]);
    lemma_byte_round_trip(w[2]);
    assert(q.subrange(0, 4) == encode_byte(w[0]));
    assert(q.subrange(4, 8) == encode_byte(w[1]));
    assert(q.subrange(8, 12) == encode_byte(w[2]));
}

pub proof fn lemma_encode_len(colors: Seq<Color>, order: ChannelOrder)
    ensures
        encode_pixels(colors, order).len() == 12 * colors.len(),
    decreases colors.len(),
{
    if colors.len() > 0 {
        lemma_encode_len(colors.drop_last(), order);
    }
}

/// Decoding the pulse stream of any buffer, by reading each SPI byte back
/// as the two bits whose pattern it is, gives the buffer back exactly.
pub proof fn lemma_round_trip(colors: Seq<Color>, order: ChannelOrder)
    ensures
        decode_pixels(encode_pixels(colors, order), order) == Some(colors),
    decreases colors.len(),
{
    let p = encode_pixels(colors, order);
    lemma_encode_len(colors, order);
    if colors.len() > 0 {
        let front = colors.drop_last();
        lemma_round_trip(front, order);
        lemma_pixel_round_trip(colors.last(), order);
        lemma_encode_len(front, order);
        let n = p.len() - 12;
        assert(p.subrange(0, n) == encode_pixels(front, order));
        assert(p.subrange(n, p.len() as int) == encode_pixel(colors.last(), order));
        assert(front.push(colors.last()) == colors);
    } else {
        assert(p.len() == 0);
    }
}

/// Once a whole-pixel prefix fails to decode, the whole stream fails.
proof fn lemma_prefix_fails(p: Seq<u8>, k: int, order: ChannelOrder)
    requires
        0 <= 12 * k <= p.len(),
        p.len() % 12 == 0,
        decode_pixels(p.take(12 * k), order) is None,
    ensures
        decode_pixels(p, order) is None,
    decreases p.len(),
{
    if p.len() == 12 * k {
        assert(p.take(12 * k) == p);
    } else {
        let n = p.len() - 12;
        let front = p.subrange(0, n);
        assert(front.take(12 * k) == p.take(12 * k));
        lemma_prefix_fails(front, k, order);
    }
}

proof fn lemma_decode_prefix_step(p: Seq<u8>, i: int, order: ChannelOrder)
    requires
        0 <= i,
        12 * i + 12 <= p.len(),
    ensures
        decode_pixels(p.take(12 * i + 12), order) == match (
            decode_pixels(p.take(12 * i), order),
            decode_pixel(p.subrange(12 * i, 12 * i + 12), order),
        ) {
            (Some(front), Some(c)) => Some(front.push(c)),
            _ => None,
        },
{
    let q = p.take(12 * i + 12);
    assert(q.subrange(0, 12 * i) == p.take(12 * i));
    assert(q.subrange(12 * i, 12 * i + 12) == p.subrange(12 * i, 12 * i + 12));
}

fn pulse_byte(bits: u8) -> (r: u8)
    requires
        bits < 4,
    ensures
        r == pulse_pattern(bits),
{
    if bits == 0 {
        0x88
    } else if bits == 1 {
        0x8e
    } else if bits == 2 {
        0xe8
    } else {
        0xee
    }
}

fn push_channel(out: &mut Vec<u8>, b: u8)
    ensures
        final(out)@ == old(out)@ + encode_byte(b),
{
    out.push(pulse_byte((b / 64) % 4));
    out.push(pulse_byte((b / 16) % 4));
    out.push(pulse_byte((b / 4) % 4));
    out.push(pulse_byte(b % 4));
    assert(out@ == old(out)@ + encode_byte(b));
}

fn push_pixel(out: &mut Vec<u8>, c: Color, order: ChannelOrder)
    ensures
        final(out)@ == old(out)@ + encode_pixel(c, order),
{
    match order {
        ChannelOrder::Rgb => {
            push_channel(out, c.r);
            push_channel(out, c.g);
            push_channel(out, c.b);
        },
        ChannelOrder::Grb => {
            push_channel(out, c.g);
            push_channel(out, c.r);
            push_channel(out, c.b);
        },
    }
    let ghost w = wire_channels(c, order);
    assert(out@ == old(out)@ + encode_pixel(c, order)) by {
        assert(old(out)@ + encode_byte(w[0]) + encode_byte(w[1]) + encode_byte(w[2]) == old(out)@
            + encode_pixel(c, order));
    }
}

/// Encodes a buffer into pulse bytes: twelve per pixel, in buffer order.
pub fn encode_frame(colors: &Vec<Color>, order: ChannelOrder) -> (r: Vec<u8>)
    ensures
        r@ == encode_pixels(colors@, order),
        r@.len() == 12 * colors@.len(),
{
    let mut out: Vec<u8> = Vec::new();
    let mut i: usize = 0;
    while i < colors.len()
        invariant
            i <= colors.len(),
            out@ == encode_pixels(colors@.take(i as int), order),
        decreases colors.len() - i,
    {
        push_pixel(&mut out, colors[i], order);
        proof {
            assert(colors@.take(i as int + 1).drop_last() == colors@.take(i as int));
        }
        i = i + 1;
    }
    proof {
        assert(colors@.take(colors@.len() as int) == colors@);
        lemma_encode_len(colors@, order);
    }
    out
}

/// Everything one frame puts on the bus: the pulse bytes of the buffer, then
/// the reset gap of zero bytes that makes the chain latch it.
pub fn frame_stream(colors: &Vec<Color>, order: ChannelOrder) -> (r: Vec<u8>)
    ensures
        r@ == frame_bytes(colors@, order),
        r@.len() == 12 * colors@.len() + RESET_BYTES,
{
    let mut out = encode_frame(colors, order);
    let ghost body = out@;
    let mut k: usize = 0;
    while k < RESET_BYTES
        invariant
            k <= RESET_BYTES,
            out@ == body + Seq::new(k as nat, |i: int| 0u8),
        decreases RESET_BYTES - k,
    {
        out.push(0);
        proof {
            assert(Seq::new(k as nat, |i: int| 0u8).push(0u8) == Seq::new(
                (k + 1) as nat,
                |i: int| 0u8,
            ));
        }
        k = k + 1;
    }
    out
}

fn pulse_bits_exec(p: u8) -> (r: Option<u8>)
    ensures
        r == pulse_bits(p),
{
    if p == 0x88 {
        Some(0)
    } else if p == 0x8e {
        Some(1)
    } else if p == 0xe8 {
        Some(2)
    } else if p == 0xee {
        Some(3)
    } else {
        None
    }
}

fn decode_channel(stream: &Vec<u8>, at: usize) -> (r: Option<u8>)
    requires
        at + 4 <= stream@.len(),
    ensures
        r == decode_byte(stream@.subrange(at as int, at + 4)),
{
    let q = Ghost(stream@.subrange(at as int, at + 4));
    let len = stream.len();
    assert(at + 3 < len);
    match (
        pulse_bits_exec(stream[at]),
        pulse_bits_exec(stream[at + 1]),
        pulse_bits_exec(stream[at + 2]),
        pulse_bits_exec(stream[at + 3]),
    ) {
        (Some(a), Some(b), Some(c), Some(d)) => {
            assert(q@[0] == stream@[at as int]);
            Some(a * 64 + b * 16 + c * 4 + d)
        },
        _ => {
            assert(q@[0] == stream@[at as int]);
            None
        },
    }
}

fn decode_one_pixel(stream: &Vec<u8>, at: usize, order: ChannelOrder) -> (r: Option<Color>)
    requires
        at + 12 <= stream@.len(),
    ensures
        r == decode_pixel(stream@.subrange(at as int, at + 12), order),
{
    let ghost q = stream@.subrange(at as int, at + 12);
    let len = stream.len();
    assert(at + 11 < len);
    assert(q.subrange(0, 4) == stream@.subrange(at as int, at + 4));
    assert(q.subrange(4, 8) == stream@.subrange(at + 4, at + 8));
    assert(q.subrange(8, 12) == stream@.subrange(at + 8, at + 12));
    match (
        decode_channel(stream, at),
        decode_channel(stream, at + 4),
        decode_channel(stream, at + 8),
    ) {
        (Some(x), Some(y), Some(z)) => match order {
            ChannelOrder::Rgb => Some(Color { r: x, g: y, b: z }),
            ChannelOrder::Grb => Some(Color { r: y, g: x, b: z }),
        },
        _ => None,
    }
}

/// Reads a pulse stream back into the buffer it carries. `None` when the
/// stream is not a whole number of pixels or holds a byte that is no valid
/// pulse pattern.
pub fn decode_frame(stream: &Vec<u8>, order: ChannelOrder) -> (r: Option<Vec<Color>>)
    ensures
        match r {
            Some(v) => decode_pixels(stream@, order) == Some(v@),
            None => decode_pixels(stream@, order) is None,
        },
{
    if stream.len() % 12 != 0 {
        return None;
    }
    let n = stream.len() / 12;
    let mut out: Vec<Color> = Vec::new();
    let mut i: usize = 0;
    let mut at: usize = 0;
    while i < n
        invariant
            at == 12 * i,
            n == stream@.len() / 12,
            12 * n == stream@.len(),
            stream@.len() <= usize::MAX,
            stream@.len() % 12 == 0,
            i <= n,
            decode_pixels(stream@.take(12 * i), order) == Some(out@),
        decreases n - i,
    {
        proof {
            lemma_decode_prefix_step(stream@, i as int, order);
        }
        match decode_one_pixel(stream, at, order) {
            Some(c) => {
                out.push(c);
            },
            None => {
                proof {
                    lemma_prefix_fails(stream@, i + 1, order);
                }
                return None;
            },
        }
        i = i + 1;
        at = at + 12;
    }
    assert(stream@.take(12 * n) == stream@);
    Some(out)
}

} // verus!
