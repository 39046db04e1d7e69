use vstd::prelude::*;

verus! {

/// An 8-bit-per-channel RGB value.
#[derive(Clone, Copy, Debug, PartialEq, Eq, Structural)]
pub struct Color {
    pub r: u8,
    pub g: u8,
    pub b: u8,
}

/// The all-zero (off) color.
pub open spec fn black() -> Color {
    Color { r: 0, g: 0, b: 0 }
}

impl Color {
    pub fn new(r: u8, g: u8, b: u8) -> (c: Color)
        ensures
            c.r == r,
            c.g == g,
            c.b == b,
    {
        Color { r, g, b }
    }

    pub fn off() -> (c: Color)
        ensures
            c == black(),
    {
        Color { r: 0, g: 0, b: 0 }
    }
}

impl Default for Color {
    fn default() -> (c: Color)
        ensures
            c == black(),
    {
        Color::off()
    }
}

/// One channel scaled by `factor / 255`, truncating.
pub open spec fn scale_channel(c: u8, factor: u8) -> u8 {
    ((c as int) * (factor as int) / 255) as u8
}

pub open spec fn scaled(c: Color, factor: u8) -> Color {
    Color {
        r: scale_channel(c.r, factor),
        g: scale_channel(c.g, factor),
        b: scale_channel(c.b, factor),
    }
}

pub open spec fn scaled_frame(frame: Seq<Color>, factor: u8) -> Seq<Color> {
    frame.map_values(|c: Color| scaled(c, factor))
}

proof fn lemma_scale_channel_le(c: u8, factor: u8)
    ensures
        (c as int) * (factor as int) / 255 <= c as int,
        0 <= (c as int) * (factor as int) / 255,
{
    assert((c as int) * (factor as int) <= (c as int) * 255) by (nonlinear_arith)
        requires
            factor <= 255,
            0 <= c,
    ;
    assert(0 <= (c as int) * (factor as int)) by (nonlinear_arith)
        requires
            0 <= factor,
            0 <= c,
    ;
    assert((c as int) * (factor as int) / 255 <= (c as int) * 255 / 255) by (nonlinear_arith)
        requires
            (c as int) * (factor as int) <= (c as int) * 255,
    ;
}

fn scale_channel_exec(c: u8, factor: u8) -> (r: u8)
    ensures
        r == scale_channel(c, factor),
        r <= c,
{
    proof {
        lemma_scale_channel_le(c, factor);
    }
    let wide: u16 = (c as u16) * (factor as u16) / 255;
    wide as u8
}

/// Scales every channel of `c` by `factor / 255`, truncating the quotient.
pub fn scale(c: Color, factor: u8) -> (r: Color)
    ensures
        r == scaled(c, factor),
        r.r <= c.r,
        r.g <= c.g,
        r.b <= c.b,
{
    Color {
        r: scale_channel_exec(c.r, factor),
        g: scale_channel_exec(c.g, factor),
        b: scale_channel_exec(c.b, factor),
    }
}

/// Scales every pixel of a frame by one frame-global factor.
pub fn scale_frame(frame: &Vec<Color>, factor: u8) -> (r: Vec<Color>)
    ensures
        r@ == scaled_frame(frame@, factor),
{
    let mut out: Vec<Color> = Vec::with_capacity(frame.len());
    let mut i: usize = 0;
    while i < frame.len()
        invariant
            i <= frame.len(),
            out@ == scaled_frame(frame@.take(i as int), factor),
        decreases frame.len() - i,
    {
        out.push(scale(frame[i], factor));
        proof {
            assert(frame@.take(i as int + 1) == frame@.take(i as int).push(frame@[i as int]));
        }
        i = i + 1;
    }
    proof {
        assert(frame@.take(frame@.len() as int) == frame@);
    }
    out
}

/// Full brightness keeps a color, zero brightness turns it off, and a lower
/// factor never gives a brighter channel than a higher one.
pub proof fn lemma_scale_laws(c: Color, lo: u8, hi: u8)
    requires
        lo <= hi,
    ensures
        scaled(c, 255) == c,
        scaled(c, 0) == black(),
        scaled(c, lo).r <= scaled(c, hi).r,
        scaled(c, lo).g <= scaled(c, hi).g,
        scaled(c, lo).b <= scaled(c, hi).b,
{
    lemma_scale_channel_monotone(c.r, lo, hi);
    lemma_scale_channel_monotone(c.g, lo, hi);
    lemma_scale_channel_monotone(c.b, lo, hi);
    assert((c.r as int) * 255 / 255 == c.r as int) by (nonlinear_arith);
    assert((c.g as int) * 255 / 255 == c.g as int) by (nonlinear_arith);
    assert((c.b as int) * 255 / 255 == c.b as int) by (nonlinear_arith);
}

proof fn lemma_scale_channel_monotone(c: u8, lo: u8, hi: u8)
    requires
        lo <= hi,
    ensures
        scale_channel(c, lo) <= scale_channel(c, hi),
{
    lemma_scale_channel_le(c, lo);
    lemma_scale_channel_le(c, hi);
    assert((c as int) * (lo as int) <= (c as int) * (hi as int)) by (nonlinear_arith)
        requires
            lo <= hi,
            0 <= c,
    ;
    assert((c as int) * (lo as int) / 255 <= (c as int) * (hi as int) / 255) by (nonlinear_arith)
        requires
            (c as int) * (lo as int) <= (c as int) * (hi as int),
    ;
}

} // verus!
