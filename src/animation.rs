//! The base buffer of each frame, and the cursor that moves it along.
use vstd::prelude::*;
use crate::color::Color;

verus! {

/// The index after `i` on a strip of `n` pixels, wrapping to zero.
pub open spec fn next_index(i: int, n: int) -> int {
    if i + 1 >= n {
        0
    } else {
        i + 1
    }
}

/// Advances `index` by one pixel, wrapping at `num_leds`, and returns the
/// new index.
pub fn advance_led_index(index: &mut usize, num_leds: usize) -> (r: usize)
    ensures
        r as int == next_index(*old(index) as int, num_leds as int),
        *final(index) == r,
{
    if *index < num_leds && num_leds - *index > 1 {
        *index = *index + 1;
    } else {
        *index = 0;
    }
    *index
}

/// The cursor position after `k` ticks from `pos`.
pub open spec fn after_ticks(pos: int, bound: int, k: nat) -> int
    decreases k,
{
    if k == 0 {
        pos
    } else {
        next_index(after_ticks(pos, bound, (k - 1) as nat), bound)
    }
}

/// The animation phase: a position in `[0, bound)` that moves one step per
/// tick and wraps at `bound`.
pub struct AnimationCursor {
    pos: usize,
    bound: usize,
}

impl AnimationCursor {
    pub closed spec fn position(&self) -> int {
        self.pos as int
    }

    pub closed spec fn limit(&self) -> int {
        self.bound as int
    }

    pub closed spec fn wf(&self) -> bool {
        self.pos < self.bound
    }

    /// A cursor at position zero that wraps at `bound`.
    pub fn new(bound: usize) -> (r: AnimationCursor)
        requires
            bound > 0,
        ensures
            r.wf(),
            r.position() == 0,
            r.limit() == bound,
    {
        AnimationCursor { pos: 0, bound }
    }

    pub fn pos(&self) -> (r: usize)
        ensures
            r == self.position(),
            self.wf() ==> r < self.limit(),
    {
        self.pos
    }

    pub fn bound(&self) -> (r: usize)
        ensures
            r == self.limit(),
    {
        self.bound
    }

    /// Moves the cursor one step forward, wrapping at its bound.
    pub fn tick(&mut self)
        requires
            old(self).wf(),
        ensures
            final(self).wf(),
            final(self).limit() == old(self).limit(),
            final(self).position() == (old(self).position() + 1) % old(self).limit(),
            final(self).position() == next_index(old(self).position(), old(self).limit()),
    {
        proof {
            lemma_next_index_mod(self.pos as int, self.bound as int);
        }
        advance_led_index(&mut self.pos, self.bound);
    }
}

/// After `k` ticks a cursor stands `k` steps further, modulo its bound; in
/// particular after exactly `bound` ticks it is back where it started.
pub proof fn lemma_cursor_period(pos: int, bound: int, k: nat)
    requires
        0 <= pos < bound,
    ensures
        after_ticks(pos, bound, k) == (pos + k) % bound,
        after_ticks(pos, bound, bound as nat) == pos,
{
    lemma_after_ticks(pos, bound, k);
    lemma_after_ticks(pos, bound, bound as nat);
    vstd::arithmetic::div_mod::lemma_mod_add_multiples_vanish(pos, bound);
    vstd::arithmetic::div_mod::lemma_small_mod(pos as nat, bound as nat);
}

proof fn lemma_next_index_mod(i: int, n: int)
    requires
        0 <= i < n,
    ensures
        next_index(i, n) == (i + 1) % n,
{
    if i + 1 < n {
        vstd::arithmetic::div_mod::lemma_small_mod((i + 1) as nat, n as nat);
    } else {
        vstd::arithmetic::div_mod::lemma_mod_self_0(n);
    }
}

proof fn lemma_after_ticks(pos: int, bound: int, k: nat)
    requires
        0 <= pos < bound,
    ensures
        after_ticks(pos, bound, k) == (pos + k) % bound,
    decreases k,
{
    if k == 0 {
        vstd::arithmetic::div_mod::lemma_small_mod(pos as nat, bound as nat);
    } else {
        lemma_after_ticks(pos, bound, (k - 1) as nat);
        let a = pos + k - 1;
        let prev = a % bound;
        let q = a / bound;
        vstd::arithmetic::div_mod::lemma_mod_bound(a, bound);
        vstd::arithmetic::div_mod::lemma_fundamental_div_mod(a, bound);
        lemma_next_index_mod(prev, bound);
        assert(a + 1 == bound * q + (prev + 1));
        vstd::arithmetic::div_mod::lemma_mod_multiples_vanish(q, prev + 1, bound);
    }
}

/// Palette sweep: pixel `i` shows `palette[(cursor + i) mod K]`.
pub open spec fn palette_pixel(palette: Seq<Color>, cursor: int, i: int) -> Color {
    palette[(cursor + i) % (palette.len() as int)]
}

/// The palette sweep for one frame of `num_leds` pixels.
pub fn palette_frame(palette: &Vec<Color>, cursor: usize, num_leds: usize) -> (r: Vec<Color>)
    requires
        palette@.len() > 0,
    ensures
        r@.len() == num_leds,
        forall|i: int| 0 <= i < num_leds ==> #[trigger] r@[i] == palette_pixel(palette@, cursor as int, i),
{
    let k = palette.len();
    let start = cursor % k;
    let mut out: Vec<Color> = Vec::with_capacity(num_leds);
    let mut i: usize = 0;
    let mut idx: usize = start;
    while i < num_leds
        invariant
            k == palette@.len(),
            k > 0,
            i <= num_leds,
            idx < k,
            idx == (cursor + i) % (k as int),
            out@.len() == i,
            forall|j: int| 0 <= j < i ==> #[trigger] out@[j] == palette_pixel(palette@, cursor as int, j),
        decreases num_leds - i,
    {
        out.push(palette[idx]);
        proof {
            let a = cursor + i;
            let q = a / (k as int);
            vstd::arithmetic::div_mod::lemma_fundamental_div_mod(a, k as int);
            assert(a + 1 == (k as int) * q + (idx + 1));
            vstd::arithmetic::div_mod::lemma_mod_multiples_vanish(q, idx + 1, k as int);
            if idx + 1 < k {
                vstd::arithmetic::div_mod::lemma_small_mod((idx + 1) as nat, k as nat);
            } else {
                vstd::arithmetic::div_mod::lemma_mod_self_0(k as int);
            }
        }
        idx = if idx + 1 < k { idx + 1 } else { 0 };
        i = i + 1;
    }
    out
}

/// Step of the ramped channel from one pixel to the next.
pub open spec fn ramp_step(n: int) -> int {
    (255int / n) * 6
}

/// Length of each of the six segments; the remainder `n mod 6` goes to the
/// sixth.
pub open spec fn segment_len(n: int) -> int {
    n / 6
}

/// Which of the six segments ramp position `k` falls in.
pub open spec fn ramp_segment(k: int, n: int) -> int {
    let l = segment_len(n);
    if l == 0 || k / l >= 5 {
        5
    } else {
        k / l
    }
}

/// The index of ramp position `k` within its segment.
pub open spec fn ramp_offset(k: int, n: int) -> int {
    k - ramp_segment(k, n) * segment_len(n)
}

/// Whether every ramped channel value fits in eight bits: the longest
/// segment times the step stays within 255.
pub open spec fn ramp_fits(n: int) -> bool {
    n > 0 && (segment_len(n) + n % 6 - 1) * ramp_step(n) <= 255
}

/// The color at position `k` of the six-segment hue ramp.
pub open spec fn ramp_color(k: int, n: int) -> Color {
    let seg = ramp_segment(k, n);
    let v = (ramp_offset(k, n) * ramp_step(n)) as u8;
    if seg == 0 {
        Color { r: 255, g: v, b: 0 }
    } else if seg == 1 {
        Color { r: (255 - v) as u8, g: 255, b: 0 }
    } else if seg == 2 {
        Color { r: 0, g: 255, b: v }
    } else if seg == 3 {
        Color { r: 0, g: (255 - v) as u8, b: 255 }
    } else if seg == 4 {
        Color { r: v, g: 0, b: 255 }
    } else {
        Color { r: 255, g: 0, b: (255 - v) as u8 }
    }
}

/// The ramp position shown by pixel `p`: the ramp starts at the cursor and
/// walks forward, wrapping at `n`.
pub open spec fn ramp_pos(p: int, cursor: int, n: int) -> int {
    if p >= cursor {
        p - cursor
    } else {
        p + n - cursor
    }
}

fn ramp_color_exec(k: usize, n: usize) -> (r: Color)
    requires
        k < n,
        ramp_fits(n as int),
    ensures
        r == ramp_color(k as int, n as int),
{
    let l = n / 6;
    let step = (255 / n) * 6;
    let seg: usize = if l == 0 || k / l >= 5 { 5 } else { k / l };
    proof {
        if l > 0 {
            vstd::arithmetic::div_mod::lemma_fundamental_div_mod(k as int, l as int);
            vstd::arithmetic::div_mod::lemma_mod_bound(k as int, l as int);
            vstd::arithmetic::mul::lemma_mul_is_commutative(l as int, (k / l) as int);
            vstd::arithmetic::mul::lemma_mul_inequality(seg as int, (k / l) as int, l as int);
        }
    }
    let off = k - seg * l;
    proof {
        assert(off <= l + n % 6 - 1) by {
            if seg == 5 {
                assert(k < 6 * l + n % 6);
            } else {
                assert(off == k % l) by {
                    assert(seg == k / l);
                }
                vstd::arithmetic::div_mod::lemma_mod_bound(k as int, l as int);
            }
        }
        assert(off * step <= (l + n % 6 - 1) * step) by (nonlinear_arith)
            requires
                off <= l + n % 6 - 1,
                step >= 0,
        ;
    }
    let v = (off * step) as u8;
    if seg == 0 {
        Color { r: 255, g: v, b: 0 }
    } else if seg == 1 {
        Color { r: 255 - v, g: 255, b: 0 }
    } else if seg == 2 {
        Color { r: 0, g: 255, b: v }
    } else if seg == 3 {
        Color { r: 0, g: 255 - v, b: 255 }
    } else if seg == 4 {
        Color { r: v, g: 0, b: 255 }
    } else {
        Color { r: 255, g: 0, b: 255 - v }
    }
}

/// The six-segment hue ramp for one frame, rotated so that it starts at
/// pixel `cursor`.
pub fn rainbow_frame(cursor: usize, num_leds: usize) -> (r: Vec<Color>)
    requires
        cursor < num_leds,
        ramp_fits(num_leds as int),
    ensures
        r@.len() == num_leds,
        forall|p: int|
            0 <= p < num_leds ==> #[trigger] r@[p] == ramp_color(
                ramp_pos(p, cursor as int, num_leds as int),
                num_leds as int,
            ),
{
    let mut out: Vec<Color> = Vec::with_capacity(num_leds);
    let mut p: usize = 0;
    while p < num_leds
        invariant
            cursor < num_leds,
            ramp_fits(num_leds as int),
            p <= num_leds,
            out@.len() == p,
            forall|q: int|
                0 <= q < p ==> #[trigger] out@[q] == ramp_color(
                    ramp_pos(q, cursor as int, num_leds as int),
                    num_leds as int,
                ),
        decreases num_leds - p,
    {
        let k = if p >= cursor { p - cursor } else { num_leds - (cursor - p) };
        out.push(ramp_color_exec(k, num_leds));
        p = p + 1;
    }
    out
}

} // verus!
