//! One tick of the strip: generate, override, scale, encode.
use vstd::prelude::*;
use crate::animation::{
    next_index, palette_frame, palette_pixel, rainbow_frame, ramp_color, ramp_fits, ramp_pos,
    AnimationCursor,
};
use crate::color::{black, scale_frame, scaled_frame, Color};
use crate::encoder::{frame_bytes, frame_stream, ChannelOrder};
use crate::region::{forward_btn_to_out, override_region, Region};

verus! {

/// How the base buffer of a frame is generated.
pub enum Animation {
    /// Pixel `i` shows `palette[(cursor + i) mod K]`.
    Palette(Vec<Color>),
    /// The six-segment hue ramp, starting at the cursor.
    Rainbow,
    /// Every pixel shows one color.
    Solid(Color),
}

/// What a region shows while its signal is asserted.
#[derive(Clone, Copy, Debug, PartialEq, Eq, Structural)]
pub enum OverridePolicy {
    Dark,
    Fill(Color),
}

pub open spec fn policy_color(p: OverridePolicy) -> Color {
    match p {
        OverridePolicy::Dark => black(),
        OverridePolicy::Fill(c) => c,
    }
}

/// Whether an input at `level` (true for high) is asserted.
pub open spec fn asserted(level: bool, active_low: bool) -> bool {
    level != active_low
}

/// Whether one of the first `k` regions is asserted and covers pixel `i`.
pub open spec fn hit_by_first(
    regions: Seq<Region>,
    levels: Seq<bool>,
    active_low: bool,
    k: int,
    i: int,
) -> bool {
    exists|j: int|
        0 <= j < k && asserted(levels[j], active_low) && #[trigger] regions[j].contains(i)
}

/// Whether some asserted region covers pixel `i`.
pub open spec fn region_hit(regions: Seq<Region>, levels: Seq<bool>, active_low: bool, i: int) -> bool {
    hit_by_first(regions, levels, active_low, regions.len() as int, i)
}

/// Configuration of one deployment.
pub struct FrameConfig {
    pub num_leds: usize,
    pub regions: Vec<Region>,
    pub animation: Animation,
    pub brightness: u8,
    pub order: ChannelOrder,
    pub policy: OverridePolicy,
    /// Inputs are asserted when low (pulled-up buttons) rather than high.
    pub active_low: bool,
}

pub open spec fn animation_valid(animation: Animation, n: int) -> bool {
    match animation {
        Animation::Palette(p) => p@.len() > 0,
        Animation::Rainbow => ramp_fits(n),
        Animation::Solid(_) => true,
    }
}

impl FrameConfig {
    pub open spec fn valid(&self) -> bool {
        &&& self.num_leds > 0
        &&& animation_valid(self.animation, self.num_leds as int)
        &&& forall|j: int|
            0 <= j < self.regions@.len() ==> (#[trigger] self.regions@[j]).fits(
                self.num_leds as int,
            )
    }
}

/// Pixel `i` of the base buffer at cursor `pos`.
pub open spec fn base_pixel(animation: Animation, pos: int, n: int, i: int) -> Color {
    match animation {
        Animation::Palette(p) => palette_pixel(p@, pos, i),
        Animation::Rainbow => ramp_color(ramp_pos(i, pos, n), n),
        Animation::Solid(c) => c,
    }
}

pub open spec fn base_pixels(animation: Animation, pos: int, n: int) -> Seq<Color> {
    Seq::new(n as nat, |i: int| base_pixel(animation, pos, n, i))
}

/// `frame` with each asserted region forced to `color`.
pub open spec fn with_overrides(
    frame: Seq<Color>,
    regions: Seq<Region>,
    levels: Seq<bool>,
    active_low: bool,
    color: Color,
) -> Seq<Color> {
    Seq::new(
        frame.len(),
        |i: int|
            if region_hit(regions, levels, active_low, i) {
                color
            } else {
                frame[i]
            },
    )
}

/// The buffer of a tick before scaling: the base buffer with overrides.
pub open spec fn composed_frame(cfg: FrameConfig, pos: int, levels: Seq<bool>) -> Seq<Color> {
    with_overrides(
        base_pixels(cfg.animation, pos, cfg.num_leds as int),
        cfg.regions@,
        levels,
        cfg.active_low,
        policy_color(cfg.policy),
    )
}

/// The base buffer for cursor position `cursor`.
pub fn base_frame(animation: &Animation, cursor: usize, num_leds: usize) -> (r: Vec<Color>)
    requires
        animation_valid(*animation, num_leds as int),
        cursor < num_leds,
    ensures
        r@ == base_pixels(*animation, cursor as int, num_leds as int),
{
    let r = match animation {
        Animation::Palette(p) => palette_frame(p, cursor, num_leds),
        Animation::Rainbow => rainbow_frame(cursor, num_leds),
        Animation::Solid(c) => {
            let mut out: Vec<Color> = Vec::with_capacity(num_leds);
            let mut i: usize = 0;
            while i < num_leds
                invariant
                    i <= num_leds,
                    out@.len() == i,
                    forall|j: int| 0 <= j < i ==> #[trigger] out@[j] == *c,
                decreases num_leds - i,
            {
                out.push(*c);
                i = i + 1;
            }
            out
        },
    };
    assert(r@ =~= base_pixels(*animation, cursor as int, num_leds as int));
    r
}

fn is_asserted(level: bool, active_low: bool) -> (r: bool)
    ensures
        r == asserted(level, active_low),
{
    level != active_low
}

/// Forces every region whose signal is asserted to `color`; pixels that no
/// asserted region covers keep what the animation wrote.
pub fn apply_overrides(
    data: &mut Vec<Color>,
    regions: &Vec<Region>,
    levels: &Vec<bool>,
    active_low: bool,
    color: Color,
)
    requires
        levels@.len() == regions@.len(),
        forall|j: int| 0 <= j < regions@.len() ==> (#[trigger] regions@[j]).fits(old(data)@.len() as int),
    ensures
        final(data)@ == with_overrides(old(data)@, regions@, levels@, active_low, color),
{
    let mut k: usize = 0;
    while k < regions.len()
        invariant
            k <= regions@.len(),
            levels@.len() == regions@.len(),
            data@.len() == old(data)@.len(),
            forall|j: int| 0 <= j < regions@.len() ==> (#[trigger] regions@[j]).fits(data@.len() as int),
            forall|i: int|
                0 <= i < data@.len() ==> #[trigger] data@[i] == if hit_by_first(
                    regions@,
                    levels@,
                    active_low,
                    k as int,
                    i,
                ) {
                    color
                } else {
                    old(data)@[i]
                },
        decreases regions@.len() - k,
    {
        let ghost before = data@;
        let region = regions[k];
        let active = is_asserted(levels[k], active_low);
        override_region(data, region, active, color);
        proof {
            assert forall|i: int| 0 <= i < data@.len() implies #[trigger] data@[i] == if hit_by_first(
                regions@,
                levels@,
                active_low,
                k + 1,
                i,
            ) {
                color
            } else {
                old(data)@[i]
            } by {
                if active && region.contains(i) {
                    assert(hit_by_first(regions@, levels@, active_low, k + 1, i));
                } else {
                    assert(data@[i] == before[i]);
                    if hit_by_first(regions@, levels@, active_low, k + 1, i) {
                        let j = choose|j: int|
                            0 <= j < k + 1 && asserted(levels@[j], active_low)
                                && #[trigger] regions@[j].contains(i);
                        assert(j != k);
                        assert(hit_by_first(regions@, levels@, active_low, k as int, i));
                    }
                }
            }
        }
        k = k + 1;
    }
    assert(data@ =~= with_overrides(old(data)@, regions@, levels@, active_low, color));
}

/// While a region's signal is asserted, every pixel of that region shows the
/// override color, whatever the animation produced there.
pub proof fn lemma_override_wins(cfg: FrameConfig, pos: int, levels: Seq<bool>, j: int, i: int)
    requires
        0 <= j < cfg.regions@.len(),
        0 <= i < cfg.num_leds,
        asserted(levels[j], cfg.active_low),
        cfg.regions@[j].contains(i),
    ensures
        composed_frame(cfg, pos, levels)[i] == policy_color(cfg.policy),
{
    assert(hit_by_first(cfg.regions@, levels, cfg.active_low, cfg.regions@.len() as int, i));
}

/// What one tick hands to the bus and to the mirror outputs.
pub struct TickOutput {
    /// The scaled buffer that was encoded.
    pub pixels: Vec<Color>,
    /// The bytes to write over SPI: pulse bytes, then the reset gap.
    pub stream: Vec<u8>,
    /// For each button, whether its mirror output is driven high.
    pub forwarded: Vec<bool>,
}

/// Mirrors each button onto its output: an output is high exactly while its
/// button reads high.
pub fn forward_buttons(button_levels: &Vec<bool>) -> (r: Vec<bool>)
    ensures
        r@ == button_levels@,
{
    let mut out: Vec<bool> = Vec::with_capacity(button_levels.len());
    let mut j: usize = 0;
    while j < button_levels.len()
        invariant
            j <= button_levels@.len(),
            out@ == button_levels@.take(j as int),
        decreases button_levels@.len() - j,
    {
        out.push(forward_btn_to_out(!button_levels[j]));
        proof {
            assert(button_levels@.take(j + 1) == button_levels@.take(j as int).push(
                button_levels@[j as int],
            ));
        }
        j = j + 1;
    }
    assert(button_levels@.take(button_levels@.len() as int) == button_levels@);
    out
}

/// Whether some input among `levels` is asserted. Checked once at start-up to
/// choose between the animation and the maze indicator.
pub fn any_asserted(levels: &Vec<bool>, active_low: bool) -> (r: bool)
    ensures
        r == exists|j: int| 0 <= j < levels@.len() && #[trigger] asserted(levels@[j], active_low),
{
    let mut j: usize = 0;
    while j < levels.len()
        invariant
            j <= levels@.len(),
            forall|q: int| 0 <= q < j ==> !#[trigger] asserted(levels@[q], active_low),
        decreases levels@.len() - j,
    {
        if is_asserted(levels[j], active_low) {
            return true;
        }
        j = j + 1;
    }
    false
}

/// The state that persists across ticks: the configuration and the cursor.
pub struct FrameLoop {
    config: FrameConfig,
    cursor: AnimationCursor,
}

impl FrameLoop {
    pub closed spec fn config_view(&self) -> FrameConfig {
        self.config
    }

    pub closed spec fn position(&self) -> int {
        self.cursor.position()
    }

    pub closed spec fn wf(&self) -> bool {
        &&& self.config.valid()
        &&& self.cursor.wf()
        &&& self.cursor.limit() == self.config.num_leds
    }

    /// A loop whose cursor starts at zero and wraps at the LED count.
    pub fn new(config: FrameConfig) -> (r: FrameLoop)
        requires
            config.valid(),
        ensures
            r.wf(),
            r.config_view() == config,
            r.position() == 0,
    {
        let cursor = AnimationCursor::new(config.num_leds);
        FrameLoop { config, cursor }
    }

    pub fn cursor(&self) -> (r: usize)
        ensures
            r == self.position(),
    {
        self.cursor.pos()
    }

    pub fn config(&self) -> (r: &FrameConfig)
        ensures
            *r == self.config_view(),
    {
        &self.config
    }

    /// One tick: generate the base buffer at the current cursor, force the
    /// asserted regions, scale by the brightness, encode, and mirror the
    /// buttons; then move the cursor one step.
    pub fn step(&mut self, region_levels: &Vec<bool>, button_levels: &Vec<bool>) -> (r: TickOutput)
        requires
            old(self).wf(),
            region_levels@.len() == old(self).config_view().regions@.len(),
        ensures
            final(self).wf(),
            final(self).config_view() == old(self).config_view(),
            final(self).position() == next_index(
                old(self).position(),
                old(self).config_view().num_leds as int,
            ),
            r.pixels@ == scaled_frame(
                composed_frame(old(self).config_view(), old(self).position(), region_levels@),
                old(self).config_view().brightness,
            ),
            r.stream@ == frame_bytes(r.pixels@, old(self).config_view().order),
            r.forwarded@ == button_levels@,
    {
        let pos = self.cursor.pos();
        let mut data = base_frame(&self.config.animation, pos, self.config.num_leds);
        let color = match self.config.policy {
            OverridePolicy::Dark => Color::off(),
            OverridePolicy::Fill(c) => c,
        };
        apply_overrides(&mut data, &self.config.regions, region_levels, self.config.active_low, color);
        let pixels = scale_frame(&data, self.config.brightness);
        let stream = frame_stream(&pixels, self.config.order);
        let forwarded = forward_buttons(button_levels);
        self.cursor.tick();
        TickOutput { pixels, stream, forwarded }
    }
}

} // verus!
