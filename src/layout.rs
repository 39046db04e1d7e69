//! The maze terminal: 87 pixels round a housing, one region per side with
//! gaps at the corners.
use vstd::prelude::*;
use crate::animation::{ramp_fits, ramp_step, segment_len};
use crate::color::Color;
use crate::encoder::ChannelOrder;
use crate::frame_loop::{Animation, FrameConfig, OverridePolicy};
use crate::region::Region;

verus! {

pub const NUM_LEDS: usize = 87;

/// Brightness factor of both modes.
pub const BRIGHTNESS: u8 = 25;

/// Delay between two ticks, in milliseconds.
pub const TICK_MS: u32 = 10;

/// The regions of the north, east, south and west sides, in that order.
pub open spec fn terminal_regions_spec() -> Seq<Region> {
    seq![
        Region { start: 0, end: 18 },
        Region { start: 69, end: 87 },
        Region { start: 46, end: 64 },
        Region { start: 23, end: 41 },
    ]
}

pub fn terminal_regions() -> (r: Vec<Region>)
    ensures
        r@ == terminal_regions_spec(),
{
    let r = vec![Region::new(0, 18), Region::new(69, 87), Region::new(46, 64), Region::new(23, 41)];
    assert(r@ =~= terminal_regions_spec());
    r
}

/// The animation mode: a rotating hue ramp; a side goes dark while its
/// pulled-up input reads low.
pub fn terminal_config() -> (r: FrameConfig)
    ensures
        r.valid(),
        r.num_leds == NUM_LEDS,
        r.regions@ == terminal_regions_spec(),
        r.animation is Rainbow,
        r.brightness == BRIGHTNESS,
        r.order == ChannelOrder::Grb,
        r.policy == OverridePolicy::Dark,
        r.active_low,
{
    assert(ramp_fits(NUM_LEDS as int)) by {
        assert(255int / 87 == 2);
        assert(87int / 6 == 14);
        assert(87int % 6 == 3);
        assert(ramp_step(87) == 12);
        assert(segment_len(87) == 14);
    }
    FrameConfig {
        num_leds: NUM_LEDS,
        regions: terminal_regions(),
        animation: Animation::Rainbow,
        brightness: BRIGHTNESS,
        order: ChannelOrder::Grb,
        policy: OverridePolicy::Dark,
        active_low: true,
    }
}

/// The maze indicator mode: the whole strip blue; a side goes dark while its
/// button is pressed.
pub fn maze_config() -> (r: FrameConfig)
    ensures
        r.valid(),
        r.num_leds == NUM_LEDS,
        r.regions@ == terminal_regions_spec(),
        r.animation == Animation::Solid(Color { r: 0, g: 0, b: 255 }),
        r.brightness == BRIGHTNESS,
        r.order == ChannelOrder::Grb,
        r.policy == OverridePolicy::Dark,
        r.active_low,
{
    FrameConfig {
        num_leds: NUM_LEDS,
        regions: terminal_regions(),
        animation: Animation::Solid(Color::new(0, 0, 255)),
        brightness: BRIGHTNESS,
        order: ChannelOrder::Grb,
        policy: OverridePolicy::Dark,
        active_low: true,
    }
}

} // verus!
