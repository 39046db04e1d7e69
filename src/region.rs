//! Regions of the strip that follow the directional inputs.
use vstd::prelude::*;
use crate::color::{black, Color};

verus! {

/// A half-open index range `[start, end)` of the strip.
#[derive(Clone, Copy, Debug, PartialEq, Eq, Structural)]
pub struct Region {
    pub start: usize,
    pub end: usize,
}

impl Region {
    pub open spec fn contains(self, i: int) -> bool {
        self.start <= i < self.end
    }

    /// Whether every index the region covers lies in a buffer of `len` pixels.
    pub open spec fn fits(self, len: int) -> bool {
        self.start < self.end ==> self.end <= len
    }

    pub open spec fn disjoint(self, other: Region) -> bool {
        forall|i: int| !(#[trigger] self.contains(i) && other.contains(i))
    }

    pub fn new(start: usize, end: usize) -> (r: Region)
        ensures
            r.start == start,
            r.end == end,
    {
        Region { start, end }
    }
}

/// `frame` with every pixel of `region` set to `color` when `active` holds.
pub open spec fn overridden(frame: Seq<Color>, region: Region, active: bool, color: Color) -> Seq<
    Color,
> {
    Seq::new(
        frame.len(),
        |i: int|
            if active && region.contains(i) {
                color
            } else {
                frame[i]
            },
    )
}

/// Sets every pixel of `region` to `color` when `active` holds; leaves the
/// buffer unchanged otherwise.
pub fn override_region(data: &mut Vec<Color>, region: Region, active: bool, color: Color)
    requires
        region.fits(old(data)@.len() as int),
    ensures
        final(data)@ == overridden(old(data)@, region, active, color),
{
    if active {
        let mut i: usize = region.start;
        while i < region.end
            invariant
                region.fits(data@.len() as int),
                region.start <= i,
                i <= region.end || i == region.start,
                data@.len() == old(data)@.len(),
                forall|j: int|
                    0 <= j < data@.len() ==> #[trigger] data@[j] == if region.start <= j < i {
                        color
                    } else {
                        old(data)@[j]
                    },
            decreases region.end - i,
        {
            assert(i < data@.len());
            data.set(i, color);
            i = i + 1;
        }
    }
    assert(data@ =~= overridden(old(data)@, region, active, color));
}

/// Darkens `region` while its input reads low.
pub fn dark_pixel_if_low(data: &mut Vec<Color>, input_is_low: bool, region: Region)
    requires
        region.fits(old(data)@.len() as int),
    ensures
        final(data)@ == overridden(old(data)@, region, input_is_low, black()),
{
    override_region(data, region, input_is_low, Color::off());
}

/// The level to drive on the output that mirrors a button: low while the
/// button reads low, high otherwise. Returns whether the output is high.
pub fn forward_btn_to_out(btn_is_low: bool) -> (out_is_high: bool)
    ensures
        out_is_high == !btn_is_low,
{
    if btn_is_low {
        false
    } else {
        true
    }
}

/// Overrides of disjoint regions commute: applying them in either order
/// gives the same buffer.
pub proof fn lemma_overrides_commute(
    frame: Seq<Color>,
    r1: Region,
    a1: bool,
    c1: Color,
    r2: Region,
    a2: bool,
    c2: Color,
)
    requires
        r1.disjoint(r2),
    ensures
        overridden(overridden(frame, r1, a1, c1), r2, a2, c2) == overridden(
            overridden(frame, r2, a2, c2),
            r1,
            a1,
            c1,
        ),
{
    let x = overridden(overridden(frame, r1, a1, c1), r2, a2, c2);
    let y = overridden(overridden(frame, r2, a2, c2), r1, a1, c1);
    assert forall|i: int| 0 <= i < x.len() implies x[i] == y[i] by {
        assert(!(r1.contains(i) && r2.contains(i)));
    }
    assert(x =~= y);
}

} // verus!
