//! The colours of pixels and of lights.

use vstd::prelude::*;

verus! {

/// An RGB colour with one byte per channel.
#[derive(Clone, Copy, Debug, PartialEq, Eq, Structural)]
pub struct Color {
    pub r: u8,
    pub g: u8,
    pub b: u8,
}

/// The sum of two channel values, held at the largest value a channel can take.
pub open spec fn channel_sum(a: u8, b: u8) -> u8 {
    if a + b > u8::MAX {
        u8::MAX
    } else {
        (a + b) as u8
    }
}

/// Adds two channel values without wrapping around.
fn add_channel(a: u8, b: u8) -> (sum: u8)
    ensures
        sum == channel_sum(a, b),
{
    if a > u8::MAX - b {
        u8::MAX
    } else {
        a + b
    }
}

impl Color {
    /// The colour of a pixel that nothing was drawn on.
    pub open spec fn black() -> Color {
        Color { r: 0, g: 0, b: 0 }
    }

    /// The colour that mixing `self` and `rhs` gives: each channel is the sum of
    /// the two, and a sum past the largest channel value stays at that value.
    pub open spec fn plus(self, rhs: Color) -> Color {
        Color {
            r: channel_sum(self.r, rhs.r),
            g: channel_sum(self.g, rhs.g),
            b: channel_sum(self.b, rhs.b),
        }
    }
}

impl vstd::std_specs::ops::AddSpecImpl for Color {
    open spec fn obeys_add_spec() -> bool {
        true
    }

    open spec fn add_req(self, rhs: Color) -> bool {
        true
    }

    open spec fn add_spec(self, rhs: Color) -> Color {
        self.plus(rhs)
    }
}

impl std::ops::Add for Color {
    type Output = Color;

    /// Mixes two colours channel by channel; no channel wraps around.
    fn add(self, rhs: Color) -> (sum: Color) {
        Color {
            r: add_channel(self.r, rhs.r),
            g: add_channel(self.g, rhs.g),
            b: add_channel(self.b, rhs.b),
        }
    }
}

} // verus!
