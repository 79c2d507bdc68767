//! How the light that reaches a point adds up to the colour of a pixel.

use crate::color::Color;
use vstd::prelude::*;

verus! {

/// How the normal at a hit is chosen.
#[derive(Clone, Copy, Debug, PartialEq, Eq, Structural)]
pub enum Shading {
    Flat,
    Gourand,
    Phong,
}

/// What the channels of a list of colours add up to, each channel by itself.
pub struct Sums {
    pub r: nat,
    pub g: nat,
    pub b: nat,
}

/// What the channels of the colours `parts` add up to.
pub open spec fn total(parts: Seq<Color>) -> Sums
    decreases parts.len(),
{
    if parts.len() == 0 {
        Sums { r: 0, g: 0, b: 0 }
    } else {
        let rest = total(parts.drop_last());
        let last = parts.last();
        Sums {
            r: rest.r + last.r as nat,
            g: rest.g + last.g as nat,
            b: rest.b + last.b as nat,
        }
    }
}

/// The value of a channel that receives the light `n`: the light itself up to
/// the largest value of a channel, and that value for any more light.
pub open spec fn exposed(n: nat) -> u8 {
    if n > u8::MAX {
        u8::MAX
    } else {
        n as u8
    }
}

/// The colour of a pixel that the colours `parts` fall on.
pub open spec fn mixed(parts: Seq<Color>) -> Color {
    Color { r: exposed(total(parts).r), g: exposed(total(parts).g), b: exposed(total(parts).b) }
}

/// Adds up the contributions to one pixel. No channel wraps around: a channel
/// that receives more than it can show stays at its largest value.
pub fn mix(parts: &Vec<Color>) -> (color: Color)
    ensures
        color == mixed(parts@),
{
    let mut color = Color { r: 0, g: 0, b: 0 };
    let mut i: usize = 0;
    while i < parts.len()
        invariant
            i <= parts.len(),
            color == mixed(parts@.take(i as int)),
        decreases parts.len() - i,
    {
        proof {
            let upto = parts@.take(i + 1);
            assert(upto.drop_last() =~= parts@.take(i as int));
            assert(upto.last() == parts[i as int]);
        }
        color = color + parts[i];
        i += 1;
    }
    assert(parts@.take(i as int) =~= parts@);
    color
}

} // verus!
