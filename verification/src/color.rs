//! RGBA tint colors.
//!
//! Channels are fixed-point scalars: `0` is black/transparent and `FX_ONE`
//! is full intensity. Setters that the authoring data drives clamp back
//! into `[0, FX_ONE]`; plain channel writes store the given value as is.

use vstd::prelude::*;
use crate::fixed::{FX_ONE, fx_in_range, fx_add, fx_add_spec, fx_mul, fx_mul_spec};

verus! {

/// A channel value clamped into the displayable range `[0, FX_ONE]`.
pub open spec fn clamp01(x: int) -> int {
    if x < 0 {
        0
    } else if x > FX_ONE as int {
        FX_ONE as int
    } else {
        x
    }
}

/// An RGBA color with fixed-point channels.
#[derive(Clone, Copy, Debug, PartialEq, Eq, Structural)]
pub struct Color {
    pub r: i64,
    pub g: i64,
    pub b: i64,
    pub a: i64,
}

/// All four channels lie in the storable scalar range.
pub open spec fn color_in_range(c: Color) -> bool {
    fx_in_range(c.r as int) && fx_in_range(c.g as int) && fx_in_range(c.b as int)
        && fx_in_range(c.a as int)
}

/// All four channels lie in the displayable range `[0, FX_ONE]`.
pub open spec fn color_clamped(c: Color) -> bool {
    0 <= c.r <= FX_ONE && 0 <= c.g <= FX_ONE && 0 <= c.b <= FX_ONE && 0 <= c.a <= FX_ONE
}

impl Color {
    /// A color from four channel values.
    pub fn new_rgba(r: i64, g: i64, b: i64, a: i64) -> (c: Color)
        ensures
            c == (Color { r, g, b, a }),
    {
        Color { r, g, b, a }
    }

    /// Overwrite the red channel.
    pub fn set_r(&mut self, r: i64)
        ensures
            *final(self) == (Color { r, ..*old(self) }),
    {
        self.r = r;
    }

    /// Overwrite the green channel.
    pub fn set_g(&mut self, g: i64)
        ensures
            *final(self) == (Color { g, ..*old(self) }),
    {
        self.g = g;
    }

    /// Overwrite the blue channel.
    pub fn set_b(&mut self, b: i64)
        ensures
            *final(self) == (Color { b, ..*old(self) }),
    {
        self.b = b;
    }

    /// Overwrite the alpha channel.
    pub fn set_a(&mut self, a: i64)
        ensures
            *final(self) == (Color { a, ..*old(self) }),
    {
        self.a = a;
    }

    /// Set all four channels, clamped into the displayable range.
    pub fn set_from_floats(&mut self, r: i64, g: i64, b: i64, a: i64)
        requires
            fx_in_range(r as int),
            fx_in_range(g as int),
            fx_in_range(b as int),
            fx_in_range(a as int),
        ensures
            *final(self) == (Color {
                r: clamp01(r as int) as i64,
                g: clamp01(g as int) as i64,
                b: clamp01(b as int) as i64,
                a: clamp01(a as int) as i64,
            }),
            color_clamped(*final(self)),
    {
        self.r = r;
        self.g = g;
        self.b = b;
        self.a = a;
        self.clamp();
    }

    /// Set the three color channels, clamped; alpha is kept.
    pub fn set_from_floats3(&mut self, r: i64, g: i64, b: i64)
        requires
            fx_in_range(r as int),
            fx_in_range(g as int),
            fx_in_range(b as int),
            fx_in_range(old(self).a as int),
        ensures
            *final(self) == (Color {
                r: clamp01(r as int) as i64,
                g: clamp01(g as int) as i64,
                b: clamp01(b as int) as i64,
                a: clamp01(old(self).a as int) as i64,
            }),
            color_clamped(*final(self)),
    {
        self.r = r;
        self.g = g;
        self.b = b;
        self.clamp();
    }

    /// Copy all four channels of another color.
    pub fn set_from_color(&mut self, other: &Color)
        ensures
            *final(self) == *other,
    {
        self.r = other.r;
        self.g = other.g;
        self.b = other.b;
        self.a = other.a;
    }

    /// Copy the three color channels of another color; alpha is kept.
    pub fn set_from_color3(&mut self, other: &Color)
        ensures
            *final(self) == (Color { a: old(self).a, ..*other }),
    {
        self.r = other.r;
        self.g = other.g;
        self.b = other.b;
    }

    /// Add to all four channels, clamped into the displayable range.
    pub fn add_floats(&mut self, r: i64, g: i64, b: i64, a: i64)
        requires
            color_in_range(*old(self)),
            fx_in_range(r as int),
            fx_in_range(g as int),
            fx_in_range(b as int),
            fx_in_range(a as int),
        ensures
            *final(self) == (Color {
                r: clamp01(fx_add_spec(old(self).r as int, r as int)) as i64,
                g: clamp01(fx_add_spec(old(self).g as int, g as int)) as i64,
                b: clamp01(fx_add_spec(old(self).b as int, b as int)) as i64,
                a: clamp01(fx_add_spec(old(self).a as int, a as int)) as i64,
            }),
            color_clamped(*final(self)),
    {
        self.r = fx_add(self.r, r);
        self.g = fx_add(self.g, g);
        self.b = fx_add(self.b, b);
        self.a = fx_add(self.a, a);
        self.clamp();
    }

    /// Add to the three color channels, clamped; alpha is clamped but not changed.
    pub fn add_floats3(&mut self, r: i64, g: i64, b: i64)
        requires
            color_in_range(*old(self)),
            fx_in_range(r as int),
            fx_in_range(g as int),
            fx_in_range(b as int),
        ensures
            *final(self) == (Color {
                r: clamp01(fx_add_spec(old(self).r as int, r as int)) as i64,
                g: clamp01(fx_add_spec(old(self).g as int, g as int)) as i64,
                b: clamp01(fx_add_spec(old(self).b as int, b as int)) as i64,
                a: clamp01(old(self).a as int) as i64,
            }),
            color_clamped(*final(self)),
    {
        self.r = fx_add(self.r, r);
        self.g = fx_add(self.g, g);
        self.b = fx_add(self.b, b);
        self.clamp();
    }

    /// Add another color channelwise, clamped into the displayable range.
    pub fn add_color(&mut self, other: &Color)
        requires
            color_in_range(*old(self)),
            color_in_range(*other),
        ensures
            *final(self) == (Color {
                r: clamp01(fx_add_spec(old(self).r as int, other.r as int)) as i64,
                g: clamp01(fx_add_spec(old(self).g as int, other.g as int)) as i64,
                b: clamp01(fx_add_spec(old(self).b as int, other.b as int)) as i64,
                a: clamp01(fx_add_spec(old(self).a as int, other.a as int)) as i64,
            }),
            color_clamped(*final(self)),
    {
        self.r = fx_add(self.r, other.r);
        self.g = fx_add(self.g, other.g);
        self.b = fx_add(self.b, other.b);
        self.a = fx_add(self.a, other.a);
        self.clamp();
    }

    /// Clamp every channel into the displayable range.
    pub fn clamp(&mut self)
        ensures
            *final(self) == (Color {
                r: clamp01(old(self).r as int) as i64,
                g: clamp01(old(self).g as int) as i64,
                b: clamp01(old(self).b as int) as i64,
                a: clamp01(old(self).a as int) as i64,
            }),
            color_clamped(*final(self)),
    {
        self.r = clamp_channel(self.r);
        self.g = clamp_channel(self.g);
        self.b = clamp_channel(self.b);
        self.a = clamp_channel(self.a);
    }

    /// Scale the color channels by the alpha channel.
    pub fn premultiply_alpha(&mut self)
        requires
            color_in_range(*old(self)),
        ensures
            *final(self) == (Color {
                r: fx_mul_spec(old(self).r as int, old(self).a as int) as i64,
                g: fx_mul_spec(old(self).g as int, old(self).a as int) as i64,
                b: fx_mul_spec(old(self).b as int, old(self).a as int) as i64,
                a: old(self).a,
            }),
            color_in_range(*final(self)),
    {
        self.r = fx_mul(self.r, self.a);
        self.g = fx_mul(self.g, self.a);
        self.b = fx_mul(self.b, self.a);
    }

    /// Channelwise product of two colors.
    pub fn mul(self, rhs: Color) -> (c: Color)
        requires
            color_in_range(self),
            color_in_range(rhs),
        ensures
            c == (Color {
                r: fx_mul_spec(self.r as int, rhs.r as int) as i64,
                g: fx_mul_spec(self.g as int, rhs.g as int) as i64,
                b: fx_mul_spec(self.b as int, rhs.b as int) as i64,
                a: fx_mul_spec(self.a as int, rhs.a as int) as i64,
            }),
            color_in_range(c),
    {
        Color {
            r: fx_mul(self.r, rhs.r),
            g: fx_mul(self.g, rhs.g),
            b: fx_mul(self.b, rhs.b),
            a: fx_mul(self.a, rhs.a),
        }
    }

    /// Multiply this color channelwise by another.
    pub fn mul_assign(&mut self, rhs: Color)
        requires
            color_in_range(*old(self)),
            color_in_range(rhs),
        ensures
            *final(self) == (Color {
                r: fx_mul_spec(old(self).r as int, rhs.r as int) as i64,
                g: fx_mul_spec(old(self).g as int, rhs.g as int) as i64,
                b: fx_mul_spec(old(self).b as int, rhs.b as int) as i64,
                a: fx_mul_spec(old(self).a as int, rhs.a as int) as i64,
            }),
            color_in_range(*final(self)),
    {
        self.r = fx_mul(self.r, rhs.r);
        self.g = fx_mul(self.g, rhs.g);
        self.b = fx_mul(self.b, rhs.b);
        self.a = fx_mul(self.a, rhs.a);
    }
}

impl Default for Color {
    /// The all-zero color: black, fully transparent.
    fn default() -> (c: Color)
        ensures
            c == (Color { r: 0, g: 0, b: 0, a: 0 }),
    {
        Color { r: 0, g: 0, b: 0, a: 0 }
    }
}

/// One channel clamped into `[0, FX_ONE]`.
fn clamp_channel(x: i64) -> (r: i64)
    ensures
        r as int == clamp01(x as int),
{
    if x < 0 {
        0
    } else if x > FX_ONE {
        FX_ONE
    } else {
        x
    }
}

} // verus!
