//! RGB colors in the fixed-point format; one unit is full intensity.
use vstd::prelude::*;
use crate::fixed::{add_spec, fx_add, fx_mul, in_range, mul_spec, SCALE};

verus! {

#[derive(Clone, Copy, Debug, PartialEq, Eq, Structural)]
pub struct Color {
    pub r: i128,
    pub g: i128,
    pub b: i128,
}

pub open spec fn rgb_spec(r: int, g: int, b: int) -> Color {
    Color { r: r as i128, g: g as i128, b: b as i128 }
}

pub open spec fn white_spec() -> Color {
    Color { r: SCALE, g: SCALE, b: SCALE }
}

pub open spec fn black_spec() -> Color {
    Color { r: 0, g: 0, b: 0 }
}

/// Componentwise product, used to attenuate one color by another.
pub open spec fn attenuate_spec(a: Color, b: Color) -> Color {
    rgb_spec(mul_spec(a.r as int, b.r as int), mul_spec(a.g as int, b.g as int), mul_spec(a.b as int, b.b as int))
}

pub open spec fn cadd_spec(a: Color, b: Color) -> Color {
    rgb_spec(add_spec(a.r as int, b.r as int), add_spec(a.g as int, b.g as int), add_spec(a.b as int, b.b as int))
}

pub open spec fn cscale_spec(a: Color, s: int) -> Color {
    rgb_spec(mul_spec(a.r as int, s), mul_spec(a.g as int, s), mul_spec(a.b as int, s))
}

impl Color {
    pub open spec fn wf(self) -> bool {
        in_range(self.r as int) && in_range(self.g as int) && in_range(self.b as int)
    }

    pub fn new(r: i128, g: i128, b: i128) -> (c: Color)
        ensures
            c == (Color { r, g, b }),
    {
        Color { r, g, b }
    }

    pub fn white() -> (c: Color)
        ensures
            c == white_spec(),
            c.wf(),
    {
        Color { r: SCALE, g: SCALE, b: SCALE }
    }

    pub fn black() -> (c: Color)
        ensures
            c == black_spec(),
            c.wf(),
    {
        Color { r: 0, g: 0, b: 0 }
    }

    /// The grey of intensity `v` on every channel.
    pub fn grey(v: i128) -> (c: Color)
        ensures
            c == (Color { r: v, g: v, b: v }),
    {
        Color { r: v, g: v, b: v }
    }

    pub fn attenuate(&self, o: &Color) -> (c: Color)
        requires
            self.wf(),
            o.wf(),
        ensures
            c == attenuate_spec(*self, *o),
            c.wf(),
    {
        Color { r: fx_mul(self.r, o.r), g: fx_mul(self.g, o.g), b: fx_mul(self.b, o.b) }
    }

    pub fn plus(&self, o: &Color) -> (c: Color)
        requires
            self.wf(),
            o.wf(),
        ensures
            c == cadd_spec(*self, *o),
            c.wf(),
    {
        Color { r: fx_add(self.r, o.r), g: fx_add(self.g, o.g), b: fx_add(self.b, o.b) }
    }

    pub fn scaled(&self, s: i128) -> (c: Color)
        requires
            self.wf(),
            in_range(s as int),
        ensures
            c == cscale_spec(*self, s as int),
            c.wf(),
    {
        Color { r: fx_mul(self.r, s), g: fx_mul(self.g, s), b: fx_mul(self.b, s) }
    }
}

} // verus!
