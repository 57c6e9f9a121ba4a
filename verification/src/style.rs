//! Cascaded style values, as resolved typed values supplied by the external
//! cascade engine.

use vstd::prelude::*;

verus! {

/// A colour with straight (non-premultiplied) channels.
#[derive(Clone, Copy, PartialEq, Eq, Structural, Debug)]
pub struct ColorRgba {
    pub red: u8,
    pub green: u8,
    pub blue: u8,
    pub alpha: u8,
}

/// A cascaded colour property: either an explicit colour or a reference to
/// the element's current foreground colour.
#[derive(Clone, Copy, PartialEq, Eq, Structural, Debug)]
pub enum CssColor {
    CurrentColor,
    Rgba(ColorRgba),
}

/// The cascaded values a flood primitive reads: the foreground colour, the
/// flood colour, and the flood opacity as an alpha value where 255 stands
/// for an opacity of 1.
#[derive(Clone, Copy, PartialEq, Eq, Structural, Debug)]
pub struct StyleValues {
    pub color: ColorRgba,
    pub flood_color: CssColor,
    pub flood_opacity: u8,
}

/// The flood paint: the explicit flood colour, or the foreground colour
/// when the flood colour refers to the current colour.
pub open spec fn resolved_flood_color(v: StyleValues) -> ColorRgba {
    match v.flood_color {
        CssColor::CurrentColor => v.color,
        CssColor::Rgba(c) => c,
    }
}

/// Resolves the flood paint from the cascaded values.
pub fn resolve_flood_color(v: &StyleValues) -> (c: ColorRgba)
    ensures
        c == resolved_flood_color(*v),
{
    match v.flood_color {
        CssColor::CurrentColor => v.color,
        CssColor::Rgba(c) => c,
    }
}

} // verus!
