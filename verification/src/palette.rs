//! Palettes: named partial value sets applied to the programmer by kind.

use vstd::prelude::*;

verus! {

/// Which programmer fields a palette may touch when applied.
#[derive(Clone, Copy, Debug, PartialEq, Eq)]
pub enum PaletteKind {
    Intensity,
    Color,
}

/// A partial assignment carried by a palette; unset fields are never
/// applied, so applying a palette cannot clear a programmer field.
#[derive(Clone, Copy, Debug, PartialEq, Eq)]
pub struct PaletteValues {
    pub intensity: Option<u8>,
    pub r: Option<u8>,
    pub g: Option<u8>,
    pub b: Option<u8>,
}

impl PaletteValues {
    /// The all-unset palette value set.
    pub fn unset() -> (v: Self)
        ensures
            v.intensity is None,
            v.r is None,
            v.g is None,
            v.b is None,
    {
        PaletteValues { intensity: None, r: None, g: None, b: None }
    }
}

impl Default for PaletteValues {
    fn default() -> (v: Self)
        ensures
            v.intensity is None,
            v.r is None,
            v.g is None,
            v.b is None,
    {
        PaletteValues { intensity: None, r: None, g: None, b: None }
    }
}

#[derive(Clone, Copy, Debug, PartialEq, Eq)]
pub struct Palette {
    pub kind: PaletteKind,
    pub values: PaletteValues,
}

impl Palette {
    pub fn new(kind: PaletteKind, values: PaletteValues) -> (p: Self)
        ensures
            p.kind == kind,
            p.values == values,
    {
        Palette { kind, values }
    }
}

} // verus!
