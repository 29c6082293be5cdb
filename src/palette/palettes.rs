//! The built-in palettes of the Nord color scheme.

use crate::palette::{rgb_of_hex, Palette, StaticPalette};
use vstd::prelude::*;

verus! {

/// The colors of Aurora as `0xRRGGBB`.
pub open spec fn aurora_hex() -> Seq<u32> {
    seq![0xBF616A, 0x08770, 0xBCB8B, 0x3BE8C, 0x48EAD]
}

/// The colors of Frost as `0xRRGGBB`.
pub open spec fn frost_hex() -> Seq<u32> {
    seq![0x8FBCBB, 0x88C0D0, 0x81A1C1, 0x5E81AC]
}

/// The colors of Polar Night as `0xRRGGBB`.
pub open spec fn polar_night_hex() -> Seq<u32> {
    seq![0x2E3440, 0x3B4252, 0x434C5E, 0x4C566A]
}

/// The colors of Snow Storm as `0xRRGGBB`.
pub open spec fn snow_storm_hex() -> Seq<u32> {
    seq![0xD8DEE9, 0xE5E9F0, 0xECEFF4]
}

/// The palette's colors are those of `hex`, in order.
pub open spec fn has_hex_colors<const N: usize>(p: StaticPalette<N>, hex: Seq<u32>) -> bool {
    &&& p.entries().len() == hex.len()
    &&& forall|i: int| 0 <= i < hex.len() ==> (#[trigger] p.entries()[i])@ == rgb_of_hex(hex[i])
}

/// The five colors of Aurora.
pub fn aurora() -> (p: StaticPalette<5>)
    ensures
        has_hex_colors(p, aurora_hex()),
{
    StaticPalette::from_rgb_hex([0xBF616A, 0x08770, 0xBCB8B, 0x3BE8C, 0x48EAD])
}

/// The four colors of Frost.
pub fn frost() -> (p: StaticPalette<4>)
    ensures
        has_hex_colors(p, frost_hex()),
{
    StaticPalette::from_rgb_hex([0x8FBCBB, 0x88C0D0, 0x81A1C1, 0x5E81AC])
}

/// The four colors of Polar Night.
pub fn polar_night() -> (p: StaticPalette<4>)
    ensures
        has_hex_colors(p, polar_night_hex()),
{
    StaticPalette::from_rgb_hex([0x2E3440, 0x3B4252, 0x434C5E, 0x4C566A])
}

/// The three colors of Snow Storm.
pub fn snow_storm() -> (p: StaticPalette<3>)
    ensures
        has_hex_colors(p, snow_storm_hex()),
{
    StaticPalette::from_rgb_hex([0xD8DEE9, 0xE5E9F0, 0xECEFF4])
}

/// The sixteen colors of Nord: Aurora, Frost, Polar Night and Snow Storm, in
/// that order.
pub fn nord() -> (p: StaticPalette<16>)
    ensures
        has_hex_colors(p, aurora_hex() + frost_hex() + polar_night_hex() + snow_storm_hex()),
{
    let a = aurora();
    let f = frost();
    let pn = polar_night();
    let s = snow_storm();
    let p = StaticPalette::from_colors(
        [
            a.colors[0],
            a.colors[1],
            a.colors[2],
            a.colors[3],
            a.colors[4],
            f.colors[0],
            f.colors[1],
            f.colors[2],
            f.colors[3],
            pn.colors[0],
            pn.colors[1],
            pn.colors[2],
            pn.colors[3],
            s.colors[0],
            s.colors[1],
            s.colors[2],
        ],
    );
    let ghost hex = aurora_hex() + frost_hex() + polar_night_hex() + snow_storm_hex();
    assert(p.entries() =~= a.entries() + f.entries() + pn.entries() + s.entries());
    assert forall|i: int| 0 <= i < hex.len() implies (#[trigger] p.entries()[i])@ == rgb_of_hex(
        hex[i],
    ) by {
        if i < 5 {
            assert(a.entries()[i]@ == rgb_of_hex(aurora_hex()[i]));
        } else if i < 9 {
            assert(f.entries()[i - 5]@ == rgb_of_hex(frost_hex()[i - 5]));
        } else if i < 13 {
            assert(pn.entries()[i - 9]@ == rgb_of_hex(polar_night_hex()[i - 9]));
        } else {
            assert(s.entries()[i - 13]@ == rgb_of_hex(snow_storm_hex()[i - 13]));
        }
    }
    p
}

} // verus!
