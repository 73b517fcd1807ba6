//! The colours of the screen.

use vstd::prelude::*;

verus! {

/// A colour by its red, green and blue parts.
#[derive(Clone, Copy, Debug, PartialEq, Eq, Structural)]
pub struct Rgb {
    pub r: u8,
    pub g: u8,
    pub b: u8,
}

/// The named colours.
#[derive(Clone, Copy, Debug, PartialEq, Eq, Structural)]
pub enum Tint {
    BgDeep,
    BgMid,
    GlassLow,
    GlassHigh,
    BorderSoft,
    YellowMain,
    YellowAmber,
    GrayDark,
    NeonPurple,
    NeonCyan,
    NeonPink,
    NeonGreen,
    NeonRed,
    TextPrimary,
    TextMuted,
}

/// A colour from its parts.
pub open spec fn rgb_of(r: u8, g: u8, b: u8) -> Rgb {
    Rgb { r, g, b }
}

fn rgb(r: u8, g: u8, b: u8) -> (colour: Rgb)
    ensures
        colour == rgb_of(r, g, b),
{
    Rgb { r, g, b }
}

/// The colour behind a name.
pub open spec fn colour_of(tint: Tint) -> Rgb {
    match tint {
        Tint::BgDeep => rgb_of(9, 12, 29),
        Tint::BgMid => rgb_of(20, 24, 48),
        Tint::GlassLow => rgb_of(17, 24, 48),
        Tint::GlassHigh => rgb_of(31, 42, 78),
        Tint::BorderSoft => rgb_of(108, 126, 190),
        Tint::YellowMain => rgb_of(255, 201, 92),
        Tint::YellowAmber => rgb_of(255, 143, 106),
        Tint::GrayDark => rgb_of(100, 116, 150),
        Tint::NeonPurple => rgb_of(167, 139, 250),
        Tint::NeonCyan => rgb_of(61, 214, 204),
        Tint::NeonPink => rgb_of(244, 114, 182),
        Tint::NeonGreen => rgb_of(52, 211, 153),
        Tint::NeonRed => rgb_of(251, 113, 133),
        Tint::TextPrimary => rgb_of(241, 245, 249),
        Tint::TextMuted => rgb_of(166, 178, 204),
    }
}

impl Tint {
    /// The colour behind the name.
    pub fn colour(self) -> (colour: Rgb)
        ensures
            colour == colour_of(self),
    {
        match self {
            Tint::BgDeep => rgb(9, 12, 29),
            Tint::BgMid => rgb(20, 24, 48),
            Tint::GlassLow => rgb(17, 24, 48),
            Tint::GlassHigh => rgb(31, 42, 78),
            Tint::BorderSoft => rgb(108, 126, 190),
            Tint::YellowMain => rgb(255, 201, 92),
            Tint::YellowAmber => rgb(255, 143, 106),
            Tint::GrayDark => rgb(100, 116, 150),
            Tint::NeonPurple => rgb(167, 139, 250),
            Tint::NeonCyan => rgb(61, 214, 204),
            Tint::NeonPink => rgb(244, 114, 182),
            Tint::NeonGreen => rgb(52, 211, 153),
            Tint::NeonRed => rgb(251, 113, 133),
            Tint::TextPrimary => rgb(241, 245, 249),
            Tint::TextMuted => rgb(166, 178, 204),
        }
    }
}

/// The colour of ordinary text.
pub fn primary_text(dark: bool) -> (colour: Rgb)
    ensures
        colour == if dark {
            rgb_of(226, 232, 240)
        } else {
            colour_of(Tint::TextPrimary)
        },
{
    if dark {
        rgb(226, 232, 240)
    } else {
        Tint::TextPrimary.colour()
    }
}

/// The colour of secondary text.
pub fn muted_text(dark: bool) -> (colour: Rgb)
    ensures
        colour == if dark {
            rgb_of(148, 163, 184)
        } else {
            colour_of(Tint::TextMuted)
        },
{
    if dark {
        rgb(148, 163, 184)
    } else {
        Tint::TextMuted.colour()
    }
}

/// What the background is painted with.
#[derive(Clone, Copy, Debug, PartialEq, Eq, Structural)]
pub struct Backdrop {
    /// The colour at the top of the gradient.
    pub top: Rgb,
    /// The colour at the bottom of the gradient.
    pub bottom: Rgb,
    /// The opacity of the purple glow.
    pub purple_alpha: u8,
    /// The opacity of the cyan glow.
    pub cyan_alpha: u8,
    /// The colour of the grid lines.
    pub grid: Rgb,
    /// The opacity of the grid lines.
    pub grid_alpha: u8,
}

/// What the dark and the light screen are painted with.
pub open spec fn backdrop_of(dark: bool) -> Backdrop {
    if dark {
        Backdrop {
            top: rgb_of(8, 10, 27),
            bottom: rgb_of(24, 18, 54),
            purple_alpha: 34,
            cyan_alpha: 28,
            grid: rgb_of(120, 130, 220),
            grid_alpha: 14,
        }
    } else {
        Backdrop {
            top: rgb_of(246, 247, 255),
            bottom: rgb_of(225, 235, 255),
            purple_alpha: 22,
            cyan_alpha: 20,
            grid: rgb_of(85, 105, 180),
            grid_alpha: 12,
        }
    }
}

/// The background of the dark and of the light screen.
pub fn backdrop(dark: bool) -> (backdrop: Backdrop)
    ensures
        backdrop.top == if dark {
            rgb_of(8, 10, 27)
        } else {
            rgb_of(246, 247, 255)
        },
        backdrop.bottom == if dark {
            rgb_of(24, 18, 54)
        } else {
            rgb_of(225, 235, 255)
        },
        backdrop.purple_alpha == if dark {
            34u8
        } else {
            22u8
        },
        backdrop.cyan_alpha == if dark {
            28u8
        } else {
            20u8
        },
        backdrop.grid == if dark {
            rgb_of(120, 130, 220)
        } else {
            rgb_of(85, 105, 180)
        },
        backdrop.grid_alpha == if dark {
            14u8
        } else {
            12u8
        },
        backdrop == backdrop_of(dark),
{
    if dark {
        Backdrop {
            top: rgb(8, 10, 27),
            bottom: rgb(24, 18, 54),
            purple_alpha: 34,
            cyan_alpha: 28,
            grid: rgb(120, 130, 220),
            grid_alpha: 14,
        }
    } else {
        Backdrop {
            top: rgb(246, 247, 255),
            bottom: rgb(225, 235, 255),
            purple_alpha: 22,
            cyan_alpha: 20,
            grid: rgb(85, 105, 180),
            grid_alpha: 12,
        }
    }
}

/// The parts of a colour of the dark gradient are below 64 and those of the light
/// one above 224, each getting nowhere near the other; the glows and the grid are
/// stronger on the dark screen.
pub proof fn law_dark_and_light_are_apart()
    ensures
        ({
            let (dark, light) = (backdrop_of(true), backdrop_of(false));
            &&& dark.top.r < 64 && dark.top.g < 64 && dark.top.b < 64
            &&& dark.bottom.r < 64 && dark.bottom.g < 64 && dark.bottom.b < 64
            &&& light.top.r > 224 && light.top.g > 224 && light.top.b > 224
            &&& light.bottom.r > 224 && light.bottom.g > 224 && light.bottom.b > 224
            &&& dark.purple_alpha > light.purple_alpha
            &&& dark.cyan_alpha > light.cyan_alpha
            &&& dark.grid_alpha > light.grid_alpha
        }),
{
}

} // verus!
