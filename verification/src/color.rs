//! Colors of terminal cells.

use vstd::prelude::*;

verus! {

/// An RGB triple. Two colors are equal exactly when their three bytes are.
#[derive(Debug, Clone, Copy, PartialEq, Eq, Structural)]
pub struct Color {
    pub r: u8,
    pub g: u8,
    pub b: u8,
}

impl Color {
    /// Builds a color from its three channels.
    #[verifier::allow_in_spec]
    pub fn from_rgb(r: u8, g: u8, b: u8) -> Color
        returns
            (Color { r, g, b }),
    {
        Color { r, g, b }
    }

    #[verifier::allow_in_spec]
    pub fn black() -> Color
        returns
            Color::from_rgb(0, 0, 0),
    {
        Color::from_rgb(0, 0, 0)
    }

    #[verifier::allow_in_spec]
    pub fn dark_gray() -> Color
        returns
            Color::from_rgb(96, 96, 96),
    {
        Color::from_rgb(96, 96, 96)
    }

    #[verifier::allow_in_spec]
    pub fn gray() -> Color
        returns
            Color::from_rgb(160, 160, 160),
    {
        Color::from_rgb(160, 160, 160)
    }

    #[verifier::allow_in_spec]
    pub fn light_gray() -> Color
        returns
            Color::from_rgb(220, 220, 220),
    {
        Color::from_rgb(220, 220, 220)
    }

    #[verifier::allow_in_spec]
    pub fn white() -> Color
        returns
            Color::from_rgb(255, 255, 255),
    {
        Color::from_rgb(255, 255, 255)
    }

    #[verifier::allow_in_spec]
    pub fn magenta() -> Color
        returns
            Color::from_rgb(170, 0, 170),
    {
        Color::from_rgb(170, 0, 170)
    }

    #[verifier::allow_in_spec]
    pub fn cyan() -> Color
        returns
            Color::from_rgb(0, 170, 170),
    {
        Color::from_rgb(0, 170, 170)
    }

    #[verifier::allow_in_spec]
    pub fn brown() -> Color
        returns
            Color::from_rgb(165, 42, 42),
    {
        Color::from_rgb(165, 42, 42)
    }

    #[verifier::allow_in_spec]
    pub fn dark_red() -> Color
        returns
            Color::from_rgb(139, 0, 0),
    {
        Color::from_rgb(139, 0, 0)
    }

    #[verifier::allow_in_spec]
    pub fn red() -> Color
        returns
            Color::from_rgb(255, 0, 0),
    {
        Color::from_rgb(255, 0, 0)
    }

    #[verifier::allow_in_spec]
    pub fn light_red() -> Color
        returns
            Color::from_rgb(255, 128, 128),
    {
        Color::from_rgb(255, 128, 128)
    }

    #[verifier::allow_in_spec]
    pub fn yellow() -> Color
        returns
            Color::from_rgb(255, 255, 0),
    {
        Color::from_rgb(255, 255, 0)
    }

    #[verifier::allow_in_spec]
    pub fn light_yellow() -> Color
        returns
            Color::from_rgb(255, 255, 224),
    {
        Color::from_rgb(255, 255, 224)
    }

    #[verifier::allow_in_spec]
    pub fn khaki() -> Color
        returns
            Color::from_rgb(240, 230, 140),
    {
        Color::from_rgb(240, 230, 140)
    }

    #[verifier::allow_in_spec]
    pub fn dark_green() -> Color
        returns
            Color::from_rgb(0, 100, 0),
    {
        Color::from_rgb(0, 100, 0)
    }

    #[verifier::allow_in_spec]
    pub fn green() -> Color
        returns
            Color::from_rgb(0, 255, 0),
    {
        Color::from_rgb(0, 255, 0)
    }

    #[verifier::allow_in_spec]
    pub fn light_green() -> Color
        returns
            Color::from_rgb(144, 238, 144),
    {
        Color::from_rgb(144, 238, 144)
    }

    #[verifier::allow_in_spec]
    pub fn dark_blue() -> Color
        returns
            Color::from_rgb(0, 0, 139),
    {
        Color::from_rgb(0, 0, 139)
    }

    #[verifier::allow_in_spec]
    pub fn blue() -> Color
        returns
            Color::from_rgb(0, 0, 255),
    {
        Color::from_rgb(0, 0, 255)
    }

    #[verifier::allow_in_spec]
    pub fn light_blue() -> Color
        returns
            Color::from_rgb(173, 216, 230),
    {
        Color::from_rgb(173, 216, 230)
    }
}

impl Default for Color {
    fn default() -> (c: Color)
        ensures
            c == Color::black(),
    {
        Color::black()
    }
}

} // verus!
