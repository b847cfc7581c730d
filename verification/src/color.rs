//! The closed set of colorizing functions, selected by name.
//!
//! Each variant maps a curve rank and the pixel count to one RGBA color.
//! The color math itself works in floating point and perceptual color
//! spaces, so it lives with the unverified rendering shell; the verified
//! core owns the set of variants and the name resolution, which is where a
//! misspelled name must be caught before any output is touched.

use vstd::prelude::*;

verus! {

use crate::text::str_eq;

/// A colorizing function: a pure map from a rank in `[0, total)` and the
/// cycle length `total` to an RGBA color with 8-bit channels.
#[derive(Clone, Copy, Debug, PartialEq, Eq, Structural)]
pub enum ColorFunction {
    /// Linear sweep of the perceptual hue circle at full saturation.
    OklabHue,
    /// Hue sweep with a sinusoidally pulsing value, eight cycles per sweep.
    OklabHueSineValue,
    /// Grayscale: a parabolic value pulse repeated twice per sweep.
    SquareValue,
    /// Parabolic pulses on the three linear RGB channels, phased thirds apart.
    SquareLinsrgbChannels,
}

impl ColorFunction {
    /// Resolves a colorizing function from its name; an unknown name
    /// resolves to nothing, which callers must treat as a fatal
    /// configuration error before touching any output.
    pub fn from_name(name: &str) -> (r: Option<ColorFunction>)
        ensures
            r == Some(ColorFunction::OklabHue) <==> name@ == "oklab_hue"@,
            r == Some(ColorFunction::OklabHueSineValue) <==> name@ == "oklab_hue_sine_value"@,
            r == Some(ColorFunction::SquareValue) <==> name@ == "square_value"@,
            r == Some(ColorFunction::SquareLinsrgbChannels) <==> name@
                == "square_linsrgb_channels"@,
            r is None <==> (name@ != "oklab_hue"@ && name@ != "oklab_hue_sine_value"@ && name@
                != "square_value"@ && name@ != "square_linsrgb_channels"@),
    {
        proof {
            reveal_strlit("oklab_hue");
            reveal_strlit("oklab_hue_sine_value");
            reveal_strlit("square_value");
            reveal_strlit("square_linsrgb_channels");
            assert("oklab_hue"@.len() == 9);
            assert("oklab_hue_sine_value"@.len() == 20);
            assert("square_value"@.len() == 12);
            assert("square_linsrgb_channels"@.len() == 23);
        }
        if str_eq(name, "oklab_hue") {
            Some(ColorFunction::OklabHue)
        } else if str_eq(name, "oklab_hue_sine_value") {
            Some(ColorFunction::OklabHueSineValue)
        } else if str_eq(name, "square_value") {
            Some(ColorFunction::SquareValue)
        } else if str_eq(name, "square_linsrgb_channels") {
            Some(ColorFunction::SquareLinsrgbChannels)
        } else {
            None
        }
    }
}

} // verus!
