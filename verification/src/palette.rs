use vstd::prelude::*;

verus! {

/// A color as red, green and blue channels.
pub type Color = [u8; 3];

pub const PINK: Color = [255, 142, 173];

pub const RED: Color = [228, 67, 66];

pub const GREEN: Color = [125, 122, 25];

pub const WHITE: Color = [255, 255, 255];

pub const BLACK: Color = [0, 0, 0];

pub const YELLOW: Color = [255, 241, 118];

/// The shop's fixed palette.
#[derive(Clone, Copy, Debug, PartialEq, Eq, Structural)]
pub enum Palette {
    Pink,
    Red,
    Green,
    White,
    Black,
    Yellow,
}

/// The utility class of a palette entry.
pub open spec fn spec_tailwind_class(p: Palette) -> Seq<char> {
    match p {
        Palette::Pink => "kiggypink"@,
        Palette::Red => "kiggyred"@,
        Palette::Green => "kiggygreen"@,
        Palette::White => "white"@,
        Palette::Black => "black"@,
        Palette::Yellow => "yellow-300"@,
    }
}

/// The channels of a palette entry.
pub open spec fn spec_palette_color(p: Palette) -> Color {
    match p {
        Palette::Pink => PINK,
        Palette::Red => RED,
        Palette::Green => GREEN,
        Palette::White => WHITE,
        Palette::Black => BLACK,
        Palette::Yellow => YELLOW,
    }
}

impl Palette {
    /// The utility class the UI styles this palette entry with.
    pub fn tailwind_class(&self) -> (r: String)
        ensures
            r@ == spec_tailwind_class(*self),
    {
        let class = match self {
            Palette::Pink => "kiggypink",
            Palette::Red => "kiggyred",
            Palette::Green => "kiggygreen",
            Palette::White => "white",
            Palette::Black => "black",
            Palette::Yellow => "yellow-300",
        };
        class.to_owned()
    }

    /// The channels of this palette entry.
    pub fn to_color(&self) -> (r: Color)
        ensures
            r == spec_palette_color(*self),
    {
        match self {
            Palette::Pink => PINK,
            Palette::Red => RED,
            Palette::Green => GREEN,
            Palette::White => WHITE,
            Palette::Black => BLACK,
            Palette::Yellow => YELLOW,
        }
    }
}

} // verus!
