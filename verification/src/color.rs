use vstd::prelude::*;

verus! {

/// An RGB triple with 8-bit channels. Colors are plain values: they are
/// built, copied and compared, never edited in place.
#[derive(Clone, Copy, Debug, PartialEq, Eq, Structural)]
pub struct Color {
    pub red: u8,
    pub green: u8,
    pub blue: u8,
}

impl Color {
    /// Builds the color with the given channels.
    pub fn new(red: u8, green: u8, blue: u8) -> (c: Color)
        ensures
            c == (Color { red, green, blue }),
    {
        Color { red, green, blue }
    }
}

/// The named colors of the palette.
#[derive(Clone, Copy, Debug, PartialEq, Eq, Structural)]
pub enum Palette {
    Black,
    White,
    Red,
    Green,
    Blue,
    Teal,
    Purple,
    Yellow,
    PastelYellow,
}

impl Palette {
    /// The RGB triple that a palette name stands for.
    pub open spec fn rgb_spec(self) -> Color {
        match self {
            Palette::Black => Color { red: 0, green: 0, blue: 0 },
            Palette::White => Color { red: 255, green: 255, blue: 255 },
            Palette::Red => Color { red: 255, green: 0, blue: 0 },
            Palette::Green => Color { red: 0, green: 255, blue: 0 },
            Palette::Blue => Color { red: 0, green: 0, blue: 255 },
            Palette::Teal => Color { red: 0, green: 255, blue: 255 },
            Palette::Purple => Color { red: 255, green: 0, blue: 255 },
            Palette::Yellow => Color { red: 255, green: 255, blue: 0 },
            Palette::PastelYellow => Color { red: 239, green: 169, blue: 74 },
        }
    }

    /// Looks a palette name up in the constant table.
    pub fn rgb(self) -> (c: Color)
        ensures
            c == self.rgb_spec(),
    {
        match self {
            Palette::Black => Color { red: 0, green: 0, blue: 0 },
            Palette::White => Color { red: 255, green: 255, blue: 255 },
            Palette::Red => Color { red: 255, green: 0, blue: 0 },
            Palette::Green => Color { red: 0, green: 255, blue: 0 },
            Palette::Blue => Color { red: 0, green: 0, blue: 255 },
            Palette::Teal => Color { red: 0, green: 255, blue: 255 },
            Palette::Purple => Color { red: 255, green: 0, blue: 255 },
            Palette::Yellow => Color { red: 255, green: 255, blue: 0 },
            Palette::PastelYellow => Color { red: 239, green: 169, blue: 74 },
        }
    }
}

} // verus!
