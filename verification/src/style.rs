//! Colours of the terminal.

use vstd::prelude::*;

verus! {

/// A foreground colour.
#[derive(Debug, Clone, Copy, PartialEq, Eq, Structural)]
pub enum Hue {
    Blue,
    Cyan,
    DarkGray,
    Green,
    LightGray,
    Magenta,
    Red,
    White,
    Yellow,
}

/// How a piece of text looks. Without a hue it keeps the terminal's colour.
#[derive(Debug, Clone, Copy, PartialEq, Eq, Structural)]
pub struct TextStyle {
    pub hue: Option<Hue>,
    pub bold: bool,
}

/// The terminal's own look.
pub open spec fn plain() -> TextStyle {
    TextStyle { hue: None, bold: false }
}

/// A colour, not bold.
pub open spec fn coloured(hue: Hue) -> TextStyle {
    TextStyle { hue: Some(hue), bold: false }
}

/// A colour, in bold.
pub open spec fn bold(hue: Hue) -> TextStyle {
    TextStyle { hue: Some(hue), bold: true }
}

/// A piece of text to print, in a colour or in the terminal's own.
#[derive(Debug, Clone, PartialEq, Eq)]
pub struct Piece {
    pub hue: Option<Hue>,
    pub text: String,
}

impl View for Piece {
    type V = (Option<Hue>, Seq<char>);

    open spec fn view(&self) -> (Option<Hue>, Seq<char>) {
        (self.hue, self.text@)
    }
}

impl Piece {
    /// Text in the terminal's own colour.
    pub fn plain(text: &str) -> (r: Piece)
        ensures
            r@ == (None::<Hue>, text@),
    {
        Piece { hue: None, text: text.to_owned() }
    }

    /// Text in a colour.
    pub fn coloured(hue: Hue, text: &str) -> (r: Piece)
        ensures
            r@ == (Some(hue), text@),
    {
        Piece { hue: Some(hue), text: text.to_owned() }
    }
}

/// The views of a sequence of pieces.
pub open spec fn pieces(v: Seq<Piece>) -> Seq<(Option<Hue>, Seq<char>)> {
    Seq::new(v.len(), |i: int| v[i]@)
}

} // verus!
