use vstd::prelude::*;
use crate::color::{foreground, tile_image, Color};

verus! {

/// A glyph as it is written to the terminal.
pub struct Tile {
    glyph: char,
    image: String,
}

impl View for Tile {
    type V = Seq<char>;

    /// The characters written for this tile.
    closed spec fn view(&self) -> Seq<char> {
        self.image@
    }
}

impl Tile {
    /// The glyph itself, without its colour.
    pub closed spec fn symbol(&self) -> char {
        self.glyph
    }

    /// The glyph `tile` in `color`.
    pub fn new(tile: char, color: Color) -> (t: Tile)
        ensures
            t@ == tile_image(tile, color),
            t.symbol() == tile,
    {
        let mut image = foreground(color);
        image.push(tile);
        Tile { glyph: tile, image }
    }

    /// The glyph itself, without its colour.
    #[verifier::when_used_as_spec(symbol)]
    pub fn glyph(&self) -> (glyph: char)
        ensures
            glyph == self.symbol(),
    {
        self.glyph
    }

    /// The characters written for this tile: the colour first, then the glyph.
    pub fn image(&self) -> (image: String)
        ensures
            image@ == self@,
    {
        self.image.clone()
    }
}

} // verus!
