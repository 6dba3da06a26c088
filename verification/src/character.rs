use vstd::prelude::*;
use crate::color::{tile_image, Color};
use crate::tile::Tile;

verus! {

/// Somebody who stands on the grid: a glyph to draw and a name to call them by.
pub struct Character {
    tile: Tile,
    name: String,
}

impl Character {
    /// What is written to the terminal for this character.
    pub closed spec fn picture(&self) -> Seq<char> {
        self.tile@
    }

    /// The characters of the name.
    pub closed spec fn label(&self) -> Seq<char> {
        self.name@
    }

    /// A character drawn as `tile` in `color` and called `name`.
    pub fn new(tile: char, name: &str, color: Color) -> (c: Character)
        ensures
            c.picture() == tile_image(tile, color),
            c.label() == name@,
    {
        Character { tile: Tile::new(tile, color), name: name.to_owned() }
    }

    /// What is written to the terminal for this character.
    pub fn image(&self) -> (image: String)
        ensures
            image@ == self.picture(),
    {
        self.tile.image()
    }

    /// What the character is called.
    pub fn name(&self) -> (name: String)
        ensures
            name@ == self.label(),
    {
        self.name.clone()
    }
}

} // verus!
