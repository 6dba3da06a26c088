use vstd::prelude::*;
use crate::color::{tile_image, Color};
use crate::tile::Tile;

verus! {

/// What a cell of the grid is made of.
#[derive(Debug, Clone, Copy, PartialEq, Eq, Structural)]
pub enum TerrainKind {
    Wall,
    Floor,
    /// Outside the designed area: what any glyph but `.` and `#` stands for.
    Void,
}

impl TerrainKind {
    /// The kind that a glyph of a map design stands for.
    pub open spec fn of_glyph(glyph: char) -> TerrainKind {
        if glyph == '.' {
            TerrainKind::Floor
        } else if glyph == '#' {
            TerrainKind::Wall
        } else {
            TerrainKind::Void
        }
    }

    /// The glyph that shows a cell of this kind.
    pub open spec fn glyph(self) -> char {
        match self {
            TerrainKind::Wall => '#',
            TerrainKind::Floor => '.',
            TerrainKind::Void => ' ',
        }
    }

    /// The colour in which a cell of this kind is drawn.
    pub open spec fn color(self) -> Color {
        match self {
            TerrainKind::Floor => Color::Green,
            _ => Color::Reset,
        }
    }

    /// Whether an entity can enter a cell of this kind.
    pub open spec fn walkable(self) -> bool {
        self == TerrainKind::Floor
    }

    /// What is written to the terminal for a cell of this kind.
    pub open spec fn image(self) -> Seq<char> {
        tile_image(self.glyph(), self.color())
    }

    /// The kind that a glyph of a map design stands for.
    #[verifier::when_used_as_spec(of_glyph)]
    pub fn from_glyph(glyph: char) -> (kind: TerrainKind)
        ensures
            kind == TerrainKind::of_glyph(glyph),
    {
        if glyph == '.' {
            TerrainKind::Floor
        } else if glyph == '#' {
            TerrainKind::Wall
        } else {
            TerrainKind::Void
        }
    }

    /// Every glyph that shows a kind stands for that kind again, so a design and
    /// the glyphs drawn for it describe the same terrain.
    pub proof fn lemma_glyph_round_trip(kind: TerrainKind, glyph: char)
        ensures
            TerrainKind::of_glyph(kind.glyph()) == kind,
            TerrainKind::of_glyph(TerrainKind::of_glyph(glyph).glyph()) == TerrainKind::of_glyph(
                glyph,
            ),
            glyph == '.' || glyph == '#' || glyph == ' ' ==> TerrainKind::of_glyph(glyph).glyph()
                == glyph,
    {
    }
}

/// The appearance of one kind of cell and whether it can be entered.
pub struct Terrain {
    tile: Tile,
    can_walk: bool,
}

impl Terrain {
    /// What is written to the terminal for this terrain.
    pub closed spec fn picture(&self) -> Seq<char> {
        self.tile@
    }

    /// Whether an entity can enter a cell of this terrain.
    pub closed spec fn walkable(&self) -> bool {
        self.can_walk
    }

    /// The glyph that shows a cell of this terrain, without its colour.
    pub closed spec fn symbol(&self) -> char {
        self.tile.symbol()
    }

    /// Whether this terrain looks and behaves as `kind` is defined to.
    pub open spec fn shows(&self, kind: TerrainKind) -> bool {
        &&& self.picture() == kind.image()
        &&& self.symbol() == kind.glyph()
        &&& self.walkable() == kind.walkable()
    }

    /// A terrain drawn as `tile` in `color`, which can be entered or not.
    pub fn new(tile: char, color: Color, can_walk: bool) -> (t: Terrain)
        ensures
            t.picture() == tile_image(tile, color),
            t.symbol() == tile,
            t.walkable() == can_walk,
    {
        Terrain { tile: Tile::new(tile, color), can_walk }
    }

    /// The glyph that shows a cell of this terrain, without its colour.
    #[verifier::when_used_as_spec(symbol)]
    pub fn glyph(&self) -> (glyph: char)
        ensures
            glyph == self.symbol(),
    {
        self.tile.glyph()
    }

    /// What is written to the terminal for a cell of this terrain.
    pub fn image(&self) -> (image: String)
        ensures
            image@ == self.picture(),
    {
        self.tile.image()
    }

    /// Whether an entity can enter a cell of this terrain.
    #[verifier::when_used_as_spec(walkable)]
    pub fn can_walk(&self) -> (b: bool)
        ensures
            b == self.walkable(),
    {
        self.can_walk
    }
}

/// The table of terrains: one shared `Terrain` for each kind of cell. A grid
/// holds kinds and looks their appearance up here.
#[allow(non_camel_case_types)]
pub struct TERRAIN {
    null: Terrain,
    floor: Terrain,
    wall: Terrain,
}

impl TERRAIN {
    /// The terrain that the table holds for `kind`.
    pub closed spec fn entry(&self, kind: TerrainKind) -> Terrain {
        match kind {
            TerrainKind::Void => self.null,
            TerrainKind::Floor => self.floor,
            TerrainKind::Wall => self.wall,
        }
    }

    /// Every entry looks and behaves as its kind is defined to.
    pub open spec fn wf(&self) -> bool {
        forall|kind: TerrainKind| #[trigger] self.entry(kind).shows(kind)
    }

    /// The table of the three kinds: void is a blank, floor a green `.` that can be
    /// entered, wall a `#`.
    pub fn new() -> (table: TERRAIN)
        ensures
            table.wf(),
    {
        TERRAIN {
            null: Terrain::new(' ', Color::Reset, false),
            floor: Terrain::new('.', Color::Green, true),
            wall: Terrain::new('#', Color::Reset, false),
        }
    }

    /// The terrain of `kind`.
    pub fn of(&self, kind: TerrainKind) -> (t: &Terrain)
        ensures
            *t == self.entry(kind),
    {
        match kind {
            TerrainKind::Void => &self.null,
            TerrainKind::Floor => &self.floor,
            TerrainKind::Wall => &self.wall,
        }
    }
}

} // verus!
