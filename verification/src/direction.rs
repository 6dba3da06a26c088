use rand::seq::SliceRandom;
use vstd::prelude::*;
use crate::coord::Coord;

verus! {

/// One step on the grid: to a neighbouring cell, straight or diagonal. North is
/// up, towards row 0.
#[derive(Debug, Clone, Copy, PartialEq, Eq, Hash, Structural)]
pub enum Direction {
    N,
    E,
    S,
    W,
    NE,
    SE,
    SW,
    NW,
}

impl Direction {
    /// The step as an offset.
    pub open spec fn step(self) -> Coord {
        match self {
            Direction::N => Coord { x: 0, y: -1i32 },
            Direction::E => Coord { x: 1, y: 0 },
            Direction::S => Coord { x: 0, y: 1 },
            Direction::W => Coord { x: -1i32, y: 0 },
            Direction::NE => Coord { x: 1, y: -1i32 },
            Direction::SE => Coord { x: 1, y: 1 },
            Direction::SW => Coord { x: -1i32, y: 1 },
            Direction::NW => Coord { x: -1i32, y: -1i32 },
        }
    }

    /// The step as an offset, to be added to a coordinate.
    #[verifier::when_used_as_spec(step)]
    pub fn offset(self) -> (offset: Coord)
        ensures
            offset == self.step(),
    {
        match self {
            Direction::N => Coord { x: 0, y: -1 },
            Direction::E => Coord { x: 1, y: 0 },
            Direction::S => Coord { x: 0, y: 1 },
            Direction::W => Coord { x: -1, y: 0 },
            Direction::NE => Coord { x: 1, y: -1 },
            Direction::SE => Coord { x: 1, y: 1 },
            Direction::SW => Coord { x: -1, y: 1 },
            Direction::NW => Coord { x: -1, y: -1 },
        }
    }

    /// The steps are the eight offsets to a neighbouring cell, each once.
    pub proof fn lemma_steps()
        ensures
            forall|d: Direction| is_step(#[trigger] d.step()),
            forall|c: Coord| #[trigger] is_step(c) ==> exists|d: Direction| d.step() == c,
            forall|a: Direction, b: Direction| #[trigger] a.step() == #[trigger] b.step() ==> a == b,
    {
        assert forall|c: Coord| #[trigger] is_step(c) implies exists|d: Direction|
            d.step() == c by {
            let d = if c.x == 0 {
                if c.y < 0 {
                    Direction::N
                } else {
                    Direction::S
                }
            } else if c.x > 0 {
                if c.y < 0 {
                    Direction::NE
                } else if c.y == 0 {
                    Direction::E
                } else {
                    Direction::SE
                }
            } else {
                if c.y < 0 {
                    Direction::NW
                } else if c.y == 0 {
                    Direction::W
                } else {
                    Direction::SW
                }
            };
            assert(d.step() == c);
        }
    }
}

/// Whether `c` is the offset to a neighbouring cell: each component is -1, 0 or 1,
/// and not both are 0.
pub open spec fn is_step(c: Coord) -> bool {
    &&& -1 <= c.x <= 1
    &&& -1 <= c.y <= 1
    &&& c != (Coord { x: 0, y: 0 })
}

/// The eight directions in the order of the table.
pub open spec fn all_directions() -> Seq<Direction> {
    seq![
        Direction::N,
        Direction::E,
        Direction::S,
        Direction::W,
        Direction::NE,
        Direction::SE,
        Direction::SW,
        Direction::NW,
    ]
}

/// The table of directions.
pub fn directions() -> (table: Vec<Direction>)
    ensures
        table@ == all_directions(),
{
    let mut table: Vec<Direction> = Vec::new();
    table.push(Direction::N);
    table.push(Direction::E);
    table.push(Direction::S);
    table.push(Direction::W);
    table.push(Direction::NE);
    table.push(Direction::SE);
    table.push(Direction::SW);
    table.push(Direction::NW);
    assert(table@ =~= all_directions());
    table
}

/// Trusted: `rand::seq::SliceRandom::choose` on the items, with the generator of
/// `rand::thread_rng`. It returns one of the items, whichever, and `None` only
/// for an empty slice. It panics where the operating system gives the generator
/// no seed.
#[verifier::external_body]
fn pick(items: &Vec<Direction>) -> (chosen: Option<Direction>)
    ensures
        match chosen {
            Some(d) => items@.contains(d),
            None => items@.len() == 0,
        },
{
    items.choose(&mut rand::thread_rng()).copied()
}

/// A direction picked at random from the table.
pub fn random_direction() -> (d: Direction)
    ensures
        all_directions().contains(d),
{
    let table = directions();
    match pick(&table) {
        Some(d) => d,
        None => vstd::pervasive::unreached(),
    }
}

} // verus!
