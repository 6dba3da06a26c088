use gridwalk::color::Color;
use gridwalk::coord::Coord;
use gridwalk::direction::{directions, random_direction, Direction};
use gridwalk::error::WorldError;
use gridwalk::map::{GridMap, MutualHashMap};
use gridwalk::terrain::{Terrain, TerrainKind, TERRAIN};
use gridwalk::tile::Tile;

const WALL: &str = "\u{1b}[39m#";
const FLOOR: &str = "\u{1b}[38;5;2m.";
const VOID: &str = "\u{1b}[39m ";

#[test]
fn coord_adds_by_component() {
    let sum = Coord::new(3, -4) + Coord::new(-1, 10);
    assert_eq!(sum, Coord { x: 2, y: 6 });
    let mut c = Coord::new(1, 1);
    c += Coord::new(0, -1);
    assert_eq!(c, Coord::new(1, 0));
}

#[test]
fn checked_add_refuses_to_leave_the_range() {
    assert_eq!(Coord::new(1, 2).checked_add(Coord::new(3, 4)), Some(Coord::new(4, 6)));
    assert_eq!(Coord::new(i32::MAX, 0).checked_add(Coord::new(1, 0)), None);
    assert_eq!(Coord::new(0, i32::MIN).checked_add(Coord::new(0, -1)), None);
    assert_eq!(
        Coord::new(i32::MAX, i32::MIN).checked_add(Coord::new(0, 0)),
        Some(Coord::new(i32::MAX, i32::MIN))
    );
}

#[test]
fn keys_and_coordinates_correspond() {
    assert_eq!(Coord::new(i32::MIN, i32::MIN).key(), 0);
    assert_eq!(Coord::new(i32::MIN, i32::MIN + 1).key(), 1);
    assert_eq!(Coord::new(i32::MIN + 1, i32::MIN).key(), 0x1_0000_0000);
    assert_eq!(Coord::new(0, 0).key(), 0x8000_0000_8000_0000);
    assert_eq!(Coord::new(i32::MAX, i32::MAX).key(), u64::MAX);
    let samples = [
        Coord::new(0, 0),
        Coord::new(1, 0),
        Coord::new(0, 1),
        Coord::new(-1, -1),
        Coord::new(i32::MAX, i32::MIN),
        Coord::new(i32::MIN, i32::MAX),
        Coord::new(23, 10),
    ];
    for a in samples.iter() {
        assert_eq!(Coord::from_key(a.key()), *a);
        for b in samples.iter() {
            assert_eq!(a.key() == b.key(), a == b);
        }
    }
    assert_eq!(Coord::from_key(u64::MAX).key(), u64::MAX);
    assert_eq!(Coord::from_key(12345).key(), 12345);
}

#[test]
fn directions_are_the_eight_neighbours() {
    let table = directions();
    assert_eq!(
        table,
        vec![
            Direction::N,
            Direction::E,
            Direction::S,
            Direction::W,
            Direction::NE,
            Direction::SE,
            Direction::SW,
            Direction::NW
        ]
    );
    assert_eq!(Direction::N.offset(), Coord::new(0, -1));
    assert_eq!(Direction::E.offset(), Coord::new(1, 0));
    assert_eq!(Direction::S.offset(), Coord::new(0, 1));
    assert_eq!(Direction::W.offset(), Coord::new(-1, 0));
    assert_eq!(Direction::NE.offset(), Coord::new(1, -1));
    assert_eq!(Direction::SE.offset(), Coord::new(1, 1));
    assert_eq!(Direction::SW.offset(), Coord::new(-1, 1));
    assert_eq!(Direction::NW.offset(), Coord::new(-1, -1));
    for (i, a) in table.iter().enumerate() {
        let step = a.offset();
        assert!(step.x.abs() <= 1 && step.y.abs() <= 1 && step != Coord::new(0, 0));
        for b in table.iter().skip(i + 1) {
            assert_ne!(step, b.offset());
        }
    }
}

#[test]
fn random_direction_is_one_of_the_table() {
    let table = directions();
    let mut seen = Vec::new();
    for _ in 0..400 {
        let d = random_direction();
        assert!(table.contains(&d));
        if !seen.contains(&d) {
            seen.push(d);
        }
    }
    assert!(seen.len() > 1);
}

#[test]
fn tile_image_is_colour_then_glyph() {
    assert_eq!(Tile::new('@', Color::White).image(), "\u{1b}[38;5;7m@");
    assert_eq!(Tile::new('@', Color::White).glyph(), '@');
    assert_eq!(Tile::new('o', Color::Green).image(), "\u{1b}[38;5;2mo");
    assert_eq!(Tile::new('#', Color::Reset).image(), "\u{1b}[39m#");
    assert_eq!(Tile::new('x', Color::Black).image(), "\u{1b}[38;5;0mx");
    assert_eq!(Tile::new('x', Color::Red).image(), "\u{1b}[38;5;1mx");
    assert_eq!(Tile::new('x', Color::Yellow).image(), "\u{1b}[38;5;3mx");
    assert_eq!(Tile::new('x', Color::Blue).image(), "\u{1b}[38;5;4mx");
    assert_eq!(Tile::new('x', Color::Magenta).image(), "\u{1b}[38;5;5mx");
    assert_eq!(Tile::new('é', Color::Cyan).image(), "\u{1b}[38;5;6mé");
}

#[test]
fn terrain_table_holds_the_three_kinds() {
    let table = TERRAIN::new();
    assert_eq!(table.of(TerrainKind::Floor).image(), FLOOR);
    assert_eq!(table.of(TerrainKind::Floor).glyph(), '.');
    assert_eq!(table.of(TerrainKind::Wall).glyph(), '#');
    assert_eq!(table.of(TerrainKind::Void).glyph(), ' ');
    assert!(table.of(TerrainKind::Floor).can_walk());
    assert_eq!(table.of(TerrainKind::Wall).image(), WALL);
    assert!(!table.of(TerrainKind::Wall).can_walk());
    assert_eq!(table.of(TerrainKind::Void).image(), VOID);
    assert!(!table.of(TerrainKind::Void).can_walk());
    let custom = Terrain::new('~', Color::Blue, true);
    assert_eq!(custom.image(), "\u{1b}[38;5;4m~");
    assert_eq!(custom.glyph(), '~');
    assert!(custom.can_walk());
}

#[test]
fn glyphs_stand_for_kinds() {
    assert_eq!(TerrainKind::from_glyph('.'), TerrainKind::Floor);
    assert_eq!(TerrainKind::from_glyph('#'), TerrainKind::Wall);
    assert_eq!(TerrainKind::from_glyph(' '), TerrainKind::Void);
    assert_eq!(TerrainKind::from_glyph('x'), TerrainKind::Void);
    assert_eq!(TerrainKind::from_glyph('\u{1b}'), TerrainKind::Void);
}

#[test]
fn image_writes_every_glyph_and_ends_every_row() {
    assert_eq!(GridMap::new(vec!["#x.", ".#."]).image(), "# .\r\n.#.\r\n");
    assert_eq!(GridMap::new(vec!["#.x", ".."]).image(), "#. \r\n..\r\n");
    assert_eq!(GridMap::new(vec![]).image(), "");
    assert_eq!(GridMap::new(vec!["", "#"]).image(), "\r\n#\r\n");
    assert_eq!(GridMap::new(vec!["."]).image(), ".\r\n");
    assert_eq!(GridMap::with_terrain(vec!["."], TERRAIN::new()).image(), ".\r\n");
}

#[test]
fn image_does_not_show_who_stands_on_the_grid() {
    let mut grid = GridMap::new(vec!["..", ".."]);
    let before = grid.image();
    grid.add_character(1, Coord::new(0, 0));
    grid.add_character(2, Coord::new(1, 1));
    assert_eq!(grid.image(), before);
    assert_eq!(grid.image(), "..\r\n..\r\n");
}

#[test]
fn image_gives_the_design_back_glyph_for_glyph() {
    let design = vec!["####", "#..#", "# .#", "####", "", "."];
    let grid = GridMap::new(design.clone());
    let mut expected = String::new();
    for row in design.iter() {
        expected.push_str(row);
        expected.push_str("\r\n");
    }
    assert_eq!(grid.image(), expected);
    // Any other glyph is shown as void, and what is shown describes the same grid.
    let odd = GridMap::new(vec!["#x.é"]);
    assert_eq!(odd.image(), "# . \r\n");
    let again = GridMap::new(vec!["# . "]);
    assert_eq!(again.image(), odd.image());
    assert_eq!(again.painted(), odd.painted());
}

#[test]
fn drawing_what_was_drawn_gives_the_same_text() {
    let designs: Vec<Vec<&'static str>> = vec![
        vec!["."],
        vec!["#x.", ".#."],
        vec!["", "##", "", "a b"],
        vec![],
        vec!["########", "#......#", "#..~~..#", "########"],
    ];
    for design in designs {
        let first = GridMap::new(design.clone()).image();
        let mut lines: Vec<&'static str> = Vec::new();
        for line in first.split_terminator("\r\n") {
            let row: &'static str = Box::leak(line.to_string().into_boxed_str());
            lines.push(row);
        }
        assert_eq!(lines.len(), design.len());
        let second = GridMap::new(lines.clone()).image();
        assert_eq!(second, first);
        for (line, row) in lines.iter().zip(design.iter()) {
            assert_eq!(line.chars().count(), row.chars().count());
        }
    }
}

#[test]
fn painted_draws_every_cell_in_its_colour() {
    let grid = GridMap::new(vec!["#.x", ".."]);
    let expected = format!("{}{}{}\r\n{}{}\r\n", WALL, FLOOR, VOID, FLOOR, FLOOR);
    assert_eq!(grid.painted(), expected);
    assert_eq!(GridMap::new(vec![]).painted(), "");
    assert_eq!(GridMap::new(vec!["", "#"]).painted(), format!("\r\n{}\r\n", WALL));
    assert_eq!(GridMap::new(vec!["."]).painted(), format!("{}\r\n", FLOOR));
}

#[test]
fn terrain_is_looked_up_by_column_and_row() {
    let grid = GridMap::new(vec!["#.", "..#.", "x"]);
    assert_eq!(grid.terrain_at(Coord::new(0, 0)).ok().unwrap().image(), WALL);
    assert_eq!(grid.terrain_at(Coord::new(1, 0)).ok().unwrap().image(), FLOOR);
    assert_eq!(grid.terrain_at(Coord::new(2, 1)).ok().unwrap().image(), WALL);
    assert_eq!(grid.terrain_at(Coord::new(3, 1)).ok().unwrap().image(), FLOOR);
    assert_eq!(grid.terrain_at(Coord::new(0, 2)).ok().unwrap().image(), VOID);
    assert!(grid.can_walk(Coord::new(1, 0)));
    assert!(grid.can_walk(Coord::new(3, 1)));
    assert!(!grid.can_walk(Coord::new(0, 0)));
    assert!(!grid.can_walk(Coord::new(0, 2)));
}

#[test]
fn outside_the_grid_there_is_no_terrain() {
    let grid = GridMap::new(vec!["..", "...."]);
    for c in [
        Coord::new(2, 0),
        Coord::new(4, 1),
        Coord::new(0, 2),
        Coord::new(-1, 0),
        Coord::new(0, -1),
        Coord::new(i32::MAX, 0),
        Coord::new(0, i32::MIN),
    ] {
        assert_eq!(grid.terrain_at(c).err(), Some(WorldError::OutOfBounds));
        assert!(!grid.can_walk(c));
    }
    assert!(grid.can_walk(Coord::new(3, 1)));
    let empty = GridMap::new(vec![]);
    assert_eq!(empty.terrain_at(Coord::new(0, 0)).err(), Some(WorldError::OutOfBounds));
}

#[test]
fn mutual_map_reads_both_ways() {
    let mut m: MutualHashMap<u64, u64> = MutualHashMap::new();
    assert_eq!(m.value(1), None);
    assert!(!m.has_value(10));
    m.insert(1, 10);
    m.insert(2, 20);
    assert_eq!(m.value(1), Some(&10));
    assert_eq!(m.value(2), Some(&20));
    assert_eq!(m.key(10), 1);
    assert_eq!(m.key(20), 2);
    assert!(m.has_value(20));
    let mut entries = m.entries();
    entries.sort();
    assert_eq!(entries, vec![(1, 10), (2, 20)]);
    m.remove_by_value(10);
    assert_eq!(m.value(1), None);
    assert!(!m.has_value(10));
    assert_eq!(m.entries(), vec![(2, 20)]);
    m.remove_by_value(99);
    assert_eq!(m.entries(), vec![(2, 20)]);
}

#[test]
fn mutual_map_drops_stale_pairs() {
    let mut m: MutualHashMap<Coord, u64> = MutualHashMap::new();
    let (a, b) = (Coord::new(0, 0), Coord::new(5, 5));
    m.insert(a, 1);
    m.insert(b, 2);
    // The value moves to another key: the old key is free.
    m.insert(b, 1);
    assert_eq!(m.value(a), None);
    assert_eq!(m.value(b), Some(&1));
    assert_eq!(m.key(1), b);
    assert!(!m.has_value(2));
    assert_eq!(m.entries(), vec![(b, 1)]);
    // Binding the same pair again changes nothing.
    m.insert(b, 1);
    assert_eq!(m.entries(), vec![(b, 1)]);
    // A key gets another value: the old value is unbound.
    m.insert(b, 3);
    assert!(!m.has_value(1));
    assert_eq!(m.key(3), b);
    assert_eq!(m.entries(), vec![(b, 3)]);
}

#[test]
fn grid_tells_who_stands_where() {
    let mut grid = GridMap::new(vec!["....", "...."]);
    assert_eq!(grid.character_at(Coord::new(1, 1)), None);
    assert_eq!(grid.coord_of(7), Err(WorldError::NotPlaced));
    grid.add_character(7, Coord::new(1, 1));
    grid.add_character(3, Coord::new(2, 0));
    assert_eq!(grid.character_at(Coord::new(1, 1)), Some(7));
    assert_eq!(grid.coord_of(7), Ok(Coord::new(1, 1)));
    assert_eq!(grid.coord_of(3), Ok(Coord::new(2, 0)));
    let mut all = grid.characters();
    all.sort_by_key(|entry| entry.1);
    assert_eq!(all, vec![(Coord::new(2, 0), 3), (Coord::new(1, 1), 7)]);
    grid.move_character(7, Coord::new(3, 1));
    assert_eq!(grid.character_at(Coord::new(1, 1)), None);
    assert_eq!(grid.coord_of(7), Ok(Coord::new(3, 1)));
    grid.remove_character(7);
    assert_eq!(grid.coord_of(7), Err(WorldError::NotPlaced));
    assert_eq!(grid.character_at(Coord::new(3, 1)), None);
    grid.remove_character(7);
    assert_eq!(grid.characters(), vec![(Coord::new(2, 0), 3)]);
    // Entities may stand anywhere, also off the rows of the grid.
    grid.add_character(9, Coord::new(-5, i32::MAX));
    assert_eq!(grid.coord_of(9), Ok(Coord::new(-5, i32::MAX)));
    assert_eq!(grid.character_at(Coord::new(-5, i32::MAX)), Some(9));
}

#[test]
fn the_two_readings_of_the_grid_always_agree() {
    let mut grid = GridMap::new(vec!["....."]);
    let cells: Vec<Coord> = (0..5).map(|x| Coord::new(x, 0)).collect();
    let steps: Vec<(u8, u64, usize)> = vec![
        (0, 1, 0),
        (0, 2, 1),
        (0, 3, 1),
        (1, 1, 4),
        (0, 2, 4),
        (2, 3, 0),
        (1, 2, 2),
        (0, 4, 2),
        (1, 4, 3),
        (2, 1, 0),
        (0, 1, 3),
    ];
    for (what, id, cell) in steps {
        match what {
            0 => grid.add_character(id, cells[cell]),
            1 => grid.move_character(id, cells[cell]),
            _ => grid.remove_character(id),
        }
        let all = grid.characters();
        for (coord, entity) in all.iter() {
            assert_eq!(grid.character_at(*coord), Some(*entity));
            assert_eq!(grid.coord_of(*entity), Ok(*coord));
        }
        for cell in cells.iter() {
            if let Some(entity) = grid.character_at(*cell) {
                assert_eq!(grid.coord_of(entity), Ok(*cell));
                assert!(all.contains(&(*cell, entity)));
            }
        }
        for id in 1..=4u64 {
            if let Ok(coord) = grid.coord_of(id) {
                assert_eq!(grid.character_at(coord), Some(id));
            }
        }
    }
}

#[test]
fn placing_on_a_held_cell_is_refused() {
    let mut grid = GridMap::new(vec!["..."]);
    assert_eq!(grid.place_character(1, Coord::new(0, 0)), Ok(()));
    assert_eq!(grid.place_character(2, Coord::new(0, 0)), Err(WorldError::Occupied));
    assert_eq!(grid.character_at(Coord::new(0, 0)), Some(1));
    assert_eq!(grid.coord_of(2), Err(WorldError::NotPlaced));
    // An entity may be placed where it stands, and moved to a free cell.
    assert_eq!(grid.place_character(1, Coord::new(0, 0)), Ok(()));
    assert_eq!(grid.place_character(1, Coord::new(2, 0)), Ok(()));
    assert_eq!(grid.character_at(Coord::new(0, 0)), None);
    assert_eq!(grid.place_character(2, Coord::new(0, 0)), Ok(()));
    assert_eq!(grid.characters().len(), 2);
}

#[test]
fn placing_without_asking_takes_the_cell() {
    let mut grid = GridMap::new(vec!["..."]);
    grid.add_character(1, Coord::new(0, 0));
    grid.add_character(2, Coord::new(0, 0));
    assert_eq!(grid.character_at(Coord::new(0, 0)), Some(2));
    assert_eq!(grid.coord_of(1), Err(WorldError::NotPlaced));
    assert_eq!(grid.characters(), vec![(Coord::new(0, 0), 2)]);
}

#[test]
fn roster_is_in_the_order_of_ids() {
    let mut grid = GridMap::new(vec!["........"]);
    for (id, x) in [(5u64, 0), (2, 7), (9, 3), (1, 4), (7, 1)] {
        grid.add_character(id, Coord::new(x, 0));
    }
    assert_eq!(
        grid.roster(),
        vec![
            (Coord::new(4, 0), 1),
            (Coord::new(7, 0), 2),
            (Coord::new(0, 0), 5),
            (Coord::new(1, 0), 7),
            (Coord::new(3, 0), 9),
        ]
    );
    assert_eq!(GridMap::new(vec![]).roster(), vec![]);
}
