use gridwalk::color::Color;
use gridwalk::coord::Coord;
use gridwalk::direction::Direction;
use gridwalk::error::WorldError;
use gridwalk::walk::{screen_cell, Event, Key, Walk, WalkState};
use gridwalk::world::{CheckOrder, MoveResult};

const HERO: &str = "\u{1b}[38;5;7m@";
const ORC: &str = "\u{1b}[38;5;2mo";

const LEVEL: [&str; 11] = [
    "########################",
    "#......................#",
    "#....########.###......#",
    "#....#..........#......#",
    "#....#.   .#....#......#",
    "#....#.   .#....#####..#",
    "#....#.....#....#....#.#",
    "#....##.####.........#.#",
    "#...........##########.#",
    "#......................#",
    "########################",
];

/// A game that is set up.
fn started() -> Walk {
    let mut walk = Walk::new();
    walk.init();
    walk
}

fn press(key: char) -> Event {
    Event::Key(Key::Char(key))
}

#[test]
fn a_new_game_shows_the_player_and_three_orcs() {
    let mut walk = started();
    let level = walk.map().image();
    let frame = walk.draw();
    assert_eq!(frame.map, level);
    assert_eq!(frame.map, LEVEL.join("\r\n") + "\r\n");
    assert_eq!(frame.map.matches("\r\n").count(), 11);
    assert_eq!(frame.map.matches('#').count(), 110);
    assert_eq!(frame.map.matches('.').count(), 148);
    assert_eq!(frame.map.matches(' ').count(), 6);
    assert_eq!(
        frame.characters,
        vec![
            (Coord::new(1, 1), HERO.to_string()),
            (Coord::new(3, 6), ORC.to_string()),
            (Coord::new(3, 7), ORC.to_string()),
            (Coord::new(3, 8), ORC.to_string()),
        ]
    );
    assert_eq!(frame.message, Some((Coord::new(0, 11), "\u{1b}[39mwelcome hero".to_string())));
    assert_eq!(frame.cursor, Coord::new(1, 1));
    // What was said is not said again.
    let again = walk.draw();
    assert_eq!(again.message, None);
    assert_eq!(again.characters, frame.characters);
    assert_eq!(walk.draw_message(), None);
}

#[test]
fn the_level_is_the_designed_one() {
    let walk = started();
    let grid = walk.map();
    assert!(grid.can_walk(Coord::new(1, 1)));
    assert!(grid.can_walk(Coord::new(22, 9)));
    assert!(!grid.can_walk(Coord::new(0, 0)));
    assert!(!grid.can_walk(Coord::new(23, 10)));
    assert!(!grid.can_walk(Coord::new(7, 4)));
    assert!(!grid.can_walk(Coord::new(24, 1)));
    assert!(!grid.can_walk(Coord::new(1, 11)));
    assert_eq!(grid.coord_of(1), Ok(Coord::new(1, 1)));
    assert_eq!(grid.coord_of(2), Err(WorldError::NotPlaced));
    assert_eq!(grid.coord_of(5), Ok(Coord::new(3, 8)));
    assert_eq!(walk.move_cursor_to_player(), Coord::new(1, 1));
}

#[test]
fn keys_name_directions() {
    let walk = started();
    assert_eq!(walk.direction_of('j'), Some(Direction::S));
    assert_eq!(walk.direction_of('k'), Some(Direction::N));
    assert_eq!(walk.direction_of('l'), Some(Direction::E));
    assert_eq!(walk.direction_of('h'), Some(Direction::W));
    assert_eq!(walk.direction_of('y'), Some(Direction::NW));
    assert_eq!(walk.direction_of('u'), Some(Direction::NE));
    assert_eq!(walk.direction_of('b'), Some(Direction::SW));
    assert_eq!(walk.direction_of('n'), Some(Direction::SE));
    assert_eq!(walk.direction_of('q'), None);
    assert_eq!(walk.direction_of('J'), None);
}

#[test]
fn control_c_ends_the_game() {
    let mut walk = started();
    let (state, frame) = walk.process_event(Event::Key(Key::Ctrl('c')));
    assert_eq!(state, WalkState::Quit);
    assert!(frame.is_none());
    assert_eq!(walk.move_cursor_to_player(), Coord::new(1, 1));
}

#[test]
fn other_events_are_passed_over() {
    let mut walk = started();
    for event in [
        Event::Other,
        Event::Key(Key::Other),
        Event::Key(Key::Ctrl('l')),
        Event::Key(Key::Ctrl('x')),
        press('c'),
        press('q'),
        press(' '),
    ] {
        let (state, frame) = walk.process_event(event);
        assert_eq!(state, WalkState::Continue);
        assert!(frame.is_none());
    }
    let frame = walk.draw();
    assert_eq!(frame.cursor, Coord::new(1, 1));
    assert_eq!(frame.characters.len(), 4);
    assert!(frame.message.is_some());
}

#[test]
fn a_step_plays_a_turn() {
    let mut walk = started();
    let (state, frame) = walk.process_event(press('l'));
    assert_eq!(state, WalkState::Continue);
    let frame = frame.expect("a step that is taken ends the turn");
    assert_eq!(frame.cursor, Coord::new(2, 1));
    assert_eq!(frame.characters.len(), 4);
    assert_eq!(frame.characters[0], (Coord::new(2, 1), HERO.to_string()));
    assert_eq!(frame.message, Some((Coord::new(0, 11), "\u{1b}[39mwelcome hero".to_string())));
    // Each orc stands where it stood or one step from there, on floor.
    for (i, (at, picture)) in frame.characters.iter().enumerate().skip(1) {
        assert_eq!(picture, ORC);
        let start = Coord::new(3, 5 + i as i32);
        assert!((at.x - start.x).abs() <= 1 && (at.y - start.y).abs() <= 1);
        assert!(walk.map().can_walk(*at));
    }
    let (_, frame) = walk.process_event(press('n'));
    let frame = frame.unwrap();
    assert_eq!(frame.cursor, Coord::new(3, 2));
    assert_eq!(frame.message, None);
}

#[test]
fn a_step_into_the_wall_does_not_end_the_turn() {
    let mut walk = started();
    for key in ['k', 'h', 'y', 'u', 'b'] {
        let (state, frame) = walk.process_event(press(key));
        assert_eq!(state, WalkState::Continue);
        assert!(frame.is_none());
    }
    let frame = walk.draw();
    assert_eq!(frame.cursor, Coord::new(1, 1));
    assert_eq!(
        frame.characters,
        vec![
            (Coord::new(1, 1), HERO.to_string()),
            (Coord::new(3, 6), ORC.to_string()),
            (Coord::new(3, 7), ORC.to_string()),
            (Coord::new(3, 8), ORC.to_string()),
        ]
    );
}

#[test]
fn a_step_into_the_wall_ends_the_turn_where_the_rules_say_so() {
    let mut walk = Walk::with_rules(CheckOrder::EntityFirst, true);
    walk.init();
    let (state, frame) = walk.process_event(press('k'));
    assert_eq!(state, WalkState::Continue);
    let frame = frame.expect("the blocked step ends the turn");
    assert_eq!(frame.cursor, Coord::new(1, 1));
    assert_eq!(frame.characters.len(), 4);
}

#[test]
fn a_march_moves_each_in_turn() {
    let mut walk = started();
    walk.march(&vec![
        (3, Direction::N),
        (4, Direction::N),
        (5, Direction::E),
        (5, Direction::E),
        (1, Direction::SE),
        (4, Direction::W),
        (3, Direction::S),
        (2, Direction::S),
        (77, Direction::S),
    ]);
    let grid = walk.map();
    // 3 steps north to (3, 5); 4 finds (3, 6) free; 5 walks east twice;
    // then 4 steps west, and 3 finds (3, 6) free again.
    assert_eq!(grid.coord_of(3), Ok(Coord::new(3, 6)));
    assert_eq!(grid.coord_of(4), Ok(Coord::new(2, 6)));
    assert_eq!(grid.coord_of(5), Ok(Coord::new(5, 8)));
    assert_eq!(grid.coord_of(1), Ok(Coord::new(2, 2)));
    assert_eq!(grid.characters().len(), 4);
}

#[test]
fn walking_into_an_orc_kills_it() {
    let mut walk = started();
    walk.draw();
    for direction in [Direction::S, Direction::S, Direction::S, Direction::S] {
        assert_eq!(walk.move_character(1, direction), Ok(MoveResult::Moved));
    }
    assert_eq!(walk.move_character(1, Direction::SE), Ok(MoveResult::Moved));
    assert_eq!(walk.move_cursor_to_player(), Coord::new(2, 6));
    assert_eq!(walk.move_character(1, Direction::E), Ok(MoveResult::BlockedByEntity(3)));
    assert_eq!(walk.move_character(3, Direction::W), Ok(MoveResult::BlockedByEntity(1)));
    let frame = walk.move_player(Direction::E).expect("a kill ends the turn");
    assert_eq!(frame.message, Some((Coord::new(0, 11), "\u{1b}[38;5;1mkill orc".to_string())));
    assert_eq!(frame.cursor, Coord::new(2, 6));
    assert_eq!(frame.characters.len(), 3);
    assert_eq!(frame.characters[0], (Coord::new(2, 6), HERO.to_string()));
    assert_eq!(walk.map().coord_of(3), Err(WorldError::NotPlaced));
    assert_eq!(walk.character(3).err(), Some(WorldError::NotFound));
    assert_eq!(walk.character(1).ok().unwrap().name(), "hero");
    assert_eq!(walk.character(2).err(), Some(WorldError::TypeMismatch));
}

#[test]
fn monsters_do_not_move_the_player() {
    let mut walk = started();
    for _ in 0..50 {
        walk.move_monsters();
        let grid = walk.map();
        assert_eq!(grid.coord_of(1), Ok(Coord::new(1, 1)));
        let all = grid.roster();
        assert_eq!(all.len(), 4);
        for (at, id) in all {
            assert!(grid.can_walk(at));
            assert_eq!(grid.character_at(at), Some(id));
        }
    }
    let frame = walk.next_turn();
    assert_eq!(frame.cursor, Coord::new(1, 1));
    assert!(frame.message.is_some());
    assert_eq!(walk.next_turn().message, None);
}

#[test]
fn messages_pile_up_line_by_line() {
    let mut walk = started();
    walk.draw();
    walk.push_message("one", Color::Red);
    walk.push_message("", Color::Reset);
    walk.push_message("three", Color::Green);
    assert_eq!(
        walk.draw_message(),
        Some((
            Coord::new(0, 11),
            "\u{1b}[38;5;1mone\r\n\u{1b}[39m\r\n\u{1b}[38;5;2mthree".to_string()
        ))
    );
    assert_eq!(walk.draw_message(), None);
    assert_eq!(walk.draw_map(), walk.map().image());
    assert_eq!(walk.draw_characters().len(), 4);
}

#[test]
fn the_terminal_counts_from_one() {
    assert_eq!(screen_cell(Coord::new(0, 0)), Some((1, 1)));
    assert_eq!(screen_cell(Coord::new(0, 11)), Some((1, 12)));
    assert_eq!(screen_cell(Coord::new(23, 10)), Some((24, 11)));
    assert_eq!(screen_cell(Coord::new(65534, 65534)), Some((65535, 65535)));
    assert_eq!(screen_cell(Coord::new(65535, 0)), None);
    assert_eq!(screen_cell(Coord::new(0, 65535)), None);
    assert_eq!(screen_cell(Coord::new(-1, 0)), None);
    assert_eq!(screen_cell(Coord::new(0, i32::MIN)), None);
    assert_eq!(screen_cell(Coord::new(i32::MAX, i32::MAX)), None);
}

#[test]
fn a_new_game_is_not_set_up() {
    for mut walk in [Walk::new(), Walk::with_rules(CheckOrder::EntityFirst, true)] {
        {
            let grid = walk.map();
            assert_eq!(grid.characters(), vec![]);
            assert_eq!(grid.coord_of(1), Err(WorldError::NotPlaced));
            assert_eq!(grid.image(), LEVEL.join("\r\n") + "\r\n");
        }
        assert_eq!(walk.direction_of('j'), Some(Direction::S));
        assert_eq!(walk.direction_of('n'), Some(Direction::SE));
        assert_eq!(walk.direction_of('x'), None);
        assert_eq!(walk.draw_message(), None);
        walk.init();
        let grid = walk.map();
        assert_eq!(
            grid.roster(),
            vec![
                (Coord::new(1, 1), 1),
                (Coord::new(3, 6), 3),
                (Coord::new(3, 7), 4),
                (Coord::new(3, 8), 5),
            ]
        );
        assert_eq!(
            walk.draw_message(),
            Some((Coord::new(0, 11), "\u{1b}[39mwelcome hero".to_string()))
        );
    }
}

#[test]
fn the_frame_holds_the_level_as_text() {
    let mut walk = started();
    let frame = walk.draw();
    assert!(!frame.map.contains('\u{1b}'));
    assert_eq!(frame.map, walk.draw_map());
    let painted = walk.map().painted();
    assert!(painted.starts_with("\u{1b}[39m#"));
    assert_eq!(painted.matches("\u{1b}[38;5;2m.").count(), 148);
    assert_eq!(painted.matches("\u{1b}[39m#").count(), 110);
    assert_eq!(painted.matches("\u{1b}[39m ").count(), 6);
}
