use vstd::prelude::*;
use vstd::string::StringExecFns;
use crate::character::Character;
use crate::color::{foreground, tile_image, Color};
use crate::coord::Coord;
use crate::direction::{random_direction, Direction};
use crate::entity::{lookup, Entity, EntityId, Stored};
use crate::error::WorldError;
use crate::map::{
    bound, design_rows, holds, key_of, line_end, lists, plain, without_value, GridMap,
};
use crate::world::{
    attempted, grid_of, killed, regrouped, verdict, CheckOrder, MoveResult, World,
};

verus! {

broadcast use vstd::string::group_string_axioms;

/// A key of the keyboard, as far as the game tells keys apart.
#[derive(Debug, Clone, Copy, PartialEq, Eq, Structural)]
pub enum Key {
    /// A key that types a character.
    Char(char),
    /// A character typed with the control key held down.
    Ctrl(char),
    /// Any other key.
    Other,
}

/// What the terminal reports.
#[derive(Debug, Clone, Copy, PartialEq, Eq, Structural)]
pub enum Event {
    Key(Key),
    /// Anything that is no key press.
    Other,
}

/// Whether the game goes on.
#[derive(Debug, Clone, Copy, PartialEq, Eq, Structural)]
pub enum WalkState {
    Continue,
    Quit,
}

/// What is to be drawn after a turn. The one who draws clears the screen, writes
/// the level from the top left corner, writes each picture of `characters` at its
/// coordinate, writes the message at its coordinate if there is one, and leaves
/// the cursor at `cursor`. `map` is the level as text; a terminal that shows
/// colours is given what `GridMap::painted` returns in its place.
#[derive(Debug, PartialEq, Eq)]
pub struct Frame {
    pub map: String,
    pub characters: Vec<(Coord, String)>,
    pub message: Option<(Coord, String)>,
    pub cursor: Coord,
}

/// The column and the row of the terminal that show the cell at `coord`: the
/// terminal counts both from 1. `None` for a coordinate that no terminal shows.
pub open spec fn cell_on_screen(coord: Coord) -> Option<(u16, u16)> {
    if 0 <= coord.x < u16::MAX && 0 <= coord.y < u16::MAX {
        Some(((coord.x + 1) as u16, (coord.y + 1) as u16))
    } else {
        None
    }
}

/// The column and the row of the terminal that show the cell at `coord`.
#[verifier::when_used_as_spec(cell_on_screen)]
pub fn screen_cell(coord: Coord) -> (cell: Option<(u16, u16)>)
    ensures
        cell == cell_on_screen(coord),
{
    if 0 <= coord.x && coord.x < 65535 && 0 <= coord.y && coord.y < 65535 {
        Some(((coord.x + 1) as u16, (coord.y + 1) as u16))
    } else {
        None
    }
}

/// The level that a new game is played on.
pub open spec fn level_design() -> Seq<&'static str> {
    seq![
        "########################",
        "#......................#",
        "#....########.###......#",
        "#....#..........#......#",
        "#....#.xxx.#....#......#",
        "#....#.xxx.#....#####..#",
        "#....#.....#....#....#.#",
        "#....##.####.........#.#",
        "#...........##########.#",
        "#......................#",
        "########################",
    ]
}

/// The keys that move the player, each with its direction.
pub open spec fn key_table() -> Seq<(char, Direction)> {
    seq![
        ('j', Direction::S),
        ('k', Direction::N),
        ('l', Direction::E),
        ('h', Direction::W),
        ('y', Direction::NW),
        ('u', Direction::NE),
        ('b', Direction::SW),
        ('n', Direction::SE),
    ]
}

/// The direction that the first entry of `table` for `key` names.
pub open spec fn bound_direction(table: Seq<(char, Direction)>, key: char) -> Option<Direction>
    decreases table.len(),
{
    if table.len() == 0 {
        None
    } else if table[0].0 == key {
        Some(table[0].1)
    } else {
        bound_direction(table.drop_first(), key)
    }
}

/// Where the message is written: the first column of the line below the level.
pub open spec fn message_line() -> Coord {
    Coord { x: 0, y: 11 }
}

/// Where the player starts.
pub open spec fn player_start() -> Coord {
    Coord { x: 1, y: 1 }
}

/// Where the orc with the given number starts.
pub open spec fn orc_start(number: int) -> Coord {
    Coord { x: 3, y: (6 + number) as i32 }
}

/// Who stands where when `count` orcs have been put on the level: the player and
/// the orcs, whose ids begin at `first`.
pub open spec fn starting_places(player: EntityId, first: EntityId, count: int) -> Map<
    Coord,
    EntityId,
> {
    Map::new(
        |c: Coord| c == player_start() || (c.x == 3 && 6 <= c.y < 6 + count),
        |c: Coord|
            if c == player_start() {
                player
            } else {
                (first + (c.y - 6)) as u64
            },
    )
}

/// The message after `text` is added in `color`: on a line of its own, below what
/// the message held before.
pub open spec fn pushed(message: Seq<char>, color: Color, text: Seq<char>) -> Seq<char> {
    if message.len() == 0 {
        color.code() + text
    } else {
        message + line_end() + color.code() + text
    }
}

/// Whether the record under `id` is a character of this look and name.
pub open spec fn character_is(
    store: Map<EntityId, Entity>,
    id: EntityId,
    glyph: char,
    color: Color,
    name: Seq<char>,
) -> bool {
    &&& lookup::<Character>(store, id) is Ok
    &&& Character::unpack(store[id]).picture() == tile_image(glyph, color)
    &&& Character::unpack(store[id]).label() == name
}

/// The name of the character under `id`.
pub open spec fn name_of(store: Map<EntityId, Entity>, id: EntityId) -> Seq<char> {
    Character::unpack(store[id]).label()
}

/// Whether the world is one that a game can be played in: the player is a
/// character and stands on the level, the level is a grid, and whoever stands on
/// the level is a character.
pub open spec fn settled(store: Map<EntityId, Entity>, player: EntityId, map_id: EntityId) -> bool {
    &&& lookup::<Character>(store, player) is Ok
    &&& lookup::<GridMap>(store, map_id) is Ok
    &&& grid_of(store, map_id).wf()
    &&& grid_of(store, map_id).position(player) is Some
    &&& forall|c: Coord| #[trigger]
        grid_of(store, map_id).occupants().contains_key(c) ==> lookup::<Character>(
            store,
            grid_of(store, map_id).occupants()[c],
        ) is Ok
}

/// Whether `pictures` shows the entities of `entries`, one for one: each at its
/// coordinate, with the picture of its character.
pub open spec fn shows_all(
    pictures: Seq<(Coord, String)>,
    entries: Seq<(Coord, EntityId)>,
    store: Map<EntityId, Entity>,
) -> bool {
    &&& pictures.len() == entries.len()
    &&& forall|i: int|
        0 <= i < entries.len() ==> (#[trigger] pictures[i]).0 == entries[i].0 && pictures[i].1@
            == Character::unpack(store[entries[i].1]).picture()
}

/// Whether `frame` shows the world and the message: the level as text, the
/// entities on it in the order of their ids, the message if it is not empty, and
/// the cursor on the player.
pub open spec fn drawn(
    store: Map<EntityId, Entity>,
    message: Seq<char>,
    player: EntityId,
    map_id: EntityId,
    frame: Frame,
) -> bool {
    let grid = grid_of(store, map_id);
    &&& frame.map@ == plain(grid.rows())
    &&& exists|entries: Seq<(Coord, EntityId)>| #[trigger]
        lists(entries, grid.occupants()) && shows_all(frame.characters@, entries, store)
    &&& match frame.message {
        Some((at, text)) => message.len() > 0 && at == message_line() && text@ == message,
        None => message.len() == 0,
    }
    &&& Some(frame.cursor) == grid.position(player)
}

/// The ids of the entities of `entries` other than the player, in the order of
/// `entries`.
pub open spec fn others(entries: Seq<(Coord, EntityId)>, player: EntityId) -> Seq<EntityId>
    decreases entries.len(),
{
    if entries.len() == 0 {
        Seq::empty()
    } else if entries.last().1 == player {
        others(entries.drop_last(), player)
    } else {
        others(entries.drop_last(), player).push(entries.last().1)
    }
}

/// The entities that `moves` names, in order.
pub open spec fn movers(moves: Seq<(EntityId, Direction)>) -> Seq<EntityId> {
    Seq::new(moves.len(), |i: int| moves[i].0)
}

/// What a march does: `after` is the world in which each entity of `moves`, in
/// turn, has tried its step on the grid under `map_id`.
pub open spec fn marched(
    before: Map<EntityId, Entity>,
    after: Map<EntityId, Entity>,
    map_id: EntityId,
    order: CheckOrder,
    moves: Seq<(EntityId, Direction)>,
) -> bool
    decreases moves.len(),
{
    if moves.len() == 0 {
        after == before
    } else {
        exists|mid: Map<EntityId, Entity>, result: Result<MoveResult, WorldError>|
            #![trigger attempted(mid, after, moves.last().0, map_id, moves.last().1, order, result)]
            marched(before, mid, map_id, order, moves.drop_last()) && attempted(
                mid,
                after,
                moves.last().0,
                map_id,
                moves.last().1,
                order,
                result,
            )
    }
}

/// What the monsters' part of a turn does: every entity on the level but the
/// player, in the order of their ids, tries one step in some direction.
pub open spec fn monsters_moved(
    before: Map<EntityId, Entity>,
    after: Map<EntityId, Entity>,
    player: EntityId,
    map_id: EntityId,
    order: CheckOrder,
) -> bool {
    exists|entries: Seq<(Coord, EntityId)>, moves: Seq<(EntityId, Direction)>|
        #![trigger lists(entries, grid_of(before, map_id).occupants()), movers(moves)]
        lists(entries, grid_of(before, map_id).occupants()) && movers(moves) == others(
            entries,
            player,
        ) && marched(before, after, map_id, order, moves)
}

/// What the player's part of a turn does. A step that is taken moves the player.
/// A step that the terrain blocks changes nothing, and ends the turn only where
/// `turn_on_block` says so. A step that another entity blocks kills that entity:
/// the kill is announced in red, and the entity leaves the grid and the world.
/// `advanced` says whether the turn goes on to the monsters.
pub open spec fn struck(
    before: Map<EntityId, Entity>,
    after: Map<EntityId, Entity>,
    said_before: Seq<char>,
    said_after: Seq<char>,
    player: EntityId,
    map_id: EntityId,
    order: CheckOrder,
    direction: Direction,
    turn_on_block: bool,
    advanced: bool,
) -> bool {
    let grid = grid_of(before, map_id);
    match verdict(grid, grid.position(player)->0, direction, player, order) {
        MoveResult::Moved => attempted(
            before,
            after,
            player,
            map_id,
            direction,
            order,
            Ok::<MoveResult, WorldError>(MoveResult::Moved),
        ) && said_after == said_before && advanced,
        MoveResult::BlockedByTerrain => after == before && said_after == said_before && advanced
            == turn_on_block,
        MoveResult::BlockedByEntity(other) => killed(before, after, other, map_id) && said_after
            == pushed(said_before, Color::Red, "kill "@ + name_of(before, other)) && advanced,
    }
}

/// What the rest of a turn does once the player has acted: the monsters move,
/// then `frame` shows the world and what was to be said, and the message is
/// empty again.
pub open spec fn turned(
    before: Map<EntityId, Entity>,
    after: Map<EntityId, Entity>,
    said_before: Seq<char>,
    said_after: Seq<char>,
    player: EntityId,
    map_id: EntityId,
    order: CheckOrder,
    frame: Frame,
) -> bool {
    &&& monsters_moved(before, after, player, map_id, order)
    &&& drawn(after, said_before, player, map_id, frame)
    &&& said_after == Seq::<char>::empty()
}

/// What a whole turn does when the player asks for a step in `direction`: the
/// player acts, and if that ends the player's part, the rest of the turn follows
/// and `frame` holds what is to be drawn.
pub open spec fn played(
    before: Map<EntityId, Entity>,
    after: Map<EntityId, Entity>,
    said_before: Seq<char>,
    said_after: Seq<char>,
    player: EntityId,
    map_id: EntityId,
    order: CheckOrder,
    direction: Direction,
    turn_on_block: bool,
    frame: Option<Frame>,
) -> bool {
    exists|mid: Map<EntityId, Entity>, said: Seq<char>, advanced: bool|
        #![trigger struck(
            before, mid, said_before, said, player, map_id, order, direction, turn_on_block, advanced,
        )]
        struck(
            before,
            mid,
            said_before,
            said,
            player,
            map_id,
            order,
            direction,
            turn_on_block,
            advanced,
        ) && if advanced {
            frame matches Some(shown) && turned(
                mid,
                after,
                said,
                said_after,
                player,
                map_id,
                order,
                shown,
            )
        } else {
            frame is None && after == mid && said_after == said
        }
}

/// A settled world stays settled when somebody tries a step.
pub proof fn lemma_attempt_settled(
    before: Map<EntityId, Entity>,
    after: Map<EntityId, Entity>,
    player: EntityId,
    map_id: EntityId,
    ch: EntityId,
    direction: Direction,
    order: CheckOrder,
    result: Result<MoveResult, WorldError>,
)
    requires
        settled(before, player, map_id),
        attempted(before, after, ch, map_id, direction, order, result),
    ensures
        settled(after, player, map_id),
{
    if result == Ok::<MoveResult, WorldError>(MoveResult::Moved) {
        let grid = grid_of(before, map_id);
        let from = grid.position(ch)->0;
        let to = from.plus(direction.step());
        let occ = grid.occupants();
        let occ2 = grid_of(after, map_id).occupants();
        grid.lemma_bijection();
        World::lemma_move_correct(before, after, ch, map_id, direction, order);
        assert(occ.contains_key(from) && occ[from] == ch);
        assert(occ2 == bound(occ, to, ch));
        assert forall|c: Coord| #[trigger] occ2.contains_key(c) implies lookup::<Character>(
            after,
            occ2[c],
        ) is Ok by {
            let id = occ2[c];
            if c == to {
                assert(id == ch);
                assert(lookup::<Character>(before, occ[from]) is Ok);
            } else {
                assert(occ.contains_key(c) && occ[c] == id);
                assert(lookup::<Character>(before, id) is Ok);
            }
            assert(id != map_id);
            assert(after[id] == before[id]);
        }
        assert(lookup::<Character>(before, player) is Ok);
        assert(after[player] == before[player]);
    }
}

/// A settled world stays settled when an entity that stands on the level, and
/// is not the player, is killed.
pub proof fn lemma_kill_settled(
    before: Map<EntityId, Entity>,
    after: Map<EntityId, Entity>,
    player: EntityId,
    map_id: EntityId,
    ch: EntityId,
)
    requires
        settled(before, player, map_id),
        ch != player,
        lookup::<Character>(before, ch) is Ok,
        killed(before, after, ch, map_id),
    ensures
        settled(after, player, map_id),
{
    let grid = grid_of(before, map_id);
    let occ = grid.occupants();
    let cleared = choose|cleared: Map<EntityId, Entity>|
        regrouped(before, cleared, map_id, without_value(occ, ch)) && after == #[trigger] cleared.remove(
            ch,
        );
    let occ2 = grid_of(cleared, map_id).occupants();
    assert(ch != map_id);
    assert(grid_of(after, map_id) == grid_of(cleared, map_id));
    let at = key_of(occ, player);
    assert(occ.contains_key(at) && occ[at] == player);
    assert(occ2.contains_key(at) && occ2[at] == player);
    assert(cleared[player] == before[player]);
    assert forall|c: Coord| #[trigger] occ2.contains_key(c) implies lookup::<Character>(
        after,
        occ2[c],
    ) is Ok by {
        let id = occ2[c];
        assert(occ.contains_key(c) && occ[c] == id);
        assert(lookup::<Character>(before, id) is Ok);
        assert(id != map_id && id != ch);
        assert(cleared[id] == before[id]);
    }
}

/// The game: the world, who the player is, which level is played, and what is to
/// be said to the player at the next drawing.
pub struct Walk {
    move_key: Vec<(char, Direction)>,
    player: EntityId,
    map: EntityId,
    world: World,
    message: String,
    turn_on_block: bool,
}

impl Walk {
    /// The records of the world, each under its id.
    pub closed spec fn store(&self) -> Map<EntityId, Entity> {
        self.world@
    }

    /// The id of the player.
    pub closed spec fn player(&self) -> EntityId {
        self.player
    }

    /// The id of the level.
    pub closed spec fn level(&self) -> EntityId {
        self.map
    }

    /// The level.
    pub open spec fn grid(&self) -> GridMap {
        grid_of(self.store(), self.level())
    }

    /// What is to be said at the next drawing.
    pub closed spec fn message(&self) -> Seq<char> {
        self.message@
    }

    /// The keys that move the player.
    pub closed spec fn keys(&self) -> Seq<(char, Direction)> {
        self.move_key@
    }

    /// The order in which the movement rule looks for obstacles.
    pub closed spec fn order(&self) -> CheckOrder {
        self.world.order()
    }

    /// Whether a step of the player that the terrain blocks still ends the turn.
    pub closed spec fn turn_on_block(&self) -> bool {
        self.turn_on_block
    }

    /// The id that the next entity gets.
    pub closed spec fn next_id(&self) -> EntityId {
        self.world.next_id()
    }

    /// The world of the game is well-formed.
    pub closed spec fn world_wf(&self) -> bool {
        self.world.wf()
    }

    /// The world is well-formed, a game can be played in it, and the keys are
    /// those of `key_table`.
    pub closed spec fn wf(&self) -> bool {
        &&& self.world.wf()
        &&& settled(self.world@, self.player, self.map)
        &&& self.move_key@ == key_table()
    }

    /// In a well-formed game the world is well-formed and settled, and the keys
    /// are those of `key_table`.
    pub proof fn lemma_wf(&self)
        requires
            self.wf(),
        ensures
            self.world_wf(),
            settled(self.store(), self.player(), self.level()),
            self.keys() == key_table(),
    {
    }

    /// Whether this is a game as it is made, before anybody is put on the level:
    /// the world holds the player, a white `@` called hero, under id 1 and the
    /// level of `level_design` under id 2; nobody stands on the level; nothing is
    /// to be said; and the keys are those of `key_table`.
    pub open spec fn created(&self) -> bool {
        &&& self.world_wf()
        &&& self.player() == 1
        &&& self.level() == 2
        &&& self.next_id() == 3
        &&& self.store().dom() =~= set![1u64, 2u64]
        &&& character_is(self.store(), 1, '@', Color::White, "hero"@)
        &&& lookup::<GridMap>(self.store(), 2) is Ok
        &&& self.grid().wf()
        &&& self.grid().rows() == design_rows(level_design())
        &&& self.grid().occupants() == Map::<Coord, EntityId>::empty()
        &&& self.message() == Seq::<char>::empty()
        &&& self.keys() == key_table()
    }

    /// Whether this is a game at its start, when `init` has set it up: the player
    /// `@`, called hero, and three orcs `o` stand at their starting places on the
    /// level of `level_design`, the player is welcomed, and the keys are those of
    /// `key_table`.
    pub open spec fn at_start(&self) -> bool {
        &&& self.player() == 1
        &&& self.level() == 2
        &&& self.next_id() == 6
        &&& self.store().dom() =~= set![1u64, 2u64, 3u64, 4u64, 5u64]
        &&& character_is(self.store(), 1, '@', Color::White, "hero"@)
        &&& forall|id: EntityId|
            3 <= id <= 5 ==> #[trigger] character_is(self.store(), id, 'o', Color::Green, "orc"@)
        &&& self.grid().rows() == design_rows(level_design())
        &&& self.grid().occupants() == starting_places(1, 3, 3)
        &&& self.message() == pushed(Seq::empty(), Color::Reset, "welcome "@ + "hero"@)
        &&& self.keys() == key_table()
    }

    /// A new game, with the movement rule that looks at the terrain first and
    /// turns that a blocked step does not end. Nobody stands on the level yet:
    /// `init` sets the game up.
    pub fn new() -> (walk: Walk)
        ensures
            walk.created(),
            walk.order() == CheckOrder::TerrainFirst,
            !walk.turn_on_block(),
    {
        Walk::with_rules(CheckOrder::TerrainFirst, false)
    }

    /// A new game with the given rules: the order in which the movement rule
    /// looks for obstacles, and whether a step of the player that the terrain
    /// blocks still ends the turn. Nobody stands on the level yet: `init` sets
    /// the game up.
    pub fn with_rules(order: CheckOrder, turn_on_block: bool) -> (walk: Walk)
        ensures
            walk.created(),
            walk.order() == order,
            walk.turn_on_block() == turn_on_block,
    {
        let mut world = World::with_order(order);
        let player = world.create_entity(Character::new('@', "hero", Color::White));
        let mut design: Vec<&'static str> = Vec::new();
        design.push("########################");
        design.push("#......................#");
        design.push("#....########.###......#");
        design.push("#....#..........#......#");
        design.push("#....#.xxx.#....#......#");
        design.push("#....#.xxx.#....#####..#");
        design.push("#....#.....#....#....#.#");
        design.push("#....##.####.........#.#");
        design.push("#...........##########.#");
        design.push("#......................#");
        design.push("########################");
        assert(design@ =~= level_design());
        let map = world.create_entity(GridMap::new(design));
        let mut move_key: Vec<(char, Direction)> = Vec::new();
        move_key.push(('j', Direction::S));
        move_key.push(('k', Direction::N));
        move_key.push(('l', Direction::E));
        move_key.push(('h', Direction::W));
        move_key.push(('y', Direction::NW));
        move_key.push(('u', Direction::NE));
        move_key.push(('b', Direction::SW));
        move_key.push(('n', Direction::SE));
        assert(move_key@ =~= key_table());
        let walk = Walk {
            move_key,
            player,
            map,
            world,
            message: String::new(),
            turn_on_block,
        };
        proof {
            Character::lemma_pack(Character::unpack(walk.world@[1]));
            GridMap::lemma_pack(GridMap::unpack(walk.world@[2]));
            assert(walk.world@.dom() =~= set![1u64, 2u64]);
        }
        walk
    }

    /// Sets a new game up: puts the player and three orcs on the level and
    /// welcomes the player.
    pub fn init(&mut self)
        requires
            old(self).created(),
        ensures
            final(self).wf(),
            final(self).at_start(),
            final(self).order() == old(self).order(),
            final(self).turn_on_block() == old(self).turn_on_block(),
    {
        let (player, map) = (self.player, self.map);
        let placed = self.world.put_character(player, map, Coord::new(1, 1));
        assert(placed is Ok);
        assert(grid_of(self.world@, 2).occupants() =~= starting_places(1, 3, 0));
        for i in 0..3u64
            invariant
                self.world.wf(),
                self.player == 1,
                self.map == 2,
                player == 1,
                map == 2,
                self.world.order() == old(self).world.order(),
                self.turn_on_block == old(self).turn_on_block,
                self.world.next_id() == 3 + i,
                self.world@.dom() =~= Set::new(|id: EntityId| 1 <= id < 3 + i),
                character_is(self.world@, 1, '@', Color::White, "hero"@),
                forall|id: EntityId|
                    3 <= id < 3 + i ==> #[trigger] character_is(
                        self.world@,
                        id,
                        'o',
                        Color::Green,
                        "orc"@,
                    ),
                lookup::<GridMap>(self.world@, 2) is Ok,
                grid_of(self.world@, 2).wf(),
                grid_of(self.world@, 2).rows() == design_rows(level_design()),
                grid_of(self.world@, 2).occupants() == starting_places(1, 3, i as int),
                self.message@ == Seq::<char>::empty(),
                self.move_key@ == key_table(),
        {
            let orc = Character::new('o', "orc", Color::Green);
            let ghost before = self.world@;
            let orc_id = self.world.create_entity(orc);
            proof {
                Character::lemma_pack(orc);
                assert(grid_of(self.world@, 2) == grid_of(before, 2));
            }
            let ghost made = self.world@;
            let placed = self.world.put_character(orc_id, map, Coord::new(3, 6 + i as i32));
            proof {
                assert(placed is Ok);
                assert(grid_of(self.world@, 2).occupants() =~= starting_places(1, 3, i + 1));
                assert(self.world@.dom() =~= Set::new(|id: EntityId| 1 <= id < 3 + (i + 1)));
                assert forall|id: EntityId| 3 <= id < 3 + (i + 1) implies #[trigger] character_is(
                    self.world@,
                    id,
                    'o',
                    Color::Green,
                    "orc"@,
                ) by {
                    assert(made.contains_key(id));
                    assert(self.world@[id] == made[id]);
                    if id < 3 + i {
                        assert(character_is(before, id, 'o', Color::Green, "orc"@));
                    }
                }
                assert(made.contains_key(1));
                assert(self.world@[1] == made[1]);
            }
        }
        let pname = match self.world.of::<Character>(player) {
            Ok(hero) => hero.name(),
            Err(_) => vstd::pervasive::unreached(),
        };
        let mut text = "welcome ".to_owned();
        text.append(pname.as_str());
        self.push_message(text.as_str(), Color::Reset);
        proof {
            assert(self.world@.dom() =~= set![1u64, 2u64, 3u64, 4u64, 5u64]);
            let grid = grid_of(self.world@, 2);
            assert(grid.occupants().contains_key(player_start()));
            assert(grid.occupants()[player_start()] == 1);
            assert(holds(grid.occupants(), 1));
            assert forall|c: Coord| #[trigger] grid.occupants().contains_key(c) implies lookup::<
                Character,
            >(self.world@, grid.occupants()[c]) is Ok by {
                if c != player_start() {
                    assert(character_is(
                        self.world@,
                        grid.occupants()[c],
                        'o',
                        Color::Green,
                        "orc"@,
                    ));
                }
            }
        }
    }

    /// Adds `message`, in `color`, to what is said at the next drawing.
    pub fn push_message(&mut self, message: &str, color: Color)
        ensures
            final(self).message() == pushed(old(self).message(), color, message@),
            final(self).store() == old(self).store(),
            final(self).player() == old(self).player(),
            final(self).level() == old(self).level(),
            final(self).keys() == old(self).keys(),
            final(self).order() == old(self).order(),
            final(self).turn_on_block() == old(self).turn_on_block(),
            final(self).next_id() == old(self).next_id(),
            old(self).wf() ==> final(self).wf(),
            old(self).world_wf() ==> final(self).world_wf(),
    {
        let mut new_message = foreground(color);
        new_message.append(message);
        if !self.message.as_str().is_empty() {
            proof {
                reveal_strlit("\r\n");
            }
            self.message.append("\r\n");
        }
        self.message.append(new_message.as_str());
        assert(self.message@ =~= pushed(old(self).message@, color, message@));
    }

    /// Whether the two are the same game but for the world and the message: the
    /// same player on the same level, with the same keys and rules.
    pub open spec fn same_game(&self, other: Walk) -> bool {
        &&& self.player() == other.player()
        &&& self.level() == other.level()
        &&& self.keys() == other.keys()
        &&& self.order() == other.order()
        &&& self.turn_on_block() == other.turn_on_block()
    }

    /// The direction that `key` moves the player in, if it is a key that does.
    pub fn direction_of(&self, key: char) -> (direction: Option<Direction>)
        ensures
            direction == bound_direction(self.keys(), key),
    {
        let ghost table = self.move_key@;
        assert(table.skip(0) =~= table);
        for i in 0..self.move_key.len()
            invariant
                table == self.move_key@,
                bound_direction(table, key) == bound_direction(table.skip(i as int), key),
        {
            if self.move_key[i].0 == key {
                return Some(self.move_key[i].1);
            }
            assert(table.skip(i as int).drop_first() =~= table.skip(i + 1));
        }
        None
    }

    /// The level as it is written to the terminal.
    pub fn draw_map(&self) -> (image: String)
        requires
            self.wf(),
        ensures
            image@ == plain(self.grid().rows()),
    {
        match self.world.of::<GridMap>(self.map) {
            Ok(grid) => grid.image(),
            Err(_) => vstd::pervasive::unreached(),
        }
    }

    /// The picture of everybody on the level, each with its coordinate, in the
    /// order of the entities' ids.
    pub fn draw_characters(&self) -> (pictures: Vec<(Coord, String)>)
        requires
            self.wf(),
        ensures
            exists|entries: Seq<(Coord, EntityId)>| #[trigger]
                lists(entries, self.grid().occupants()) && shows_all(
                    pictures@,
                    entries,
                    self.store(),
                ),
    {
        let entries = match self.world.of::<GridMap>(self.map) {
            Ok(grid) => grid.roster(),
            Err(_) => vstd::pervasive::unreached(),
        };
        let mut pictures: Vec<(Coord, String)> = Vec::new();
        for i in 0..entries.len()
            invariant
                self.wf(),
                lists(entries@, self.grid().occupants()),
                pictures@.len() == i,
                forall|j: int|
                    0 <= j < i ==> (#[trigger] pictures@[j]).0 == entries@[j].0 && pictures@[j].1@
                        == Character::unpack(self.store()[entries@[j].1]).picture(),
        {
            let (coord, id) = entries[i];
            assert(entries@.contains(entries@[i as int]));
            let image = match self.world.of::<Character>(id) {
                Ok(character) => character.image(),
                Err(_) => vstd::pervasive::unreached(),
            };
            pictures.push((coord, image));
        }
        assert(lists(entries@, self.grid().occupants()) && shows_all(
            pictures@,
            entries@,
            self.store(),
        ));
        pictures
    }

    /// What is to be said, with the place to write it, if anything is to be said.
    /// After this nothing is left to say.
    pub fn draw_message(&mut self) -> (said: Option<(Coord, String)>)
        ensures
            match said {
                Some((at, text)) => old(self).message().len() > 0 && at == message_line() && text@
                    == old(self).message(),
                None => old(self).message().len() == 0,
            },
            final(self).message() == Seq::<char>::empty(),
            final(self).store() == old(self).store(),
            final(self).next_id() == old(self).next_id(),
            final(self).same_game(*old(self)),
            old(self).wf() ==> final(self).wf(),
            old(self).world_wf() ==> final(self).world_wf(),
    {
        if self.message.as_str().is_empty() {
            assert(self.message@ =~= Seq::<char>::empty());
            return None;
        }
        let mut text = String::new();
        std::mem::swap(&mut text, &mut self.message);
        Some((Coord::new(0, 11), text))
    }

    /// Where the cursor is left: on the player.
    pub fn move_cursor_to_player(&self) -> (at: Coord)
        requires
            self.wf(),
        ensures
            Some(at) == self.grid().position(self.player()),
    {
        let found = match self.world.of::<GridMap>(self.map) {
            Ok(grid) => grid.coord_of(self.player),
            Err(_) => vstd::pervasive::unreached(),
        };
        match found {
            Ok(at) => at,
            Err(_) => vstd::pervasive::unreached(),
        }
    }

    /// Everything that is to be drawn now. What was to be said is said with it.
    pub fn draw(&mut self) -> (frame: Frame)
        requires
            old(self).wf(),
        ensures
            final(self).wf(),
            drawn(old(self).store(), old(self).message(), old(self).player(), old(self).level(), frame),
            final(self).message() == Seq::<char>::empty(),
            final(self).store() == old(self).store(),
            final(self).next_id() == old(self).next_id(),
            final(self).same_game(*old(self)),
    {
        let map = self.draw_map();
        let characters = self.draw_characters();
        let message = self.draw_message();
        let cursor = self.move_cursor_to_player();
        Frame { map, characters, message, cursor }
    }

    /// Lets `entity` try one step in `direction` on the level.
    pub fn move_character(&mut self, entity: EntityId, direction: Direction) -> (result: Result<
        MoveResult,
        WorldError,
    >)
        requires
            old(self).wf(),
        ensures
            final(self).wf(),
            attempted(
                old(self).store(),
                final(self).store(),
                entity,
                old(self).level(),
                direction,
                old(self).order(),
                result,
            ),
            final(self).message() == old(self).message(),
            final(self).next_id() == old(self).next_id(),
            final(self).same_game(*old(self)),
    {
        let result = self.world.move_character(entity, self.map, direction);
        proof {
            lemma_attempt_settled(
                old(self).world@,
                self.world@,
                self.player,
                self.map,
                entity,
                direction,
                self.world.order(),
                result,
            );
        }
        result
    }

    /// The character under `id`, to be changed in place.
    pub fn character(&mut self, id: EntityId) -> (found: Result<&mut Character, WorldError>)
        requires
            old(self).wf(),
        ensures
            final(self).wf(),
            final(self).message() == old(self).message(),
            final(self).next_id() == old(self).next_id(),
            final(self).same_game(*old(self)),
            match found {
                Ok(value) => lookup::<Character>(old(self).store(), id) == Ok::<
                    Character,
                    WorldError,
                >(*value) && final(self).store() == old(self).store().insert(
                    id,
                    (*final(value)).pack(),
                ),
                Err(e) => lookup::<Character>(old(self).store(), id) == Err::<
                    Character,
                    WorldError,
                >(e) && final(self).store() == old(self).store(),
            },
    {
        match self.world.character(id) {
            Ok(value) => {
                proof {
                    let changed = old(self).store().insert(id, (*final(value)).pack());
                    assert(id != old(self).map);
                    assert(grid_of(changed, old(self).map) == grid_of(
                        old(self).store(),
                        old(self).map,
                    ));
                    assert(settled(changed, old(self).player, old(self).map));
                }
                Ok(value)
            },
            Err(e) => Err(e),
        }
    }

    /// The level, to be read.
    pub fn map(&self) -> (grid: &GridMap)
        requires
            self.wf() || self.created(),
        ensures
            *grid == self.grid(),
            grid.wf(),
    {
        match self.world.of::<GridMap>(self.map) {
            Ok(grid) => grid,
            Err(_) => vstd::pervasive::unreached(),
        }
    }

    /// Lets each entity of `moves`, in turn, try its step on the level.
    pub fn march(&mut self, moves: &Vec<(EntityId, Direction)>)
        requires
            old(self).wf(),
        ensures
            final(self).wf(),
            marched(
                old(self).store(),
                final(self).store(),
                old(self).level(),
                old(self).order(),
                moves@,
            ),
            final(self).message() == old(self).message(),
            final(self).next_id() == old(self).next_id(),
            final(self).same_game(*old(self)),
    {
        for i in 0..moves.len()
            invariant
                self.wf(),
                marched(
                    old(self).store(),
                    self.store(),
                    old(self).level(),
                    old(self).order(),
                    moves@.take(i as int),
                ),
                self.message() == old(self).message(),
                self.next_id() == old(self).next_id(),
                self.same_game(*old(self)),
        {
            let ghost mid = self.store();
            let (id, direction) = moves[i];
            let result = self.move_character(id, direction);
            proof {
                assert(moves@.take(i + 1).drop_last() =~= moves@.take(i as int));
                assert(moves@.take(i + 1).last() == moves@[i as int]);
                assert(marched(
                    old(self).store(),
                    mid,
                    old(self).level(),
                    old(self).order(),
                    moves@.take(i + 1).drop_last(),
                ) && attempted(
                    mid,
                    self.store(),
                    moves@.take(i + 1).last().0,
                    old(self).level(),
                    moves@.take(i + 1).last().1,
                    old(self).order(),
                    result,
                ));
                assert(marched(
                    old(self).store(),
                    self.store(),
                    old(self).level(),
                    old(self).order(),
                    moves@.take(i + 1),
                ));
            }
        }
        assert(moves@.take(moves@.len() as int) =~= moves@);
    }

    /// Lets every entity on the level but the player, in the order of their ids,
    /// try one step in a direction picked at random.
    pub fn move_monsters(&mut self)
        requires
            old(self).wf(),
        ensures
            final(self).wf(),
            monsters_moved(
                old(self).store(),
                final(self).store(),
                old(self).player(),
                old(self).level(),
                old(self).order(),
            ),
            final(self).message() == old(self).message(),
            final(self).next_id() == old(self).next_id(),
            final(self).same_game(*old(self)),
    {
        let entries = self.map().roster();
        let mut moves: Vec<(EntityId, Direction)> = Vec::new();
        for i in 0..entries.len()
            invariant
                movers(moves@) == others(entries@.take(i as int), self.player),
        {
            assert(entries@.take(i + 1).drop_last() =~= entries@.take(i as int));
            if entries[i].1 != self.player {
                moves.push((entries[i].1, random_direction()));
                assert(movers(moves@) =~= others(entries@.take(i + 1), self.player));
            }
        }
        assert(entries@.take(entries@.len() as int) =~= entries@);
        self.march(&moves);
        assert(lists(entries@, grid_of(old(self).store(), old(self).level()).occupants())
            && movers(moves@) == others(entries@, old(self).player()));
    }

    /// The rest of a turn once the player has acted: the monsters move, and what
    /// is to be drawn is handed back.
    pub fn next_turn(&mut self) -> (frame: Frame)
        requires
            old(self).wf(),
        ensures
            final(self).wf(),
            turned(
                old(self).store(),
                final(self).store(),
                old(self).message(),
                final(self).message(),
                old(self).player(),
                old(self).level(),
                old(self).order(),
                frame,
            ),
            final(self).next_id() == old(self).next_id(),
            final(self).same_game(*old(self)),
    {
        self.move_monsters();
        self.draw()
    }

    /// A turn in which the player asks for a step in `direction`. `None` is handed
    /// back where the step did not end the player's part of the turn, and else
    /// what is to be drawn when the turn is over.
    pub fn move_player(&mut self, direction: Direction) -> (frame: Option<Frame>)
        requires
            old(self).wf(),
        ensures
            final(self).wf(),
            played(
                old(self).store(),
                final(self).store(),
                old(self).message(),
                final(self).message(),
                old(self).player(),
                old(self).level(),
                old(self).order(),
                direction,
                old(self).turn_on_block(),
                frame,
            ),
            final(self).next_id() == old(self).next_id(),
            final(self).same_game(*old(self)),
    {
        let player = self.player;
        let outcome = match self.move_character(player, direction) {
            Ok(outcome) => outcome,
            Err(_) => vstd::pervasive::unreached(),
        };
        match outcome {
            MoveResult::BlockedByEntity(m) => {
                proof {
                    let grid = grid_of(old(self).store(), old(self).level());
                    let from = grid.position(player)->0;
                    let to = from.plus(direction.step());
                    assert(grid.occupants().contains_key(to) && grid.occupants()[to] == m);
                }
                let name = match self.world.of::<Character>(m) {
                    Ok(victim) => victim.name(),
                    Err(_) => vstd::pervasive::unreached(),
                };
                let mut text = "kill ".to_owned();
                text.append(name.as_str());
                self.push_message(text.as_str(), Color::Red);
                let done = self.world.kill(m, self.map);
                assert(done is Ok);
                proof {
                    lemma_kill_settled(old(self).world@, self.world@, self.player, self.map, m);
                }
            },
            MoveResult::BlockedByTerrain => {
                if !self.turn_on_block {
                    proof {
                        assert(struck(
                            old(self).store(),
                            self.store(),
                            old(self).message(),
                            self.message(),
                            old(self).player(),
                            old(self).level(),
                            old(self).order(),
                            direction,
                            old(self).turn_on_block(),
                            false,
                        ));
                    }
                    return None;
                }
            },
            MoveResult::Moved => {},
        }
        let ghost mid = self.store();
        let ghost said = self.message();
        assert(struck(
            old(self).store(),
            mid,
            old(self).message(),
            said,
            old(self).player(),
            old(self).level(),
            old(self).order(),
            direction,
            old(self).turn_on_block(),
            true,
        ));
        let frame = self.next_turn();
        Some(frame)
    }

    /// Takes one event from the terminal. Control-c ends the game. A key that
    /// moves the player plays a turn. Anything else is passed over.
    pub fn process_event(&mut self, event: Event) -> (result: (WalkState, Option<Frame>))
        requires
            old(self).wf(),
        ensures
            final(self).wf(),
            final(self).next_id() == old(self).next_id(),
            final(self).same_game(*old(self)),
            match event {
                Event::Key(Key::Ctrl(c)) if c == 'c' => result.0 == WalkState::Quit && result.1
                    is None && final(self).store() == old(self).store() && final(self).message()
                    == old(self).message(),
                Event::Key(Key::Char(c)) if bound_direction(old(self).keys(), c) is Some
                    => result.0 == WalkState::Continue && played(
                    old(self).store(),
                    final(self).store(),
                    old(self).message(),
                    final(self).message(),
                    old(self).player(),
                    old(self).level(),
                    old(self).order(),
                    bound_direction(old(self).keys(), c)->0,
                    old(self).turn_on_block(),
                    result.1,
                ),
                _ => result.0 == WalkState::Continue && result.1 is None && final(self).store()
                    == old(self).store() && final(self).message() == old(self).message(),
            },
    {
        match event {
            Event::Key(Key::Ctrl(c)) => {
                if c == 'c' {
                    return (WalkState::Quit, None);
                }
            },
            Event::Key(Key::Char(c)) => {
                if let Some(direction) = self.direction_of(c) {
                    let frame = self.move_player(direction);
                    return (WalkState::Continue, frame);
                }
            },
            _ => {},
        }
        (WalkState::Continue, None)
    }
}

} // verus!
