use vstd::prelude::*;
use crate::character::Character;
use crate::coord::Coord;
use crate::direction::Direction;
use crate::entity::{lookup, Entity, EntityId, EntitySystem, Stored};
use crate::error::WorldError;
use crate::map::{bound, holds, key_of, without_value, GridMap};

verus! {

/// How an attempt to move ended.
#[derive(Debug, Clone, Copy, PartialEq, Eq, Structural)]
pub enum MoveResult {
    /// The entity stands on the cell it moved towards.
    Moved,
    /// The cell cannot be entered: it is wall or void, or lies outside the grid.
    BlockedByTerrain,
    /// The cell is held by the entity named.
    BlockedByEntity(EntityId),
}

/// Which obstacle the movement rule looks for first. The two orders differ only
/// where another entity stands on a cell that cannot be entered.
#[derive(Debug, Clone, Copy, PartialEq, Eq, Structural)]
pub enum CheckOrder {
    TerrainFirst,
    EntityFirst,
}

/// Where one step in `direction` from `from` leads, if that is a coordinate.
pub open spec fn destination(from: Coord, direction: Direction) -> Option<Coord> {
    if from.can_add(direction.step()) {
        Some(from.plus(direction.step()))
    } else {
        None
    }
}

/// Whether the step from `from` leads to a cell that can be entered.
pub open spec fn way_is_open(grid: GridMap, from: Coord, direction: Direction) -> bool {
    destination(from, direction) matches Some(to) && grid.walkable(to)
}

/// The entity other than `id` that holds the cell the step leads to, if any.
pub open spec fn in_the_way(
    grid: GridMap,
    from: Coord,
    direction: Direction,
    id: EntityId,
) -> Option<EntityId> {
    match destination(from, direction) {
        Some(to) => match grid.occupant(to) {
            Some(other) if other != id => Some(other),
            _ => None,
        },
        None => None,
    }
}

/// What the movement rule says of the step of `id` from `from` in `direction`.
pub open spec fn verdict(
    grid: GridMap,
    from: Coord,
    direction: Direction,
    id: EntityId,
    order: CheckOrder,
) -> MoveResult {
    let open = way_is_open(grid, from, direction);
    let other = in_the_way(grid, from, direction, id);
    match order {
        CheckOrder::TerrainFirst => if !open {
            MoveResult::BlockedByTerrain
        } else if other is Some {
            MoveResult::BlockedByEntity(other->0)
        } else {
            MoveResult::Moved
        },
        CheckOrder::EntityFirst => if other is Some {
            MoveResult::BlockedByEntity(other->0)
        } else if !open {
            MoveResult::BlockedByTerrain
        } else {
            MoveResult::Moved
        },
    }
}

/// The grid stored under `id`, where the record there holds a grid.
pub open spec fn grid_of(store: Map<EntityId, Entity>, id: EntityId) -> GridMap {
    GridMap::unpack(store[id])
}

/// `after` is `before` but for the grid under `map_id`: that grid has the same
/// rows and now the given occupants.
pub open spec fn regrouped(
    before: Map<EntityId, Entity>,
    after: Map<EntityId, Entity>,
    map_id: EntityId,
    occupants: Map<Coord, EntityId>,
) -> bool {
    &&& after.dom() =~= before.dom()
    &&& forall|other: EntityId|
        other != map_id && before.contains_key(other) ==> #[trigger] after[other] == before[other]
    &&& lookup::<GridMap>(after, map_id) is Ok
    &&& grid_of(after, map_id).wf()
    &&& grid_of(after, map_id).rows() == grid_of(before, map_id).rows()
    &&& grid_of(after, map_id).occupants() == occupants
}

/// What a kill does: `ch` leaves the grid under `map_id`, then its record is
/// deleted.
pub open spec fn killed(
    before: Map<EntityId, Entity>,
    after: Map<EntityId, Entity>,
    ch: EntityId,
    map_id: EntityId,
) -> bool {
    exists|cleared: Map<EntityId, Entity>|
        #![trigger cleared.remove(ch)]
        regrouped(before, cleared, map_id, without_value(grid_of(before, map_id).occupants(), ch))
            && after == cleared.remove(ch)
}

/// What one attempt to move does: `before` and `after` are the records of the
/// world before and after `ch` tries a step in `direction` on the grid under
/// `map_id`, and `result` is what the attempt returns.
pub open spec fn attempted(
    before: Map<EntityId, Entity>,
    after: Map<EntityId, Entity>,
    ch: EntityId,
    map_id: EntityId,
    direction: Direction,
    order: CheckOrder,
    result: Result<MoveResult, WorldError>,
) -> bool {
    match lookup::<GridMap>(before, map_id) {
        Err(e) => result == Err::<MoveResult, WorldError>(e) && after == before,
        Ok(grid) => match grid.position(ch) {
            None => result == Err::<MoveResult, WorldError>(WorldError::NotPlaced) && after == before,
            Some(from) => {
                let outcome = verdict(grid, from, direction, ch, order);
                &&& result == Ok::<MoveResult, WorldError>(outcome)
                &&& outcome != MoveResult::Moved ==> after == before
                &&& outcome == MoveResult::Moved ==> regrouped(
                    before,
                    after,
                    map_id,
                    bound(grid.occupants(), from.plus(direction.step()), ch),
                )
            },
        },
    }
}

/// The entities and the rule by which they move.
pub struct World {
    entities: EntitySystem,
    order: CheckOrder,
}

impl View for World {
    type V = Map<EntityId, Entity>;

    /// The records of the store, each under its id.
    closed spec fn view(&self) -> Map<EntityId, Entity> {
        self.entities@
    }
}

impl World {
    /// The order in which the movement rule looks for obstacles.
    pub closed spec fn order(&self) -> CheckOrder {
        self.order
    }

    /// The id that the next entity gets.
    pub closed spec fn next_id(&self) -> EntityId {
        self.entities.next_id()
    }

    /// The store is well-formed and so is every record in it.
    pub closed spec fn wf(&self) -> bool {
        &&& self.entities.wf()
        &&& forall|id: EntityId| #[trigger]
            self.entities@.contains_key(id) ==> self.entities@[id].wf()
    }

    /// In a well-formed world every id in use lies below the next one, and every
    /// grid in it is well-formed.
    pub proof fn lemma_wf(&self)
        requires
            self.wf(),
        ensures
            self.next_id() >= 1,
            forall|id: EntityId| #[trigger] self@.contains_key(id) ==> 1 <= id < self.next_id(),
            forall|id: EntityId| #[trigger] self@.contains_key(id) ==> self@[id].wf(),
    {
    }

    /// A step that is taken leads exactly one step in the direction asked for, and
    /// moves nobody else.
    pub proof fn lemma_move_correct(
        before: Map<EntityId, Entity>,
        after: Map<EntityId, Entity>,
        ch: EntityId,
        map_id: EntityId,
        direction: Direction,
        order: CheckOrder,
    )
        requires
            lookup::<GridMap>(before, map_id) is Ok,
            grid_of(before, map_id).wf(),
            attempted(
                before,
                after,
                ch,
                map_id,
                direction,
                order,
                Ok::<MoveResult, WorldError>(MoveResult::Moved),
            ),
        ensures
            grid_of(before, map_id).position(ch) matches Some(from) && grid_of(
                after,
                map_id,
            ).position(ch) == Some(from.plus(direction.step())) && from.can_add(direction.step()),
            forall|other: EntityId|
                other != ch ==> #[trigger] grid_of(after, map_id).position(other) == grid_of(
                    before,
                    map_id,
                ).position(other),
    {
        let old_grid = grid_of(before, map_id);
        let new_grid = grid_of(after, map_id);
        let from = old_grid.position(ch)->0;
        let to = from.plus(direction.step());
        let occ = old_grid.occupants();
        let occ2 = new_grid.occupants();
        old_grid.lemma_bijection();
        new_grid.lemma_bijection();
        assert(verdict(old_grid, from, direction, ch, order) == MoveResult::Moved);
        assert(occ2 == bound(occ, to, ch));
        assert(occ2.contains_key(to) && occ2[to] == ch);
        assert forall|other: EntityId| other != ch implies #[trigger] new_grid.position(other)
            == old_grid.position(other) by {
            if holds(occ, other) {
                let k = key_of(occ, other);
                assert(occ.contains_key(k) && occ[k] == other);
                assert(k != to);
                assert(occ2.contains_key(k) && occ2[k] == other);
                let k2 = key_of(occ2, other);
                assert(occ2.contains_key(k2) && occ2[k2] == other);
            }
            if holds(occ2, other) {
                let k2 = key_of(occ2, other);
                assert(occ2.contains_key(k2) && occ2[k2] == other);
                assert(occ.contains_key(k2) && occ[k2] == other);
            }
        }
    }

    /// Where the rule looks at the terrain first, a step is blocked by terrain if
    /// and only if the cell it leads to cannot be entered, and then nothing moves.
    /// Where the rule looks for entities first, the same holds of every step that
    /// no other entity is in the way of.
    pub proof fn lemma_terrain_blocking(
        before: Map<EntityId, Entity>,
        after: Map<EntityId, Entity>,
        ch: EntityId,
        map_id: EntityId,
        direction: Direction,
        order: CheckOrder,
        result: Result<MoveResult, WorldError>,
    )
        requires
            lookup::<GridMap>(before, map_id) is Ok,
            grid_of(before, map_id).position(ch) is Some,
            attempted(before, after, ch, map_id, direction, order, result),
            order == CheckOrder::EntityFirst ==> in_the_way(
                grid_of(before, map_id),
                grid_of(before, map_id).position(ch)->0,
                direction,
                ch,
            ) is None,
        ensures
            result == Ok::<MoveResult, WorldError>(MoveResult::BlockedByTerrain) <==> !way_is_open(
                grid_of(before, map_id),
                grid_of(before, map_id).position(ch)->0,
                direction,
            ),
            result == Ok::<MoveResult, WorldError>(MoveResult::BlockedByTerrain) ==> after == before,
    {
    }

    /// A step towards a cell that can be entered and that another entity holds is
    /// blocked by that entity, whichever obstacle the rule looks for first, and
    /// then nothing moves.
    pub proof fn lemma_entity_blocking(
        before: Map<EntityId, Entity>,
        after: Map<EntityId, Entity>,
        ch: EntityId,
        map_id: EntityId,
        direction: Direction,
        order: CheckOrder,
        result: Result<MoveResult, WorldError>,
        holder: EntityId,
    )
        requires
            lookup::<GridMap>(before, map_id) is Ok,
            grid_of(before, map_id).position(ch) is Some,
            attempted(before, after, ch, map_id, direction, order, result),
            holder != ch,
            way_is_open(grid_of(before, map_id), grid_of(before, map_id).position(ch)->0, direction),
            grid_of(before, map_id).occupant(
                grid_of(before, map_id).position(ch)->0.plus(direction.step()),
            ) == Some(holder),
        ensures
            result == Ok::<MoveResult, WorldError>(MoveResult::BlockedByEntity(holder)),
            after == before,
    {
    }

    /// An empty world whose movement rule looks at the terrain first.
    pub fn new() -> (world: Self)
        ensures
            world.wf(),
            world@ == Map::<EntityId, Entity>::empty(),
            world.next_id() == 1,
            world.order() == CheckOrder::TerrainFirst,
    {
        World { entities: EntitySystem::new(), order: CheckOrder::TerrainFirst }
    }

    /// An empty world whose movement rule looks for obstacles in the given order.
    pub fn with_order(order: CheckOrder) -> (world: Self)
        ensures
            world.wf(),
            world@ == Map::<EntityId, Entity>::empty(),
            world.next_id() == 1,
            world.order() == order,
    {
        World { entities: EntitySystem::new(), order }
    }

    /// Stores `entity` under an id that no entity had before, and returns the id.
    pub fn create_entity<T: Stored>(&mut self, entity: T) -> (id: EntityId)
        requires
            old(self).wf(),
            entity.pack().wf(),
            old(self).next_id() < u64::MAX,
        ensures
            final(self).wf(),
            final(self).order() == old(self).order(),
            id == old(self).next_id(),
            !old(self)@.contains_key(id),
            final(self)@ == old(self)@.insert(id, entity.pack()),
            final(self).next_id() == id + 1,
    {
        self.entities.register(entity)
    }

    /// The value stored under `id`, read as a `T`.
    pub fn of<T: Stored>(&self, id: EntityId) -> (found: Result<&T, WorldError>)
        ensures
            match found {
                Ok(value) => lookup::<T>(self@, id) == Ok::<T, WorldError>(*value),
                Err(e) => lookup::<T>(self@, id) == Err::<T, WorldError>(e),
            },
    {
        self.entities.of::<T>(id)
    }

    /// The character stored under `id`, to be changed in place.
    pub fn character(&mut self, id: EntityId) -> (found: Result<&mut Character, WorldError>)
        requires
            old(self).wf(),
        ensures
            final(self).wf(),
            final(self).order() == old(self).order(),
            final(self).next_id() == old(self).next_id(),
            match found {
                Ok(value) => lookup::<Character>(old(self)@, id) == Ok::<Character, WorldError>(*value)
                    && final(self)@ == old(self)@.insert(id, (*final(value)).pack()),
                Err(e) => lookup::<Character>(old(self)@, id) == Err::<Character, WorldError>(e)
                    && final(self)@ == old(self)@,
            },
    {
        self.entities.of_mut::<Character>(id)
    }

    /// The grid stored under `id`, to be changed in place. The world stays
    /// well-formed where the grid is left well-formed.
    pub fn map(&mut self, id: EntityId) -> (found: Result<&mut GridMap, WorldError>)
        requires
            old(self).wf(),
        ensures
            final(self).order() == old(self).order(),
            final(self).next_id() == old(self).next_id(),
            match found {
                Ok(value) => value.wf() && lookup::<GridMap>(old(self)@, id) == Ok::<
                    GridMap,
                    WorldError,
                >(*value) && final(self)@ == old(self)@.insert(id, (*final(value)).pack()) && (
                final(value).wf() ==> final(self).wf()),
                Err(e) => lookup::<GridMap>(old(self)@, id) == Err::<GridMap, WorldError>(e)
                    && final(self)@ == old(self)@ && final(self).wf(),
            },
    {
        self.entities.of_mut::<GridMap>(id)
    }

    /// Puts `ch` on the grid `map_id` at `coord`, unless another entity holds the
    /// cell.
    pub fn put_character(&mut self, ch: EntityId, map_id: EntityId, coord: Coord) -> (placed:
        Result<(), WorldError>)
        requires
            old(self).wf(),
        ensures
            final(self).wf(),
            final(self).order() == old(self).order(),
            final(self).next_id() == old(self).next_id(),
            match lookup::<GridMap>(old(self)@, map_id) {
                Err(e) => placed == Err::<(), WorldError>(e) && final(self)@ == old(self)@,
                Ok(grid) => match grid.occupant(coord) {
                    Some(other) if other != ch => placed == Err::<(), WorldError>(WorldError::Occupied)
                        && final(self)@ == old(self)@,
                    _ => placed == Ok::<(), WorldError>(()) && regrouped(
                        old(self)@,
                        final(self)@,
                        map_id,
                        bound(grid.occupants(), coord, ch),
                    ),
                },
            },
    {
        let grid = match self.map(map_id) {
            Ok(grid) => grid,
            Err(e) => {
                return Err(e);
            },
        };
        let placed = grid.place_character(ch, coord);
        proof {
            GridMap::lemma_unpack(old(self)@[map_id]);
            if placed is Err {
                assert(self@ =~= old(self)@);
            }
        }
        placed
    }

    /// Lets `ch` try one step in `direction` on the grid `map_id`. The step is
    /// taken where the cell it leads to can be entered and no other entity holds
    /// it; else nothing changes, and the result names the obstacle.
    pub fn move_character(&mut self, ch: EntityId, map_id: EntityId, direction: Direction) -> (result:
        Result<MoveResult, WorldError>)
        requires
            old(self).wf(),
        ensures
            final(self).wf(),
            final(self).order() == old(self).order(),
            final(self).next_id() == old(self).next_id(),
            attempted(old(self)@, final(self)@, ch, map_id, direction, old(self).order(), result),
    {
        let order = self.order;
        let grid = match self.map(map_id) {
            Ok(grid) => grid,
            Err(e) => {
                return Err(e);
            },
        };
        proof {
            GridMap::lemma_unpack(old(self)@[map_id]);
        }
        let ghost before = *grid;
        let from = match grid.coord_of(ch) {
            Ok(from) => from,
            Err(e) => {
                assert(self@ =~= old(self)@);
                return Err(e);
            },
        };
        let outcome = match from.checked_add(direction.offset()) {
            None => MoveResult::BlockedByTerrain,
            Some(to) => {
                let open = grid.can_walk(to);
                let other = match grid.character_at(to) {
                    Some(other) if other != ch => Some(other),
                    _ => None,
                };
                match order {
                    CheckOrder::TerrainFirst => if !open {
                        MoveResult::BlockedByTerrain
                    } else {
                        match grid.place_character(ch, to) {
                            Ok(_) => MoveResult::Moved,
                            Err(_) => MoveResult::BlockedByEntity(other.unwrap()),
                        }
                    },
                    CheckOrder::EntityFirst => if let Some(holder) = other {
                        MoveResult::BlockedByEntity(holder)
                    } else if !open {
                        MoveResult::BlockedByTerrain
                    } else {
                        let placed = grid.place_character(ch, to);
                        assert(placed is Ok);
                        MoveResult::Moved
                    },
                }
            },
        };
        proof {
            if outcome != MoveResult::Moved {
                assert(*grid == before);
                assert(self@ =~= old(self)@);
            }
        }
        Ok(outcome)
    }

    /// Takes `ch` off the grid `map` and deletes its record.
    pub fn kill(&mut self, ch: EntityId, map: EntityId) -> (done: Result<(), WorldError>)
        requires
            old(self).wf(),
        ensures
            final(self).wf(),
            final(self).order() == old(self).order(),
            final(self).next_id() == old(self).next_id(),
            match lookup::<GridMap>(old(self)@, map) {
                Err(e) => done == Err::<(), WorldError>(e) && final(self)@ == old(self)@,
                Ok(_) => done == Ok::<(), WorldError>(()) && killed(
                    old(self)@,
                    final(self)@,
                    ch,
                    map,
                ),
            },
    {
        let grid = match self.map(map) {
            Ok(grid) => grid,
            Err(e) => {
                return Err(e);
            },
        };
        grid.remove_character(ch);
        let ghost cleared = self@;
        proof {
            GridMap::lemma_unpack(old(self)@[map]);
        }
        self.entities.remove(ch);
        assert(regrouped(
            old(self)@,
            cleared,
            map,
            without_value(grid_of(old(self)@, map).occupants(), ch),
        ));
        Ok(())
    }
}

} // verus!
