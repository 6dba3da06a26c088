use std::collections::HashMap;
use vstd::prelude::*;
use crate::character::Character;
use crate::error::WorldError;
use crate::map::GridMap;
use crate::table::value_mut;

verus! {

broadcast use vstd::std_specs::hash::group_hash_axioms;

/// The handle of an entity: a number that is given out once and never again.
pub type EntityId = u64;

/// A record of the store: a value of one of the types that entities are made of.
pub enum Entity {
    Character(Character),
    Grid(GridMap),
}

/// The type of the value that a record holds.
#[derive(Debug, Clone, Copy, PartialEq, Eq, Structural)]
pub enum EntityKind {
    Character,
    Grid,
}

impl Entity {
    /// The type of the value that this record holds.
    pub open spec fn kind(self) -> EntityKind {
        match self {
            Entity::Character(_) => EntityKind::Character,
            Entity::Grid(_) => EntityKind::Grid,
        }
    }

    /// The value that the record holds is well-formed.
    pub open spec fn wf(self) -> bool {
        match self {
            Entity::Character(_) => true,
            Entity::Grid(grid) => grid.wf(),
        }
    }
}

/// A type whose values the store can hold. A value is packed into a record when it
/// is registered, and a record is read as a value of the type that it holds.
pub trait Stored: Sized {
    /// The kind of the records that hold a value of this type.
    spec fn kind() -> EntityKind;

    /// The record that holds `self`.
    spec fn pack(self) -> Entity;

    /// The value that `record` holds, where it is of this type's kind.
    spec fn unpack(record: Entity) -> Self;

    /// A packed value is of this type's kind and is read back unchanged.
    proof fn lemma_pack(value: Self)
        ensures
            value.pack().kind() == Self::kind(),
            Self::unpack(value.pack()) == value,
    ;

    /// A record of this type's kind is the packing of the value it holds.
    proof fn lemma_unpack(record: Entity)
        requires
            record.kind() == Self::kind(),
        ensures
            Self::unpack(record).pack() == record,
    ;

    fn into_entity(self) -> (record: Entity)
        ensures
            record == self.pack(),
    ;

    fn peek(record: &Entity) -> (value: Option<&Self>)
        ensures
            match value {
                Some(v) => record.kind() == Self::kind() && *v == Self::unpack(*record),
                None => record.kind() != Self::kind(),
            },
    ;

    fn peek_mut(record: &mut Entity) -> (value: Option<&mut Self>)
        ensures
            match value {
                Some(v) => old(record).kind() == Self::kind() && *v == Self::unpack(*old(record))
                    && *final(record) == (*final(v)).pack(),
                None => old(record).kind() != Self::kind() && *final(record) == *old(record),
            },
    ;
}

impl Stored for Character {
    open spec fn kind() -> EntityKind {
        EntityKind::Character
    }

    open spec fn pack(self) -> Entity {
        Entity::Character(self)
    }

    open spec fn unpack(record: Entity) -> Character {
        record->Character_0
    }

    proof fn lemma_pack(value: Character) {
    }

    proof fn lemma_unpack(record: Entity) {
    }

    fn into_entity(self) -> (record: Entity) {
        Entity::Character(self)
    }

    fn peek(record: &Entity) -> (value: Option<&Character>) {
        match record {
            Entity::Character(c) => Some(c),
            _ => None,
        }
    }

    fn peek_mut(record: &mut Entity) -> (value: Option<&mut Character>) {
        match record {
            Entity::Character(c) => Some(c),
            _ => None,
        }
    }
}

impl Stored for GridMap {
    open spec fn kind() -> EntityKind {
        EntityKind::Grid
    }

    open spec fn pack(self) -> Entity {
        Entity::Grid(self)
    }

    open spec fn unpack(record: Entity) -> GridMap {
        record->Grid_0
    }

    proof fn lemma_pack(value: GridMap) {
    }

    proof fn lemma_unpack(record: Entity) {
    }

    fn into_entity(self) -> (record: Entity) {
        Entity::Grid(self)
    }

    fn peek(record: &Entity) -> (value: Option<&GridMap>) {
        match record {
            Entity::Grid(m) => Some(m),
            _ => None,
        }
    }

    fn peek_mut(record: &mut Entity) -> (value: Option<&mut GridMap>) {
        match record {
            Entity::Grid(m) => Some(m),
            _ => None,
        }
    }
}

/// What a typed lookup of `id` in `store` gives: the value, `NotFound` where no
/// record is stored under `id`, `TypeMismatch` where the record holds another type.
pub open spec fn lookup<T: Stored>(store: Map<EntityId, Entity>, id: EntityId) -> Result<T, WorldError> {
    if !store.contains_key(id) {
        Err(WorldError::NotFound)
    } else if store[id].kind() != T::kind() {
        Err(WorldError::TypeMismatch)
    } else {
        Ok(T::unpack(store[id]))
    }
}

/// The store of entities. It owns every record and gives each a fresh id.
pub struct EntitySystem {
    entities: HashMap<EntityId, Entity>,
    last_id: EntityId,
}

impl View for EntitySystem {
    type V = Map<EntityId, Entity>;

    /// The records, each under its id.
    closed spec fn view(&self) -> Map<EntityId, Entity> {
        self.entities@
    }
}

impl EntitySystem {
    /// The id that the next registered entity gets.
    pub closed spec fn next_id(&self) -> EntityId {
        self.last_id
    }

    /// Every id in use was given out before: it lies below the next one.
    pub open spec fn wf(&self) -> bool {
        &&& self.next_id() >= 1
        &&& forall|id: EntityId| #[trigger] self@.contains_key(id) ==> 1 <= id < self.next_id()
    }

    /// A store without records. The first id it gives out is 1.
    pub fn new() -> (store: Self)
        ensures
            store.wf(),
            store@ == Map::<EntityId, Entity>::empty(),
            store.next_id() == 1,
    {
        EntitySystem { entities: HashMap::new(), last_id: 1 }
    }

    /// Stores `entity` under an id that no entity had before, and returns the id.
    pub fn register<T: Stored>(&mut self, entity: T) -> (id: EntityId)
        requires
            old(self).wf(),
            old(self).next_id() < u64::MAX,
        ensures
            final(self).wf(),
            id == old(self).next_id(),
            !old(self)@.contains_key(id),
            final(self)@ == old(self)@.insert(id, entity.pack()),
            final(self).next_id() == id + 1,
    {
        let id = self.last_id;
        self.entities.insert(id, entity.into_entity());
        self.last_id += 1;
        assert forall|other: EntityId| #[trigger] self@.contains_key(other) implies 1 <= other
            < self.next_id() by {
            if other != id {
                assert(old(self)@.contains_key(other));
            }
        }
        id
    }

    /// Whether a record is stored under `id`.
    pub fn contains(&self, id: EntityId) -> (found: bool)
        ensures
            found == self@.contains_key(id),
    {
        self.entities.contains_key(&id)
    }

    /// The value stored under `id`, read as a `T`.
    pub fn of<T: Stored>(&self, id: EntityId) -> (found: Result<&T, WorldError>)
        ensures
            match found {
                Ok(value) => lookup::<T>(self@, id) == Ok::<T, WorldError>(*value),
                Err(e) => lookup::<T>(self@, id) == Err::<T, WorldError>(e),
            },
    {
        match self.entities.get(&id) {
            None => Err(WorldError::NotFound),
            Some(record) => match T::peek(record) {
                None => Err(WorldError::TypeMismatch),
                Some(value) => Ok(value),
            },
        }
    }

    /// The value stored under `id`, read as a `T`, to be changed in place. What the
    /// caller leaves in it is what the store holds under `id` afterwards.
    pub fn of_mut<T: Stored>(&mut self, id: EntityId) -> (found: Result<&mut T, WorldError>)
        ensures
            final(self).next_id() == old(self).next_id(),
            old(self).wf() ==> final(self).wf(),
            match found {
                Ok(value) => lookup::<T>(old(self)@, id) == Ok::<T, WorldError>(*value) && final(self)@
                    == old(self)@.insert(id, (*final(value)).pack()),
                Err(e) => lookup::<T>(old(self)@, id) == Err::<T, WorldError>(e)
                    && final(self)@ == old(self)@,
            },
    {
        match value_mut(&mut self.entities, id) {
            None => Err(WorldError::NotFound),
            Some(record) => match T::peek_mut(record) {
                None => Err(WorldError::TypeMismatch),
                Some(value) => Ok(value),
            },
        }
    }

    /// Deletes the record under `id`. The id is not given out again.
    pub fn remove(&mut self, id: EntityId)
        ensures
            final(self)@ == old(self)@.remove(id),
            final(self).next_id() == old(self).next_id(),
            old(self).wf() ==> final(self).wf(),
    {
        self.entities.remove(&id);
    }

    /// A lookup for another type than the record holds is refused as a mismatch,
    /// and a lookup after the record was removed finds nothing.
    pub proof fn lemma_type_safety<T: Stored>(store: Map<EntityId, Entity>, id: EntityId)
        ensures
            store.contains_key(id) && store[id].kind() != T::kind() ==> lookup::<T>(store, id)
                == Err::<T, WorldError>(WorldError::TypeMismatch),
            lookup::<T>(store.remove(id), id) == Err::<T, WorldError>(WorldError::NotFound),
    {
    }

    /// What was registered as a `U` is found again as a `U`, and as no other type.
    pub proof fn lemma_registered<T: Stored, U: Stored>(
        store: Map<EntityId, Entity>,
        id: EntityId,
        value: U,
    )
        ensures
            lookup::<U>(store.insert(id, value.pack()), id) == Ok::<U, WorldError>(value),
            T::kind() != U::kind() ==> lookup::<T>(store.insert(id, value.pack()), id) == Err::<
                T,
                WorldError,
            >(WorldError::TypeMismatch),
    {
        U::lemma_pack(value);
    }
}

} // verus!
