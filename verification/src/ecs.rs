use std::collections::HashMap;
use vstd::prelude::*;
use crate::entity::EntityId;
use crate::table::value_mut;
use crate::tile::Tile;

verus! {

broadcast use vstd::std_specs::hash::group_hash_axioms;

/// A component: what an entity is called.
pub struct Name {
    pub name: String,
}

/// A component: how old an entity is.
pub struct Age {
    pub age: u8,
}

/// The components of one entity: at most one of each type.
pub struct Components {
    pub name: Option<Name>,
    pub age: Option<Age>,
    pub tile: Option<Tile>,
}

impl Components {
    /// No component of any type.
    pub open spec fn none() -> Components {
        Components { name: None, age: None, tile: None }
    }

    fn new() -> (c: Components)
        ensures
            c == Components::none(),
    {
        Components { name: None, age: None, tile: None }
    }
}

/// A type of component. Each entity has one place for a component of each type,
/// which holds a value or is empty.
pub trait Component: Sized {
    /// What the place of this type holds in `c`.
    spec fn slot(c: Components) -> Option<Self>;

    /// `c` with `value` in the place of this type and every other place as it is.
    spec fn with_slot(c: Components, value: Option<Self>) -> Components;

    /// A place holds what was put there last, putting back what it holds changes
    /// nothing, and a new set of components holds nothing of this type.
    proof fn lemma_slot(c: Components, value: Option<Self>)
        ensures
            Self::slot(Self::with_slot(c, value)) == value,
            Self::with_slot(c, Self::slot(c)) == c,
            Self::slot(Components::none()) is None,
    ;

    fn place(c: &Components) -> (place: &Option<Self>)
        ensures
            *place == Self::slot(*c),
    ;

    fn place_mut(c: &mut Components) -> (place: &mut Option<Self>)
        ensures
            *place == Self::slot(*old(c)),
            *final(c) == Self::with_slot(*old(c), *final(place)),
    ;
}

impl Component for Name {
    open spec fn slot(c: Components) -> Option<Name> {
        c.name
    }

    open spec fn with_slot(c: Components, value: Option<Name>) -> Components {
        Components { name: value, ..c }
    }

    proof fn lemma_slot(c: Components, value: Option<Name>) {
    }

    fn place(c: &Components) -> (place: &Option<Name>) {
        &c.name
    }

    fn place_mut(c: &mut Components) -> (place: &mut Option<Name>) {
        &mut c.name
    }
}

impl Component for Age {
    open spec fn slot(c: Components) -> Option<Age> {
        c.age
    }

    open spec fn with_slot(c: Components, value: Option<Age>) -> Components {
        Components { age: value, ..c }
    }

    proof fn lemma_slot(c: Components, value: Option<Age>) {
    }

    fn place(c: &Components) -> (place: &Option<Age>) {
        &c.age
    }

    fn place_mut(c: &mut Components) -> (place: &mut Option<Age>) {
        &mut c.age
    }
}

impl Component for Tile {
    open spec fn slot(c: Components) -> Option<Tile> {
        c.tile
    }

    open spec fn with_slot(c: Components, value: Option<Tile>) -> Components {
        Components { tile: value, ..c }
    }

    proof fn lemma_slot(c: Components, value: Option<Tile>) {
    }

    fn place(c: &Components) -> (place: &Option<Tile>) {
        &c.tile
    }

    fn place_mut(c: &mut Components) -> (place: &mut Option<Tile>) {
        &mut c.tile
    }
}

/// Entities and the components attached to them. An entity is an id and nothing
/// more; what it is shows in the components it has.
pub struct Ecs {
    next_entity: EntityId,
    entities: HashMap<EntityId, Components>,
}

impl View for Ecs {
    type V = Map<EntityId, Components>;

    /// The entities that exist, each with its components.
    closed spec fn view(&self) -> Map<EntityId, Components> {
        self.entities@
    }
}

impl Default for Ecs {
    fn default() -> (ecs: Ecs)
        ensures
            ecs.wf(),
            ecs@ == Map::<EntityId, Components>::empty(),
            ecs.last_id() == 0,
    {
        Ecs { next_entity: 0, entities: HashMap::new() }
    }
}

impl Ecs {
    /// The id given out last; 0 before the first.
    pub closed spec fn last_id(&self) -> EntityId {
        self.next_entity
    }

    /// Every entity that exists has an id that was given out.
    pub open spec fn wf(&self) -> bool {
        forall|id: EntityId| #[trigger] self@.contains_key(id) ==> 1 <= id <= self.last_id()
    }

    /// A store without entities.
    pub fn new() -> (ecs: Self)
        ensures
            ecs.wf(),
            ecs@ == Map::<EntityId, Components>::empty(),
            ecs.last_id() == 0,
    {
        Default::default()
    }

    /// Makes an entity without components and returns its id: one more than the
    /// id given out before.
    pub fn new_entity(&mut self) -> (id: EntityId)
        requires
            old(self).wf(),
            old(self).last_id() < u64::MAX,
        ensures
            final(self).wf(),
            id == old(self).last_id() + 1,
            final(self).last_id() == id,
            !old(self)@.contains_key(id),
            final(self)@ == old(self)@.insert(id, Components::none()),
    {
        self.next_entity += 1;
        self.entities.insert(self.next_entity, Components::new());
        assert forall|other: EntityId| #[trigger] self@.contains_key(other) implies 1 <= other
            <= self.last_id() by {
            if other != self.next_entity {
                assert(old(self)@.contains_key(other));
            }
        }
        self.next_entity
    }

    /// Whether the entity exists.
    pub fn exists_entity(&self, entity: EntityId) -> (found: bool)
        ensures
            found == self@.contains_key(entity),
    {
        self.entities.contains_key(&entity)
    }

    /// Deletes the entity with all its components. Its id is not given out again.
    pub fn remove_entity(&mut self, entity: EntityId)
        ensures
            final(self)@ == old(self)@.remove(entity),
            final(self).last_id() == old(self).last_id(),
            old(self).wf() ==> final(self).wf(),
    {
        self.entities.remove(&entity);
    }

    /// Gives the entity the component `value`, in place of the one of type `C`
    /// that it may have had.
    pub fn set<C: Component>(&mut self, entity: EntityId, value: C)
        requires
            old(self)@.contains_key(entity),
        ensures
            final(self)@ == old(self)@.insert(
                entity,
                C::with_slot(old(self)@[entity], Some(value)),
            ),
            final(self).last_id() == old(self).last_id(),
            old(self).wf() ==> final(self).wf(),
    {
        let place = C::place_mut(self.component_mut(entity));
        *place = Some(value);
    }

    /// Whether the entity has a component of type `C`.
    pub fn has<C: Component>(&self, entity: EntityId) -> (found: bool)
        requires
            self@.contains_key(entity),
        ensures
            found == (C::slot(self@[entity]) is Some),
    {
        C::place(self.component(entity)).is_some()
    }

    /// The entity's component of type `C`.
    pub fn of<C: Component>(&self, entity: EntityId) -> (value: &C)
        requires
            self@.contains_key(entity),
            C::slot(self@[entity]) is Some,
        ensures
            Some(*value) == C::slot(self@[entity]),
    {
        match C::place(self.component(entity)) {
            Some(value) => value,
            None => vstd::pervasive::unreached(),
        }
    }

    /// The entity's component of type `C`, to be changed in place. What the caller
    /// leaves in it is the entity's component of that type afterwards.
    pub fn of_mut<C: Component>(&mut self, entity: EntityId) -> (value: &mut C)
        requires
            old(self)@.contains_key(entity),
            C::slot(old(self)@[entity]) is Some,
        ensures
            Some(*value) == C::slot(old(self)@[entity]),
            final(self)@ == old(self)@.insert(
                entity,
                C::with_slot(old(self)@[entity], Some(*final(value))),
            ),
            final(self).last_id() == old(self).last_id(),
            old(self).wf() ==> final(self).wf(),
    {
        match C::place_mut(self.component_mut(entity)) {
            Some(value) => value,
            None => vstd::pervasive::unreached(),
        }
    }

    /// Takes the component of type `C` from the entity, if it has one.
    pub fn remove<C: Component>(&mut self, entity: EntityId)
        requires
            old(self)@.contains_key(entity),
        ensures
            final(self)@ == old(self)@.insert(entity, C::with_slot(old(self)@[entity], None)),
            final(self).last_id() == old(self).last_id(),
            old(self).wf() ==> final(self).wf(),
    {
        let place = C::place_mut(self.component_mut(entity));
        *place = None;
    }

    /// All the components of the entity.
    pub fn component(&self, entity: EntityId) -> (c: &Components)
        requires
            self@.contains_key(entity),
        ensures
            *c == self@[entity],
    {
        match self.entities.get(&entity) {
            Some(c) => c,
            None => vstd::pervasive::unreached(),
        }
    }

    /// All the components of the entity, to be changed in place.
    pub fn component_mut(&mut self, entity: EntityId) -> (c: &mut Components)
        requires
            old(self)@.contains_key(entity),
        ensures
            *c == old(self)@[entity],
            final(self)@ == old(self)@.insert(entity, *final(c)),
            final(self).last_id() == old(self).last_id(),
            old(self).wf() ==> final(self).wf(),
    {
        match value_mut(&mut self.entities, entity) {
            Some(c) => c,
            None => vstd::pervasive::unreached(),
        }
    }
}

} // verus!
