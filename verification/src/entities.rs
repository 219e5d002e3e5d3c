//! A "storage" for entities and their components.
//!
//! Components are stored per kind: a host registers a kind number for every
//! component type it uses, and entities are given components under those
//! kinds. The set of component kinds is closed per host (typically an enum
//! implementing [`Component`]), dispatched by kind number rather than by
//! open-ended dynamic typing.

use vstd::prelude::*;

pub mod components;

use crate::entities::components::Component;

verus! {

/// The position of the first entry under a key in a keyed table, or `-1` when
/// the key has none.
pub open spec fn spec_key_index<T>(table: Seq<(u64, T)>, key: u64) -> int
    decreases table.len(),
{
    if table.len() == 0 {
        -1
    } else if table[0].0 == key {
        0
    } else {
        let rest = spec_key_index(table.drop_first(), key);
        if rest < 0 {
            -1
        } else {
            1 + rest
        }
    }
}

/// What the index of a key means: when non-negative it points at the first
/// entry under the key; when negative the key has no entry.
pub proof fn lemma_key_index<T>(table: Seq<(u64, T)>, key: u64)
    ensures
        spec_key_index(table, key) >= 0 ==> {
            &&& spec_key_index(table, key) < table.len()
            &&& table[spec_key_index(table, key)].0 == key
            &&& forall|j: int| 0 <= j < spec_key_index(table, key) ==> table[j].0 != key
        },
        spec_key_index(table, key) < 0 ==> forall|j: int|
            0 <= j < table.len() ==> table[j].0 != key,
    decreases table.len(),
{
    if table.len() > 0 && table[0].0 != key {
        lemma_key_index(table.drop_first(), key);
        assert forall|j: int| 1 <= j < table.len() implies table.drop_first()[j - 1]
            == table[j] by {}
    }
}

/// The value a key designates in a keyed table.
pub open spec fn spec_key_get<T>(table: Seq<(u64, T)>, key: u64) -> Option<T> {
    let i = spec_key_index(table, key);
    if i < 0 {
        None
    } else {
        Some(table[i].1)
    }
}

/// What inserting into a keyed table comes to: an entry already under the key
/// is replaced in place; otherwise the entry is appended.
pub open spec fn spec_key_put<T>(table: Seq<(u64, T)>, key: u64, value: T) -> Seq<(u64, T)> {
    let i = spec_key_index(table, key);
    if i < 0 {
        table.push((key, value))
    } else {
        table.update(i, (key, value))
    }
}

/// A keyed table is well formed when its keys are distinct.
pub open spec fn spec_key_wf<T>(table: Seq<(u64, T)>) -> bool {
    forall|i: int, j: int|
        0 <= i < j < table.len() ==> (#[trigger] table[i]).0 != (#[trigger] table[j]).0
}

/// Looking a key up after an insert: the inserted key holds the new value,
/// every other key holds what it held before.
pub proof fn lemma_key_put_get<T>(table: Seq<(u64, T)>, key: u64, value: T, k: u64)
    requires
        spec_key_wf(table),
    ensures
        spec_key_wf(spec_key_put(table, key, value)),
        k == key ==> spec_key_get(spec_key_put(table, key, value), k) == Some(value),
        k != key ==> spec_key_get(spec_key_put(table, key, value), k) == spec_key_get(table, k),
        spec_key_index(spec_key_put(table, key, value), k) >= 0 <==> (k == key || spec_key_index(
            table,
            k,
        ) >= 0),
{
    lemma_key_index(table, key);
    lemma_key_index(table, k);
    let put = spec_key_put(table, key, value);
    let b = spec_key_index(table, key);
    let bk = spec_key_index(table, k);
    assert forall|i: int| 0 <= i < table.len() implies #[trigger] put[i] == (if i == b {
        (key, value)
    } else {
        table[i]
    }) by {}
    assert forall|i: int, j: int| 0 <= i < j < put.len() implies (#[trigger] put[i]).0
        != (#[trigger] put[j]).0 by {
        if b < 0 && j == table.len() {
            assert(put[i] == table[i]);
        }
    }
    lemma_key_index(put, k);
    let a = spec_key_index(put, k);
    if k == key {
        if b >= 0 {
            assert(put[b].0 == k);
            if 0 <= a < b {
                assert(put[a] == table[a]);
            } else if b < a {
                assert(put[b].0 != k);
            }
            assert(a == b);
        } else {
            assert(put[table.len() as int].0 == k);
            if 0 <= a < table.len() {
                assert(put[a] == table[a]);
            }
            assert(a == table.len());
        }
        assert(put[a].1 == value);
    } else {
        if a >= 0 && bk >= 0 {
            if a < bk {
                if a == b {
                    assert(put[a].0 == key);
                } else if a < table.len() {
                    assert(put[a] == table[a]);
                    assert(table[a].0 != k);
                }
            } else if bk < a {
                if bk == b {
                    assert(table[bk].0 == key);
                } else {
                    assert(put[bk] == table[bk]);
                    assert(put[bk].0 != k);
                }
            }
            assert(a == bk);
            assert(put[a] == table[bk]);
        } else if a >= 0 && bk < 0 {
            assert(put[a].0 == k);
            if a == b {
                assert(put[a].0 == key);
            } else if a < table.len() {
                assert(put[a] == table[a]);
                assert(table[a].0 != k);
            } else {
                assert(put[a].0 == key);
            }
            assert(false);
        } else if a < 0 && bk >= 0 {
            assert(table[bk].0 == k);
            assert(bk != b);
            assert(put[bk] == table[bk]);
            assert(put[bk].0 != k);
            assert(false);
        }
    }
}

/// Finds the position of the first entry under a key.
fn key_find<T>(table: &Vec<(u64, T)>, key: u64) -> (r: Option<usize>)
    ensures
        match r {
            Some(i) => i == spec_key_index(table@, key) && i < table@.len(),
            None => spec_key_index(table@, key) < 0,
        },
{
    proof {
        lemma_key_index(table@, key);
    }
    let ghost tv = table@;
    let mut i: usize = 0;
    while i < table.len()
        invariant
            i <= tv.len(),
            tv == table@,
            forall|j: int| 0 <= j < i ==> (#[trigger] tv[j]).0 != key,
            spec_key_index(tv, key) >= 0 ==> {
                &&& spec_key_index(tv, key) < tv.len()
                &&& tv[spec_key_index(tv, key)].0 == key
                &&& forall|j: int| 0 <= j < spec_key_index(tv, key) ==> tv[j].0 != key
            },
            spec_key_index(tv, key) < 0 ==> forall|j: int|
                0 <= j < tv.len() ==> tv[j].0 != key,
        decreases tv.len() - i,
    {
        if table[i].0 == key {
            proof {
                let idx = spec_key_index(tv, key);
                if idx < 0 {
                    assert(tv[i as int].0 != key);
                } else if idx < i as int {
                    assert(tv[idx].0 != key);
                } else if idx > i as int {
                    assert(tv[i as int].0 != key);
                }
            }
            return Some(i);
        }
        i += 1;
    }
    None
}

/// Inserts into a keyed table, replacing any entry the key already has.
fn key_put_vec<T>(table: &mut Vec<(u64, T)>, key: u64, value: T)
    ensures
        final(table)@ == spec_key_put(old(table)@, key, value),
{
    match key_find(table, key) {
        Some(i) => {
            table.set(i, (key, value));
        },
        None => {
            table.push((key, value));
        },
    }
}

/// An entity: a numbered unit components can be attached to.
#[derive(Clone, Copy, Hash, Debug, PartialEq, Eq, Structural)]
pub struct Entity {
    id: u64,
}

impl Entity {
    /// The entity's number.
    pub closed spec fn spec_id(&self) -> u64 {
        self.id
    }

    /// The entity's number.
    pub fn get_id(&self) -> (r: u64)
        ensures
            r == self.spec_id(),
    {
        self.id
    }
}

/// Represents a "storage" for entities and their components.
pub struct World<C: Component> {
    storages: Vec<(u64, Vec<(u64, C)>)>,
    entities: Vec<Entity>,
    /// The next ID to allocate.
    id: u64,
}

impl<C: Component> World<C> {
    /// The component storages: per registered kind, the components by entity
    /// number.
    pub closed spec fn spec_storages(&self) -> Seq<(u64, Vec<(u64, C)>)> {
        self.storages@
    }

    /// The entities, in creation order.
    pub closed spec fn spec_entities(&self) -> Seq<Entity> {
        self.entities@
    }

    /// The number the next entity will get.
    pub closed spec fn spec_next_id(&self) -> u64 {
        self.id
    }

    /// Whether a component kind has been registered.
    pub open spec fn registered(&self, kind: u64) -> bool {
        spec_key_index(self.spec_storages(), kind) >= 0
    }

    /// The storage of a registered kind: the components by entity number.
    pub open spec fn spec_storage(&self, kind: u64) -> Seq<(u64, C)> {
        spec_key_get(self.spec_storages(), kind)->Some_0@
    }

    /// The component an entity holds under a kind.
    pub open spec fn spec_component(&self, kind: u64, id: u64) -> Option<C> {
        spec_key_get(self.spec_storage(kind), id)
    }

    /// Whether an entity of the given number exists.
    pub open spec fn spec_has_entity(&self, id: u64) -> bool {
        exists|i: int|
            0 <= i < self.spec_entities().len() && (#[trigger] self.spec_entities()[i]).spec_id()
                == id
    }

    /// A world is well formed when its storage kinds are distinct, each
    /// storage keys its components by distinct entity numbers, and its
    /// entities carry distinct numbers below the next to allocate.
    pub open spec fn wf(&self) -> bool {
        &&& spec_key_wf(self.spec_storages())
        &&& forall|k: int|
            0 <= k < self.spec_storages().len() ==> spec_key_wf(
                (#[trigger] self.spec_storages()[k]).1@,
            )
        &&& forall|i: int|
            0 <= i < self.spec_entities().len() ==> (#[trigger] self.spec_entities()[i]).spec_id()
                < self.spec_next_id()
        &&& forall|i: int, j: int|
            0 <= i < j < self.spec_entities().len() ==> (#[trigger] self.spec_entities()[i]).spec_id()
                != (#[trigger] self.spec_entities()[j]).spec_id()
    }

    /// Create a new world: no registered kinds, no entities.
    pub fn new() -> (r: World<C>)
        ensures
            r.spec_storages() == Seq::<(u64, Vec<(u64, C)>)>::empty(),
            r.spec_entities() == Seq::<Entity>::empty(),
            r.spec_next_id() == 0,
            r.wf(),
    {
        let r = World { storages: Vec::new(), entities: Vec::new(), id: 0 };
        proof {
            assert(r.spec_storages() =~= Seq::<(u64, Vec<(u64, C)>)>::empty());
            assert(r.spec_entities() =~= Seq::<Entity>::empty());
        }
        r
    }

    /// Register a component kind for being used by entities. This must always
    /// be called before attempting to use the kind. Registering a kind anew
    /// empties its storage.
    pub fn register_component(&mut self, kind: u64)
        requires
            old(self).wf(),
        ensures
            final(self).wf(),
            final(self).registered(kind),
            final(self).spec_storage(kind) == Seq::<(u64, C)>::empty(),
            forall|k: u64|
                k != kind ==> #[trigger] final(self).registered(k) == old(self).registered(k),
            forall|k: u64|
                k != kind && old(self).registered(k) ==> #[trigger] final(self).spec_storage(k)
                    == old(self).spec_storage(k),
            final(self).spec_entities() == old(self).spec_entities(),
            final(self).spec_next_id() == old(self).spec_next_id(),
    {
        let empty: Vec<(u64, C)> = Vec::new();
        let ghost empty_snap = empty;
        key_put_vec(&mut self.storages, kind, empty);
        proof {
            let t0 = old(self).spec_storages();
            let t1 = self.spec_storages();
            let b = spec_key_index(t0, kind);
            lemma_key_index(t0, kind);
            assert forall|i: int|
                0 <= i < self.spec_entities().len() implies (
            #[trigger] self.spec_entities()[i]).spec_id() < self.spec_next_id() by {
                assert(self.spec_entities()[i] == old(self).spec_entities()[i]);
            }
            assert forall|i: int, j: int|
                0 <= i < j < self.spec_entities().len() implies (
            #[trigger] self.spec_entities()[i]).spec_id() != (
            #[trigger] self.spec_entities()[j]).spec_id() by {
                assert(self.spec_entities()[i] == old(self).spec_entities()[i]);
                assert(self.spec_entities()[j] == old(self).spec_entities()[j]);
            }
            lemma_key_put_get(t0, kind, empty_snap, kind);
            assert(empty_snap@ =~= Seq::<(u64, C)>::empty());
            assert forall|k: u64| #[trigger] self.registered(k) == (k == kind || old(
                self,
            ).registered(k)) by {
                lemma_key_put_get(t0, kind, empty_snap, k);
            }
            assert forall|k: u64| k != kind && old(self).registered(k) implies
                #[trigger] self.spec_storage(k) == old(self).spec_storage(k) by {
                lemma_key_put_get(t0, kind, empty_snap, k);
            }
            assert forall|k: int| 0 <= k < t1.len() implies spec_key_wf(
                (#[trigger] t1[k]).1@,
            ) by {
                assert(spec_key_wf(empty_snap@));
                if b >= 0 {
                    if k != b {
                        assert(t1[k] == t0[k]);
                    } else {
                        assert(t1[k].1 == empty_snap);
                    }
                } else {
                    if k < t0.len() {
                        assert(t1[k] == t0[k]);
                    } else {
                        assert(t1[k].1 == empty_snap);
                    }
                }
            }
        }
    }

    /// Get an entity by number.
    pub fn get_entity(&self, id: u64) -> (r: Option<Entity>)
        ensures
            match r {
                Some(e) => e.spec_id() == id && self.spec_has_entity(id),
                None => !self.spec_has_entity(id),
            },
    {
        let mut i: usize = 0;
        while i < self.entities.len()
            invariant
                i <= self.spec_entities().len(),
                forall|j: int|
                    0 <= j < i ==> (#[trigger] self.spec_entities()[j]).spec_id() != id,
            decreases self.spec_entities().len() - i,
        {
            let e = self.entities[i];
            if e.get_id() == id {
                return Some(e);
            }
            i += 1;
        }
        None
    }

    /// Gets a component of an entity, by kind and entity number.
    ///
    /// The kind must have been registered.
    pub fn get_component(&self, kind: u64, id: u64) -> (r: Option<&C>)
        requires
            self.registered(kind),
        ensures
            match r {
                Some(c) => self.spec_component(kind, id) == Some(*c),
                None => self.spec_component(kind, id) is None,
            },
    {
        let ki = match key_find(&self.storages, kind) {
            Some(ki) => ki,
            None => {
                proof {
                    assert(false);
                }
                return None;
            },
        };
        let storage = &self.storages[ki].1;
        match key_find(storage, id) {
            Some(ci) => Some(&storage[ci].1),
            None => None,
        }
    }

    /// Returns an iterator over all components of a kind, by entity number.
    ///
    /// The kind must have been registered.
    pub fn iter_components<'a>(&'a self, kind: u64) -> (r: ComponentIter<'a, C>)
        requires
            self.registered(kind),
        ensures
            r.spec_items()@ == self.spec_storage(kind),
            r.spec_pos() == 0,
    {
        let ki = match key_find(&self.storages, kind) {
            Some(ki) => ki,
            None => {
                proof {
                    assert(false);
                }
                unreached()
            },
        };
        ComponentIter { items: &self.storages[ki].1, pos: 0 }
    }

    /// Returns an iterator over all the entities.
    pub fn iter_entities<'a>(&'a self) -> (r: EntityIter<'a>)
        ensures
            r.spec_items() == self.spec_entities(),
            r.spec_pos() == 0,
    {
        EntityIter { items: &self.entities, pos: 0 }
    }

    /// Attaches a component to an entity under a kind, replacing any it
    /// already holds there.
    ///
    /// The kind must have been registered.
    pub fn insert_component(&mut self, kind: u64, id: u64, component: C)
        requires
            old(self).wf(),
            old(self).registered(kind),
        ensures
            final(self).wf(),
            forall|k: u64| #[trigger] final(self).registered(k) == old(self).registered(k),
            final(self).spec_storage(kind) == spec_key_put(
                old(self).spec_storage(kind),
                id,
                component,
            ),
            forall|k: u64|
                k != kind && old(self).registered(k) ==> #[trigger] final(self).spec_storage(k)
                    == old(self).spec_storage(k),
            final(self).spec_entities() == old(self).spec_entities(),
            final(self).spec_next_id() == old(self).spec_next_id(),
    {
        let ki = match key_find(&self.storages, kind) {
            Some(ki) => ki,
            None => {
                proof {
                    assert(false);
                }
                return ;
            },
        };
        let mut pair = self.storages.remove(ki);
        key_put_vec(&mut pair.1, id, component);
        let ghost new_pair = pair;
        self.storages.insert(ki, pair);
        proof {
            let t0 = old(self).spec_storages();
            let t1 = self.spec_storages();
            let b = spec_key_index(t0, kind);
            lemma_key_index(t0, kind);
            assert forall|i: int|
                0 <= i < self.spec_entities().len() implies (
            #[trigger] self.spec_entities()[i]).spec_id() < self.spec_next_id() by {
                assert(self.spec_entities()[i] == old(self).spec_entities()[i]);
            }
            assert forall|i: int, j: int|
                0 <= i < j < self.spec_entities().len() implies (
            #[trigger] self.spec_entities()[i]).spec_id() != (
            #[trigger] self.spec_entities()[j]).spec_id() by {
                assert(self.spec_entities()[i] == old(self).spec_entities()[i]);
                assert(self.spec_entities()[j] == old(self).spec_entities()[j]);
            }
            assert(t1 =~= spec_key_put(t0, kind, new_pair.1));
            lemma_key_put_get(t0, kind, new_pair.1, kind);
            assert(spec_key_wf(t0[b].1@));
            lemma_key_put_get(old(self).spec_storage(kind), id, component, id);
            assert forall|k: u64| #[trigger] self.registered(k) == old(self).registered(k) by {
                lemma_key_put_get(t0, kind, new_pair.1, k);
            }
            assert forall|k: u64| k != kind && old(self).registered(k) implies
                #[trigger] self.spec_storage(k) == old(self).spec_storage(k) by {
                lemma_key_put_get(t0, kind, new_pair.1, k);
            }
            assert forall|k: int| 0 <= k < t1.len() implies spec_key_wf(
                (#[trigger] t1[k]).1@,
            ) by {
                if k != b {
                    assert(t1[k] == t0[k]);
                } else {
                    assert(t1[k].1 == new_pair.1);
                }
            }
        }
    }
}

/// An iterator over all components of one kind in a `World`, by entity
/// number.
pub struct ComponentIter<'a, C: Component> {
    items: &'a Vec<(u64, C)>,
    pos: usize,
}

impl<'a, C: Component> ComponentIter<'a, C> {
    /// The storage the iterator walks.
    pub closed spec fn spec_items(&self) -> Vec<(u64, C)> {
        *self.items
    }

    /// How many components the iterator has handed out.
    pub closed spec fn spec_pos(&self) -> int {
        self.pos as int
    }

    /// The next entity number and component, or `None` once all have been
    /// handed out.
    pub fn next(&mut self) -> (r: Option<(u64, &'a C)>)
        ensures
            final(self).spec_items() == old(self).spec_items(),
            match r {
                Some(pair) => {
                    &&& old(self).spec_pos() < old(self).spec_items()@.len()
                    &&& (pair.0, *pair.1) == old(self).spec_items()@[old(self).spec_pos()]
                    &&& final(self).spec_pos() == old(self).spec_pos() + 1
                },
                None => {
                    &&& old(self).spec_pos() >= old(self).spec_items()@.len()
                    &&& final(self).spec_pos() == old(self).spec_pos()
                },
            },
    {
        if self.pos < self.items.len() {
            let pair = &self.items[self.pos];
            self.pos += 1;
            Some((pair.0, &pair.1))
        } else {
            None
        }
    }
}

/// An iterator over all entities in a `World`.
pub struct EntityIter<'a> {
    items: &'a Vec<Entity>,
    pos: usize,
}

impl<'a> EntityIter<'a> {
    /// The entities the iterator walks.
    pub closed spec fn spec_items(&self) -> Seq<Entity> {
        self.items@
    }

    /// How many entities the iterator has handed out.
    pub closed spec fn spec_pos(&self) -> int {
        self.pos as int
    }

    /// The next entity's number and the entity, or `None` once all have been
    /// handed out.
    pub fn next(&mut self) -> (r: Option<(u64, Entity)>)
        ensures
            final(self).spec_items() == old(self).spec_items(),
            match r {
                Some(pair) => {
                    &&& old(self).spec_pos() < old(self).spec_items().len()
                    &&& pair.1 == old(self).spec_items()[old(self).spec_pos()]
                    &&& pair.0 == pair.1.spec_id()
                    &&& final(self).spec_pos() == old(self).spec_pos() + 1
                },
                None => {
                    &&& old(self).spec_pos() >= old(self).spec_items().len()
                    &&& final(self).spec_pos() == old(self).spec_pos()
                },
            },
    {
        if self.pos < self.items.len() {
            let e = self.items[self.pos];
            self.pos += 1;
            Some((e.get_id(), e))
        } else {
            None
        }
    }
}

/// Returns an `EntityBuilder` to make a new entity. The entity itself is
/// created at once; the builder then attaches components to it, and
/// [`EntityBuilder::finish`] commits them back to the world.
pub fn make_builder<C: Component>(world: &mut World<C>) -> (r: EntityBuilder<C>)
    requires
        old(world).wf(),
        old(world).spec_next_id() < u64::MAX,
    ensures
        final(world).wf(),
        final(world).spec_entities().len() == old(world).spec_entities().len() + 1,
        final(world).spec_entities().last().spec_id() == old(world).spec_next_id(),
        final(world).spec_entities().drop_last() == old(world).spec_entities(),
        final(world).spec_next_id() == old(world).spec_next_id() + 1,
        final(world).spec_storages() == old(world).spec_storages(),
        r.spec_id() == old(world).spec_next_id(),
        r.spec_components() == Seq::<(u64, C)>::empty(),
{
    let id = world.id;
    world.id = world.id + 1;
    world.entities.push(Entity { id });
    proof {
        assert(world.spec_entities().drop_last() =~= old(world).spec_entities());
    }
    EntityBuilder { id, components: Vec::new() }
}

/// The component a kind ends up with after a builder's list is applied: the
/// last one the list holds under the kind, if any.
pub open spec fn spec_last_of_kind<C>(components: Seq<(u64, C)>, kind: u64) -> Option<C>
    decreases components.len(),
{
    if components.len() == 0 {
        None
    } else if components.last().0 == kind {
        Some(components.last().1)
    } else {
        spec_last_of_kind(components.drop_last(), kind)
    }
}

/// An interface into building an entity.
///
/// An `EntityBuilder` is returned by [`make_builder`]; it gathers the new
/// entity's components, and commits them when it is finished.
pub struct EntityBuilder<C: Component> {
    id: u64,
    components: Vec<(u64, C)>,
}

impl<C: Component> EntityBuilder<C> {
    /// The number of the entity being built.
    pub closed spec fn spec_id(&self) -> u64 {
        self.id
    }

    /// The components gathered so far, with their kinds, in order.
    pub closed spec fn spec_components(&self) -> Seq<(u64, C)> {
        self.components@
    }

    /// Add a new component instance to be added to the final entity, under a
    /// registered kind.
    pub fn with_component(self, kind: u64, component: C) -> (r: EntityBuilder<C>)
        ensures
            r.spec_id() == self.spec_id(),
            r.spec_components() == self.spec_components().push((kind, component)),
    {
        let mut components = self.components;
        components.push((kind, component));
        EntityBuilder { id: self.id, components }
    }

    /// Consumes the `EntityBuilder`, attaching the gathered components to the
    /// entity and returning it. Every gathered kind must have been
    /// registered. A kind gathered more than once keeps the last component.
    pub fn finish(self, world: &mut World<C>) -> (r: Entity)
        requires
            old(world).wf(),
            forall|j: int|
                0 <= j < self.spec_components().len() ==> old(world).registered(
                    (#[trigger] self.spec_components()[j]).0,
                ),
        ensures
            final(world).wf(),
            r.spec_id() == self.spec_id(),
            final(world).spec_entities() == old(world).spec_entities(),
            final(world).spec_next_id() == old(world).spec_next_id(),
            forall|k: u64| #[trigger] final(world).registered(k) == old(world).registered(k),
            forall|k: u64, eid: u64|
                old(world).registered(k) && eid != self.spec_id()
                    ==> #[trigger] final(world).spec_component(k, eid) == old(
                    world,
                ).spec_component(k, eid),
            forall|k: u64|
                old(world).registered(k) ==> #[trigger] final(world).spec_component(
                    k,
                    self.spec_id(),
                ) == (match spec_last_of_kind(self.spec_components(), k) {
                    Some(c) => Some(c),
                    None => old(world).spec_component(k, self.spec_id()),
                }),
    {
        let EntityBuilder { id, mut components } = self;
        let ghost all = components@;
        let ghost p: int = 0;
        proof {
            assert(all.take(0) =~= Seq::<(u64, C)>::empty());
        }
        while components.len() > 0
            invariant
                0 <= p <= all.len(),
                components@ == all.skip(p),
                world.wf(),
                forall|j: int| 0 <= j < all.len() ==> old(world).registered((#[trigger] all[j]).0),
                world.spec_entities() == old(world).spec_entities(),
                world.spec_next_id() == old(world).spec_next_id(),
                forall|k: u64| #[trigger] world.registered(k) == old(world).registered(k),
                forall|k: u64, eid: u64|
                    old(world).registered(k) && eid != id ==> #[trigger] world.spec_component(
                        k,
                        eid,
                    ) == old(world).spec_component(k, eid),
                forall|k: u64|
                    old(world).registered(k) ==> #[trigger] world.spec_component(k, id) == (
                    match spec_last_of_kind(all.take(p), k) {
                        Some(c) => Some(c),
                        None => old(world).spec_component(k, id),
                    }),
            decreases components@.len(),
        {
            proof {
                assert(all.skip(p)[0] == all[p]);
            }
            let (kind, component) = components.remove(0);
            let ghost prev = *world;
            world.insert_component(kind, id, component);
            proof {
                assert(components@ =~= all.skip(p + 1));
                assert(old(world).registered(kind));
                assert(prev.wf());
                assert(prev.registered(kind));
                let ps = prev.spec_storages();
                lemma_key_index(ps, kind);
                assert(spec_key_wf(ps[spec_key_index(ps, kind)].1@));
                lemma_key_put_get(prev.spec_storage(kind), id, component, id);
                assert forall|eid: u64| eid != id implies #[trigger] world.spec_component(
                    kind,
                    eid,
                ) == prev.spec_component(kind, eid) by {
                    lemma_key_put_get(prev.spec_storage(kind), id, component, eid);
                }
                assert forall|k: u64, eid: u64| old(world).registered(k) && eid != id implies
                    #[trigger] world.spec_component(k, eid) == old(world).spec_component(
                    k,
                    eid,
                ) by {
                    assert(prev.registered(k) == old(world).registered(k));
                    if k != kind {
                        assert(world.spec_storage(k) == prev.spec_storage(k));
                    }
                    assert(prev.spec_component(k, eid) == old(world).spec_component(k, eid));
                }
                assert forall|k: u64| old(world).registered(k) implies #[trigger] world
                    .spec_component(k, id) == (match spec_last_of_kind(all.take(p + 1), k) {
                    Some(c) => Some(c),
                    None => old(world).spec_component(k, id),
                }) by {
                    assert(all.take(p + 1).drop_last() =~= all.take(p));
                    assert(all.take(p + 1).last() == all[p]);
                    if k == kind {
                        assert(world.spec_component(kind, id) == Some(component));
                    } else {
                        assert(world.spec_storage(k) == prev.spec_storage(k));
                        assert(prev.spec_component(k, id) == (match spec_last_of_kind(
                            all.take(p),
                            k,
                        ) {
                            Some(c) => Some(c),
                            None => old(world).spec_component(k, id),
                        }));
                    }
                }
                p = p + 1;
            }
        }
        proof {
            assert(all.take(all.len() as int) =~= all);
        }
        Entity { id }
    }
}

} // verus!