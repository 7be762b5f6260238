//! The world: the registry, the entity table and the free identifiers,
//! held together by one invariant.

use crate::access::{Read, UniqueRead, UniqueWrite, Write};
use crate::bundle::ComponentBundler;
use crate::component::{
    all_registered, bundle_mask, bundled, lemma_bundle_mask_bits, pages_after_write,
    slot_content, ComponentsHandler, ComponentsStorage, NUM_OF_COMPONENTS_PER_PAGE,
};
use crate::entity::{
    has_bit, is_selection, lemma_bit_not_zero, lemma_no_bit_in_zero, lemma_passes_bit, passes,
    BitmaskType, EntitiesHandler, EntitiesStorage, Entity, BITMASK_WIDTH,
};
use crate::error::EcsError;
use crate::free_list::{new_queue, pop, push, queued};
use crate::system::{
    asks_missing_unique, asks_unregistered, filter_of, lemma_filter_holds, AccessRequest, Plan,
};
use crate::type_map::ComponentId;
use crossbeam_queue::SegQueue;
use std::sync::Arc;
use vstd::prelude::*;

verus! {

/// The entity table of the world.
pub type DefaultEntitiesStorage = EntitiesStorage<NUM_OF_COMPONENTS_PER_PAGE>;

/// What registers component types.
pub trait ComponentHandler<V>: Sized {
    /// The invariant of the handler.
    spec fn consistent(&self) -> bool;

    /// Whether the type `type_id` can be registered: it is registered
    /// already, or a bit is left for it.
    spec fn can_register(&self, type_id: ComponentId) -> bool;

    /// Whether `after` and `bit` are what registering the type `type_id`
    /// makes of `self`.
    spec fn registers(&self, type_id: ComponentId, after: &Self, bit: u8) -> bool;

    /// Whether `after` is what installing `value` as the unique component of
    /// the type `type_id` makes of `self`.
    spec fn registers_unique(&self, type_id: ComponentId, value: V, after: &Self) -> bool;

    /// Registers the component type `type_id` and returns its bit position.
    fn register(&mut self, type_id: ComponentId) -> (bit: u8)
        requires
            old(self).consistent(),
            old(self).can_register(type_id),
        ensures
            final(self).consistent(),
            old(self).registers(type_id, final(self), bit),
    ;

    /// Installs `c` as the unique component of the type `type_id`.
    fn register_unique(&mut self, type_id: ComponentId, c: V)
        requires
            old(self).consistent(),
        ensures
            final(self).consistent(),
            old(self).registers_unique(type_id, c, final(self)),
    ;
}

/// What creates and removes entities.
pub trait EntityHandler<V>: Sized {
    /// The invariant of the handler.
    spec fn sound(&self) -> bool;

    /// Whether an identifier is left for one more entity.
    spec fn has_free_id(&self) -> bool;

    /// Whether `after` and `r` are what adding an entity with the bundle
    /// `components` makes of `self`.
    spec fn adds(
        &self,
        components: Seq<(ComponentId, V)>,
        after: &Self,
        r: Result<Entity, EcsError>,
    ) -> bool;

    /// Whether `after` is what removing `entity` makes of `self`.
    spec fn removes(&self, entity: Entity, after: &Self) -> bool;

    /// Creates an entity that owns the components of the bundle
    /// `components`, each given with the identifier of its type.
    fn add_entity<B: ComponentBundler<V>>(&mut self, components: B) -> (r: Result<Entity, EcsError>)
        requires
            old(self).sound(),
            old(self).has_free_id(),
            components.bundle().len() >= 1,
        ensures
            final(self).sound(),
            old(self).adds(components.bundle(), final(self), r),
    ;

    /// Removes `entity` with all its components. Nothing happens where the
    /// entity is not alive.
    fn remove_entity(&mut self, entity: Entity)
        requires
            old(self).sound(),
        ensures
            final(self).sound(),
            old(self).removes(entity, final(self)),
    ;
}

/// A world of entities and their components of type `V`.
pub struct World<V> {
    /// The registry of component types, with their columns.
    components_storage: ComponentsStorage<V>,
    /// The bitmask of each entity.
    entities_storage: DefaultEntitiesStorage,
    /// The number of identifiers issued so far: the next fresh one.
    number_of_entities: usize,
    /// The identifiers of removed entities, to be issued again.
    free_entities: SegQueue<usize>,
}

impl<V> Default for World<V> {
    /// Creates a world without types, unique components or entities.
    fn default() -> (w: Self)
        ensures
            w.wf(),
            w.issued() == 0,
            w.free().len() == 0,
            w.registry().count() == 0,
            forall|id: int| !w.live(id),
    {
        Self::new()
    }
}

impl<V> World<V> {
    /// The registry of the world.
    pub closed spec fn registry(&self) -> ComponentsStorage<V> {
        self.components_storage
    }

    /// The entity table of the world.
    pub closed spec fn table(&self) -> DefaultEntitiesStorage {
        self.entities_storage
    }

    /// The number of identifiers issued so far, which is the next fresh one.
    pub closed spec fn issued(&self) -> nat {
        self.number_of_entities as nat
    }

    /// The identifiers that wait to be issued again, the next one first.
    pub closed spec fn free(&self) -> Seq<usize> {
        queued(self.free_entities)
    }

    /// The bitmask of the entity `id`: empty where the table has none.
    pub open spec fn mask(&self, id: int) -> BitmaskType {
        match self.table().mask_of(id) {
            Some(mask) => mask,
            None => 0,
        }
    }

    /// Whether the entity `id` is alive: it owns at least one component.
    pub open spec fn live(&self, id: int) -> bool {
        self.mask(id) != 0
    }

    /// The identifier that the next new entity gets: the first of the free
    /// ones, or a fresh one where none is free.
    pub open spec fn next_id(&self) -> int {
        if self.free().len() > 0 {
            self.free()[0] as int
        } else {
            self.issued() as int
        }
    }

    /// The invariant of the world.
    ///
    /// The registry and the table keep theirs, so that all columns have the
    /// same page count. No identifier beyond the issued ones has a bitmask.
    /// A free identifier was issued, belongs to no living entity, and waits
    /// only once. A column holds a component for an entity exactly where
    /// the entity's bitmask holds the column's bit.
    pub open spec fn wf(&self) -> bool {
        &&& self.registry().valid()
        &&& self.table().valid()
        &&& forall|id: int| id >= self.issued() ==> (#[trigger] self.table().mask_of(id)) is None
        &&& forall|k: int|
            0 <= k < self.free().len() ==> (#[trigger] self.free()[k]) < self.issued()
                && self.mask(self.free()[k] as int) == 0
        &&& forall|j: int, k: int|
            0 <= j < k < self.free().len() ==> self.free()[j] != self.free()[k]
        &&& forall|bit: int, id: int|
            (#[trigger] self.registry().content(bit, id)) is Some <==> has_bit(self.mask(id), bit)
    }

    /// Whether the registry of `after` knows the types and the unique
    /// components of `self`, under the same bits.
    pub open spec fn same_types(&self, after: &Self) -> bool {
        &&& after.registry().count() == self.registry().count()
        &&& forall|t: ComponentId| (#[trigger] after.registry().bit_of(t)) == self.registry().bit_of(t)
        &&& forall|t: ComponentId|
            (#[trigger] after.registry().unique_of(t)) == self.registry().unique_of(t)
    }

    /// Whether `after` holds for every entity but `id` what `self` holds.
    pub open spec fn same_entities_but(&self, after: &Self, id: int) -> bool {
        &&& forall|i: int|
            i != id ==> (#[trigger] after.table().mask_of(i)) == self.table().mask_of(i)
        &&& forall|b: int, i: int|
            i != id ==> (#[trigger] after.registry().content(b, i)) == self.registry().content(b, i)
    }

    /// Whether `after` shows in every respect what `self` shows.
    pub open spec fn same_as(&self, after: &Self) -> bool {
        &&& self.same_types(after)
        &&& after.issued() == self.issued()
        &&& after.free() == self.free()
        &&& after.registry().pages() == self.registry().pages()
        &&& forall|i: int| (#[trigger] after.table().mask_of(i)) == self.table().mask_of(i)
        &&& forall|b: int, i: int|
            (#[trigger] after.registry().content(b, i)) == self.registry().content(b, i)
    }

    /// Creates a world without types, unique components or entities.
    pub fn new() -> (w: Self)
        ensures
            w.wf(),
            w.issued() == 0,
            w.free().len() == 0,
            w.registry().count() == 0,
            w.registry().pages() == 1,
            forall|t: ComponentId| (#[trigger] w.registry().bit_of(t)) is None,
            forall|t: ComponentId| (#[trigger] w.registry().unique_of(t)) is None,
            forall|id: int| !w.live(id),
    {
        let w = Self {
            components_storage: ComponentsStorage::new(),
            entities_storage: EntitiesStorage::new(),
            number_of_entities: 0,
            free_entities: new_queue(),
        };
        proof {
            assert forall|bit: int, id: int|
                (#[trigger] w.registry().content(bit, id)) is Some <==> has_bit(
                    w.mask(id),
                    bit,
                ) by {
                lemma_no_bit_in_zero(bit);
            }
        }
        w
    }

    /// Takes the identifier for a new entity: the first of the free ones,
    /// or a fresh one where none is free.
    fn generate_entity(&mut self) -> (e: Entity)
        requires
            old(self).wf(),
            old(self).free().len() > 0 || old(self).issued() < usize::MAX,
        ensures
            e.id == old(self).next_id(),
            e.id < final(self).issued(),
            final(self).registry() == old(self).registry(),
            final(self).table() == old(self).table(),
            final(self).free() == if old(self).free().len() > 0 {
                old(self).free().drop_first()
            } else {
                old(self).free()
            },
            final(self).issued() == if old(self).free().len() > 0 {
                old(self).issued()
            } else {
                old(self).issued() + 1
            },
    {
        match pop(&mut self.free_entities) {
            Some(free_entity) => Entity::new(free_entity),
            None => {
                let id = self.number_of_entities;
                self.number_of_entities = id + 1;
                Entity::new(id)
            },
        }
    }
}

impl<V> ComponentHandler<V> for World<V> {
    open spec fn consistent(&self) -> bool {
        self.wf()
    }

    open spec fn can_register(&self, type_id: ComponentId) -> bool {
        self.registry().bit_of(type_id) is Some || self.registry().count()
            < BITMASK_WIDTH
    }

    /// A new type gets the next bit and an empty column; a type that is
    /// registered already keeps its bit. Every other type, every unique
    /// component and every entity stays as it is.
    open spec fn registers(&self, type_id: ComponentId, after: &Self, bit: u8) -> bool {
        &&& after.registry().bit_of(type_id) == Some(bit)
        &&& match self.registry().bit_of(type_id) {
            Some(known) => bit == known && after.registry().count() == self.registry().count(),
            None => bit == self.registry().count() && after.registry().count()
                == self.registry().count() + 1,
        }
        &&& forall|t: ComponentId|
            t != type_id ==> (#[trigger] after.registry().bit_of(t)) == self.registry().bit_of(t)
        &&& forall|t: ComponentId|
            (#[trigger] after.registry().unique_of(t)) == self.registry().unique_of(t)
        &&& after.registry().pages() == self.registry().pages()
        &&& after.issued() == self.issued()
        &&& after.free() == self.free()
        &&& forall|i: int| (#[trigger] after.table().mask_of(i)) == self.table().mask_of(i)
        &&& forall|b: int, i: int|
            (#[trigger] after.registry().content(b, i)) == self.registry().content(b, i)
    }

    /// The type has `value` as its unique component. Every other unique
    /// component, every type and every entity stays as it is.
    open spec fn registers_unique(&self, type_id: ComponentId, value: V, after: &Self) -> bool {
        &&& after.registry().unique_of(type_id) == Some(value)
        &&& forall|t: ComponentId|
            t != type_id ==> (#[trigger] after.registry().unique_of(t)) == self.registry().unique_of(
                t,
            )
        &&& after.registry().count() == self.registry().count()
        &&& forall|t: ComponentId| (#[trigger] after.registry().bit_of(t)) == self.registry().bit_of(t)
        &&& after.registry().pages() == self.registry().pages()
        &&& after.issued() == self.issued()
        &&& after.free() == self.free()
        &&& forall|i: int| (#[trigger] after.table().mask_of(i)) == self.table().mask_of(i)
        &&& forall|b: int, i: int|
            (#[trigger] after.registry().content(b, i)) == self.registry().content(b, i)
    }

    fn register(&mut self, type_id: ComponentId) -> (bit: u8) {
        let bit = self.components_storage.register(type_id);
        proof {
            old(self).registry().lemma_valid();
            assert forall|b: int, i: int|
                (#[trigger] self.registry().content(b, i)) is Some <==> has_bit(
                    self.mask(i),
                    b,
                ) by {
                if b == bit && old(self).registry().bit_of(type_id) is None {
                    assert(old(self).registry().content(b, i) is None);
                } else {
                    assert(self.registry().content(b, i) == old(self).registry().content(b, i));
                }
            }
            assert(self.table() == old(self).table());
            assert(self.free() == old(self).free());
        }
        bit
    }

    fn register_unique(&mut self, type_id: ComponentId, c: V) {
        self.components_storage.register_unique(type_id, c);
        proof {
            assert forall|b: int, i: int|
                (#[trigger] self.registry().content(b, i)) is Some <==> has_bit(
                    self.mask(i),
                    b,
                ) by {
                assert(self.registry().content(b, i) == old(self).registry().content(b, i));
            }
            assert(self.table() == old(self).table());
            assert(self.free() == old(self).free());
        }
    }
}

impl<V> EntityHandler<V> for World<V> {
    open spec fn sound(&self) -> bool {
        self.wf()
    }

    open spec fn has_free_id(&self) -> bool {
        self.free().len() > 0 || self.issued() < usize::MAX
    }

    /// Where every type of the bundle is registered, the entity gets the
    /// next identifier, its bitmask is that of the bundle, and each column
    /// holds for it what the bundle brings; the columns grow to the
    /// entity's page where they did not reach it. Else the call fails and
    /// the world shows what it showed. No other entity changes.
    open spec fn adds(
        &self,
        components: Seq<(ComponentId, V)>,
        after: &Self,
        r: Result<Entity, EcsError>,
    ) -> bool {
        let bits = |t: ComponentId| self.registry().bit_of(t);
        if all_registered(bits, components) {
            let id = self.next_id();
            &&& r == Ok::<Entity, EcsError>(Entity { id: id as usize })
            &&& self.same_types(after)
            &&& self.same_entities_but(after, id)
            &&& after.free() == if self.free().len() > 0 {
                self.free().drop_first()
            } else {
                self.free()
            }
            &&& after.issued() == if self.free().len() > 0 {
                self.issued()
            } else {
                self.issued() + 1
            }
            &&& after.table().mask_of(id) == Some(bundle_mask(bits, components))
            &&& forall|b: int| (#[trigger] after.registry().content(b, id)) == bundled(
                bits,
                components,
                b,
            )
            &&& after.registry().pages() == pages_after_write(self.registry().pages(), id)
        } else {
            &&& r == Err::<Entity, EcsError>(EcsError::UnregisteredComponent)
            &&& self.same_as(after)
        }
    }

    /// Where the entity is alive, its bitmask is empty, no column holds a
    /// component for it, and its identifier waits behind the free ones.
    /// Else the world shows what it showed. No other entity changes.
    open spec fn removes(&self, entity: Entity, after: &Self) -> bool {
        if self.live(entity.id as int) {
            &&& self.same_types(after)
            &&& self.same_entities_but(after, entity.id as int)
            &&& after.issued() == self.issued()
            &&& after.registry().pages() == self.registry().pages()
            &&& after.free() == self.free().push(entity.id)
            &&& after.table().mask_of(entity.id as int) == Some(0u64)
            &&& forall|b: int| (#[trigger] after.registry().content(b, entity.id as int)) is None
        } else {
            self.same_as(after)
        }
    }

    fn add_entity<B: ComponentBundler<V>>(&mut self, components: B) -> (r: Result<
        Entity,
        EcsError,
    >) {
        let ghost bits = |t: ComponentId| old(self).registry().bit_of(t);
        let ghost bundle = components.bundle();
        let ids = components.ids();
        if !self.components_storage.registered_all(&ids) {
            proof {
                let k = choose|k: int|
                    0 <= k < ids@.len() && (#[trigger] self.registry().bit_of(ids@[k])) is None;
                assert(bits(bundle[k].0) is None);
            }
            return Err(EcsError::UnregisteredComponent);
        }
        proof {
            assert forall|k: int| 0 <= k < bundle.len() implies (#[trigger] bits(
                bundle[k].0,
            )) is Some by {
                assert(self.registry().bit_of(ids@[k]) is Some);
            }
        }
        let entity = self.generate_entity();
        let ghost id = entity.id as int;
        proof {
            old(self).registry().lemma_valid();
            assert(old(self).mask(id) == 0);
            assert forall|b: int| (#[trigger] old(self).registry().content(b, id)) is None by {
                lemma_no_bit_in_zero(b);
            }
        }
        let bitmask = match components.add_components(entity, &mut self.components_storage) {
            Ok(bitmask) => bitmask,
            Err(e) => {
                return Err(e);
            },
        };
        self.entities_storage.register_bitmask(&entity, &bitmask);
        proof {
            assert forall|b: int, i: int|
                (#[trigger] self.registry().content(b, i)) is Some <==> has_bit(
                    self.mask(i),
                    b,
                ) by {
                if i == id {
                    lemma_bundle_mask_bits(bits, bundle, b);
                } else {
                    assert(self.registry().content(b, i) == old(self).registry().content(b, i));
                    assert(self.table().mask_of(i) == old(self).table().mask_of(i));
                }
            }
            assert forall|k: int| 0 <= k < self.free().len() implies (#[trigger] self.free()[k])
                < self.issued() && self.mask(self.free()[k] as int) == 0 by {
                if old(self).free().len() > 0 {
                    assert(self.free()[k] == old(self).free()[k + 1]);
                    assert(old(self).free()[0] != old(self).free()[k + 1]);
                } else {
                    assert(self.free()[k] == old(self).free()[k]);
                }
            }
            assert forall|j: int, k: int| 0 <= j < k < self.free().len() implies self.free()[j]
                != self.free()[k] by {
                if old(self).free().len() > 0 {
                    assert(self.free()[j] == old(self).free()[j + 1]);
                    assert(self.free()[k] == old(self).free()[k + 1]);
                }
            }
        }
        Ok(entity)
    }

    fn remove_entity(&mut self, entity: Entity) {
        let live = match self.entities_storage.get_bitmask(&entity) {
            Ok(mask) => mask != 0,
            Err(_) => false,
        };
        if !live {
            return;
        }
        self.entities_storage.reset_bitmask(&entity);
        self.components_storage.remove_components(&entity);
        push(&mut self.free_entities, entity.id);
        proof {
            let id = entity.id as int;
            assert forall|b: int, i: int|
                (#[trigger] self.registry().content(b, i)) is Some <==> has_bit(
                    self.mask(i),
                    b,
                ) by {
                if i == id {
                    lemma_no_bit_in_zero(b);
                } else {
                    assert(self.registry().content(b, i) == old(self).registry().content(b, i));
                    assert(self.table().mask_of(i) == old(self).table().mask_of(i));
                }
            }
            assert forall|k: int| 0 <= k < self.free().len() implies (#[trigger] self.free()[k])
                < self.issued() && self.mask(self.free()[k] as int) == 0 by {
                if k < old(self).free().len() {
                    assert(self.free()[k] == old(self).free()[k]);
                }
            }
            assert forall|j: int, k: int| 0 <= j < k < self.free().len() implies self.free()[j]
                != self.free()[k] by {
                assert(self.free()[j] == old(self).free()[j]);
                if k < old(self).free().len() {
                    assert(self.free()[k] == old(self).free()[k]);
                }
            }
        }
    }
}

/// What answers a system before it runs.
pub trait SystemHandler<V>: Sized {
    /// The invariant of the handler.
    spec fn ready(&self) -> bool;

    /// Whether `r` is the answer to a system with the handles `requests`.
    spec fn plans(&self, requests: Seq<AccessRequest>, r: Result<Plan, EcsError>) -> bool;

    /// Answers a system with the handles `requests`: its filter and the
    /// entities that pass it, or the reason why the system cannot run.
    fn plan(&self, requests: &Vec<AccessRequest>) -> (r: Result<Plan, EcsError>)
        requires
            self.ready(),
        ensures
            self.plans(requests@, r),
    ;
}

impl<V> SystemHandler<V> for World<V> {
    open spec fn ready(&self) -> bool {
        self.wf()
    }

    /// A handle on a column whose type is not registered fails the system
    /// with `UnregisteredComponent`; else a handle on a unique component
    /// that is not installed fails it with `MissingUnique`; else the answer
    /// holds the filter of the handles and, by ascending identifier, the
    /// entities whose bitmask passes it.
    open spec fn plans(&self, requests: Seq<AccessRequest>, r: Result<Plan, EcsError>) -> bool {
        let bits = |t: ComponentId| self.registry().bit_of(t);
        let installed = |t: ComponentId| self.registry().unique_of(t) is Some;
        if asks_unregistered(bits, requests) {
            r matches Err(e) && e == EcsError::UnregisteredComponent
        } else if asks_missing_unique(installed, requests) {
            r matches Err(e) && e == EcsError::MissingUnique
        } else {
            r matches Ok(plan) && plan.filter == filter_of(bits, requests) && is_selection(
                plan.entities@,
                |i: int| self.table().mask_of(i) matches Some(mask) && passes(mask, plan.filter),
            )
        }
    }

    fn plan(&self, requests: &Vec<AccessRequest>) -> (r: Result<Plan, EcsError>) {
        let ghost bits = |t: ComponentId| self.registry().bit_of(t);
        let ghost installed = |t: ComponentId| self.registry().unique_of(t) is Some;
        let mut bitmasks: BitmaskType = 0;
        let mut k: usize = 0;
        while k < requests.len()
            invariant
                k <= requests@.len(),
                self.wf(),
                bits == |t: ComponentId| self.registry().bit_of(t),
                bitmasks == filter_of(bits, requests@.take(k as int)),
                forall|j: int|
                    0 <= j < k && !(#[trigger] requests@[j]).kind.unique() ==> bits(
                        requests@[j].type_id,
                    ) is Some,
            decreases requests@.len() - k,
        {
            proof {
                assert(requests@.take(k + 1).drop_last() == requests@.take(k as int));
                assert(requests@.take(k + 1).last() == requests@[k as int]);
            }
            if !requests[k].kind.is_unique() {
                match self.components_storage.bitmask(requests[k].type_id) {
                    Ok(bitmask) => {
                        bitmasks = bitmasks | bitmask;
                    },
                    Err(e) => {
                        assert(bits(requests@[k as int].type_id) is None);
                        return Err(e);
                    },
                }
            } else {
                assert(bitmasks | 0 == bitmasks) by (bit_vector);
            }
            k += 1;
        }
        proof {
            assert(requests@.take(requests@.len() as int) == requests@);
            assert(!asks_unregistered(bits, requests@));
        }
        let mut u: usize = 0;
        while u < requests.len()
            invariant
                u <= requests@.len(),
                self.wf(),
                bits == |t: ComponentId| self.registry().bit_of(t),
                !asks_unregistered(bits, requests@),
                installed == |t: ComponentId| self.registry().unique_of(t) is Some,
                forall|j: int|
                    0 <= j < u && (#[trigger] requests@[j]).kind.unique() ==> installed(
                        requests@[j].type_id,
                    ),
            decreases requests@.len() - u,
        {
            if requests[u].kind.is_unique() {
                if self.components_storage.unique_component(&requests[u].type_id).is_none() {
                    assert(requests@[u as int].kind.unique() && !installed(
                        requests@[u as int].type_id,
                    ));
                    return Err(EcsError::MissingUnique);
                }
            }
            u += 1;
        }
        let filtered_entities = Arc::new(self.entities_storage.query_by_bitmask(bitmasks));
        Ok(Plan { filter: bitmasks, entities: filtered_entities })
    }
}

impl<V> World<V> {
    /// Returns the view that reads the components of the type `type_id`
    /// for the entities `entities`.
    pub fn read(&self, type_id: ComponentId, entities: Arc<Vec<Entity>>) -> (r: Result<
        Read<'_, V>,
        EcsError,
    >)
        requires
            self.wf(),
        ensures
            match self.registry().bit_of(type_id) {
                Some(bit) => r matches Ok(view) && view.valid() && view.entities() == entities@
                    && forall|id: int|
                    (#[trigger] view.content(id)) == self.registry().content(bit as int, id),
                None => r matches Err(e) && e == EcsError::UnregisteredComponent,
            },
    {
        match self.components_storage.component_buffer(&type_id) {
            Some(buffer) => Ok(Read::new(buffer, entities)),
            None => Err(EcsError::UnregisteredComponent),
        }
    }

    /// Returns the view that reads the unique component of the type
    /// `type_id`.
    pub fn unique_read(&self, type_id: ComponentId) -> (r: Result<UniqueRead<'_, V>, EcsError>)
        requires
            self.wf(),
        ensures
            match self.registry().unique_of(type_id) {
                Some(component) => r matches Ok(view) && view@ == component,
                None => r matches Err(e) && e == EcsError::MissingUnique,
            },
    {
        match self.components_storage.unique_component(&type_id) {
            Some(component) => Ok(UniqueRead::unique_new(component)),
            None => Err(EcsError::MissingUnique),
        }
    }
}

impl<V> World<V> {
    /// Whether `after` differs from `self` in nothing but the components
    /// that the column of the bit `bit` holds, and holds one there for
    /// exactly the entities for which `self` holds one.
    pub open spec fn rewritten(&self, after: &Self, bit: int) -> bool {
        &&& after.registry().valid()
        &&& after.table().valid()
        &&& self.same_types(after)
        &&& after.issued() == self.issued()
        &&& after.free() == self.free()
        &&& after.registry().pages() == self.registry().pages()
        &&& forall|i: int| (#[trigger] after.table().mask_of(i)) == self.table().mask_of(i)
        &&& forall|b: int, i: int|
            b != bit ==> (#[trigger] after.registry().content(b, i)) == self.registry().content(b, i)
        &&& forall|i: int|
            (#[trigger] after.registry().content(bit, i)) is Some <==> self.registry().content(
                bit,
                i,
            ) is Some
    }

    /// Rewriting the components of one column keeps the invariant of the
    /// world.
    pub proof fn lemma_rewritten(&self, after: &Self, bit: int)
        requires
            self.wf(),
            self.rewritten(after, bit),
        ensures
            after.wf(),
    {
        assert forall|b: int, i: int|
            (#[trigger] after.registry().content(b, i)) is Some <==> has_bit(
                after.mask(i),
                b,
            ) by {
            assert(after.table().mask_of(i) == self.table().mask_of(i));
            assert(self.registry().content(b, i) is Some <==> has_bit(self.mask(i), b));
        }
        assert forall|id: int| id >= after.issued() implies (#[trigger] after.table().mask_of(
            id,
        )) is None by {
            assert(self.table().mask_of(id) is None);
        }
    }

    /// Returns the view that writes the components of the type `type_id`
    /// for the entities `entities`. What the caller leaves in the column of
    /// the view is what the world then holds for the type; the world keeps
    /// its invariant where the column keeps its own, its page count, and a
    /// component for exactly the entities that had one.
    pub fn write(&mut self, type_id: ComponentId, entities: Arc<Vec<Entity>>) -> (r: Result<
        Write<'_, V>,
        EcsError,
    >)
        requires
            old(self).wf(),
        ensures
            match old(self).registry().bit_of(type_id) {
                Some(bit) => r matches Ok(view) && {
                    &&& view.buffer.wf()
                    &&& view.entities() == entities@
                    &&& view.buffer.pages() == old(self).registry().pages()
                    &&& forall|i: int|
                        slot_content(#[trigger] view.buffer.cell(i)) == old(self).registry().content(
                            bit as int,
                            i,
                        )
                    &&& forall|i: int|
                        (#[trigger] final(self).registry().content(bit as int, i)) == slot_content(
                            final(view.buffer).cell(i),
                        )
                    &&& final(view.buffer).wf() && final(view.buffer).pages()
                        == view.buffer.pages() && (forall|i: int|
                        slot_content(#[trigger] final(view.buffer).cell(i)) is Some
                            <==> slot_content(view.buffer.cell(i)) is Some) ==> old(self).rewritten(final(self), bit as int)
                },
                None => r matches Err(e) && e == EcsError::UnregisteredComponent && final(self).wf() && old(self).same_as(final(self)),
            },
    {
        proof {
            let before = *self;
            assert forall|after: Self|
                after.registry().valid() && #[trigger] before.same_as(&after) && after.table()
                    == before.table() implies after.wf() by {
                before.lemma_rewritten(&after, 0);
            }
        }
        match self.components_storage.component_buffer_mut(&type_id) {
            Some(buffer) => Ok(Write::new(buffer, entities)),
            None => Err(EcsError::UnregisteredComponent),
        }
    }

    /// Returns the view that writes the unique component of the type
    /// `type_id`. What the caller leaves in it is the unique component of
    /// the type from then on; nothing else changes.
    pub fn unique_write(&mut self, type_id: ComponentId) -> (r: Result<UniqueWrite<'_, V>, EcsError>)
        requires
            old(self).wf(),
        ensures
            final(self).registry().valid(),
            final(self).table() == old(self).table(),
            final(self).issued() == old(self).issued(),
            final(self).free() == old(self).free(),
            final(self).registry().count() == old(self).registry().count(),
            final(self).registry().pages() == old(self).registry().pages(),
            forall|t: ComponentId|
                (#[trigger] final(self).registry().bit_of(t)) == old(self).registry().bit_of(t),
            forall|b: int, i: int|
                (#[trigger] final(self).registry().content(b, i)) == old(self).registry().content(
                    b,
                    i,
                ),
            forall|t: ComponentId|
                t != type_id ==> (#[trigger] final(self).registry().unique_of(t)) == old(self).registry().unique_of(t),
            match old(self).registry().unique_of(type_id) {
                Some(component) => r matches Ok(view) && view.unique@ == component && final(self).registry().unique_of(type_id) == Some(final(view.unique)@),
                None => r matches Err(e) && e == EcsError::MissingUnique && final(self).registry().unique_of(type_id) is None,
            },
    {
        match self.components_storage.unique_component_mut(&type_id) {
            Some(component) => Ok(UniqueWrite::unique_new(component)),
            None => Err(EcsError::MissingUnique),
        }
    }

    /// Changing a unique component keeps the invariant of the world.
    pub proof fn lemma_unique_rewritten(&self, after: &Self)
        requires
            self.wf(),
            after.registry().valid(),
            after.table() == self.table(),
            after.issued() == self.issued(),
            after.free() == self.free(),
            forall|b: int, i: int|
                (#[trigger] after.registry().content(b, i)) == self.registry().content(b, i),
        ensures
            after.wf(),
    {
        assert forall|b: int, i: int|
            (#[trigger] after.registry().content(b, i)) is Some <==> has_bit(
                after.mask(i),
                b,
            ) by {
            assert(self.registry().content(b, i) is Some <==> has_bit(self.mask(i), b));
        }
    }
}

impl<V> World<V> {
    /// Returns the registry, to read it.
    pub fn components(&self) -> (r: &ComponentsStorage<V>)
        ensures
            *r == self.registry(),
    {
        &self.components_storage
    }

    /// Returns the entity table, to read it.
    pub fn entities(&self) -> (r: &DefaultEntitiesStorage)
        ensures
            *r == self.table(),
    {
        &self.entities_storage
    }

    /// Returns the number of identifiers issued so far.
    pub fn number_of_entities(&self) -> (n: usize)
        ensures
            n == self.issued(),
    {
        self.number_of_entities
    }

    /// In a world that keeps its invariant, all columns have the same
    /// number of pages.
    pub proof fn lemma_columns_in_step(&self, a: int, b: int)
        requires
            self.wf(),
            0 <= a < self.registry().count(),
            0 <= b < self.registry().count(),
        ensures
            self.registry().column_pages(a) == self.registry().column_pages(b),
    {
        self.registry().lemma_columns_in_step(a, b);
    }

    /// In a world that keeps its invariant, the column of a bit holds a
    /// component for an entity where the entity's bitmask holds the bit, and
    /// holds none where it does not.
    pub proof fn lemma_cells_follow_bitmask(&self, id: int, bit: int)
        requires
            self.wf(),
        ensures
            has_bit(self.mask(id), bit) ==> self.registry().content(bit, id) is Some,
            !has_bit(self.mask(id), bit) ==> self.registry().content(bit, id) is None,
    {
    }

    /// An entity that passes a filter owns a component of every type whose
    /// bit the filter holds: a view built for such a type and such entities
    /// misses no cell.
    pub proof fn lemma_selected_cells(
        &self,
        found: Seq<Entity>,
        filter: BitmaskType,
        bit: int,
        k: int,
    )
        requires
            self.wf(),
            is_selection(
                found,
                |i: int| self.table().mask_of(i) matches Some(mask) && passes(mask, filter),
            ),
            has_bit(filter, bit),
            0 <= k < found.len(),
        ensures
            self.registry().content(bit, found[k].id as int) is Some,
    {
        let id = found[k].id as int;
        let selected = |i: int| self.table().mask_of(i) matches Some(mask) && passes(mask, filter);
        assert(selected(id));
        lemma_passes_bit(self.mask(id), filter, bit);
    }

    /// The entities that the world hands to a system own a component of
    /// every type that one of the system's handles on a column names: no
    /// view built for the system misses a cell.
    pub proof fn lemma_planned_cells(
        &self,
        requests: Seq<AccessRequest>,
        plan: Plan,
        k: int,
        j: int,
    )
        requires
            self.wf(),
            self.plans(requests, Ok(plan)),
            0 <= k < requests.len(),
            !requests[k].kind.unique(),
            0 <= j < plan.entities@.len(),
        ensures
            self.registry().bit_of(requests[k].type_id) is Some,
            self.registry().content(
                self.registry().bit_of(requests[k].type_id)->0 as int,
                plan.entities@[j].id as int,
            ) is Some,
    {
        let bits = |t: ComponentId| self.registry().bit_of(t);
        self.registry().lemma_valid();
        assert(!asks_unregistered(bits, requests));
        assert(bits(requests[k].type_id) is Some);
        lemma_filter_holds(bits, requests, k);
        let bit = bits(requests[k].type_id)->0 as int;
        self.lemma_selected_cells(plan.entities@, plan.filter, bit, j);
    }

    /// Registering a type leaves every registered type its bit, the type
    /// itself too where it was registered before.
    pub proof fn lemma_bits_are_stable(
        &self,
        type_id: ComponentId,
        after: &Self,
        bit: u8,
        known: ComponentId,
    )
        requires
            self.registers(type_id, after, bit),
            self.registry().bit_of(known) is Some,
        ensures
            after.registry().bit_of(known) == self.registry().bit_of(known),
    {
    }

    /// The identifier that the next new entity gets belongs to no living
    /// entity: identifiers are unique among the living.
    pub proof fn lemma_next_id_not_live(&self)
        requires
            self.wf(),
        ensures
            !self.live(self.next_id()),
    {
        if self.free().len() > 0 {
            assert(self.mask(self.free()[0] as int) == 0);
        }
    }

    /// An entity that was added is alive: its bitmask is not empty.
    pub proof fn lemma_added_is_live(
        &self,
        added: &Self,
        components: Seq<(ComponentId, V)>,
        entity: Entity,
    )
        requires
            self.wf(),
            components.len() >= 1,
            self.adds(components, added, Ok(entity)),
        ensures
            added.live(entity.id as int),
    {
        let bits = |t: ComponentId| self.registry().bit_of(t);
        self.registry().lemma_valid();
        assert(all_registered(bits, components));
        assert(bits(components[components.len() - 1].0) is Some);
        let last = bits(components.last().0)->0 as int;
        assert(bundled(bits, components, last) is Some);
        lemma_bundle_mask_bits(bits, components, last);
        lemma_bit_not_zero(added.mask(entity.id as int), last);
    }

    /// An entity that is removed while no identifier waits gives its
    /// identifier to the next entity that is added, whose bitmask is that of
    /// its bundle.
    pub proof fn lemma_recycled_id(
        &self,
        removed: &Self,
        added: &Self,
        entity: Entity,
        components: Seq<(ComponentId, V)>,
        r: Result<Entity, EcsError>,
    )
        requires
            self.wf(),
            self.live(entity.id as int),
            self.free().len() == 0,
            self.removes(entity, removed),
            all_registered(|t: ComponentId| self.registry().bit_of(t), components),
            removed.adds(components, added, r),
        ensures
            r == Ok::<Entity, EcsError>(entity),
            added.mask(entity.id as int) == bundle_mask(
                |t: ComponentId| self.registry().bit_of(t),
                components,
            ),
    {
        let bits = |t: ComponentId| self.registry().bit_of(t);
        let later = |t: ComponentId| removed.registry().bit_of(t);
        assert(removed.free() == seq![entity.id]);
        assert(removed.next_id() == entity.id);
        assert(bits =~= later);
    }
}

impl<V> World<V> {
    /// Runs `system` on the calling thread: asks the world for the answer to
    /// the handles `requests` and, where there is one, calls `system` with
    /// the datum `data`, the world and the answer. The system builds its
    /// views from the world and the entities of the answer.
    pub fn run_sync_with_data<D, F: FnOnce(D, &World<V>, Plan) -> ()>(
        &self,
        requests: &Vec<AccessRequest>,
        system: F,
        data: D,
    ) -> (r: Result<(), EcsError>)
        requires
            self.wf(),
            forall|plan: Plan|
                self.plans(requests@, Ok(plan)) ==> call_requires(system, (data, self, plan)),
        ensures
            match r {
                Ok(_) => exists|plan: Plan|
                    self.plans(requests@, Ok(plan)) && call_ensures(
                        system,
                        (data, self, plan),
                        (),
                    ),
                Err(e) => self.plans(requests@, Err(e)),
            },
    {
        match self.plan(requests) {
            Ok(plan) => {
                system(data, self, plan);
                Ok(())
            },
            Err(e) => Err(e),
        }
    }
}

} // verus!
