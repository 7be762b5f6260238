//! Bundles: the components that an entity is created with.

use crate::component::{
    all_registered, bundle_mask, bundled, pages_after_write, ComponentsHandler,
};
use crate::entity::{BitmaskType, Entity};
use crate::error::EcsError;
use crate::type_map::ComponentId;
use vstd::prelude::*;

verus! {

/// Whether `after` and `r` are what installing the bundle `components` for
/// `entity` makes of the registry `before`.
///
/// Where every type of the bundle is registered, `r` is the bitmask of the
/// bundle and each column holds for the entity what the bundle brings, or
/// what it held where the bundle brings nothing; the columns grow to the
/// entity's page where they did not reach it. Else `r` is
/// `UnregisteredComponent` and the registry holds what it held. No type, no
/// unique component and no other entity changes.
pub open spec fn installs<V, Z: ComponentsHandler<V>>(
    before: &Z,
    after: &Z,
    entity: Entity,
    components: Seq<(ComponentId, V)>,
    r: Result<BitmaskType, EcsError>,
) -> bool {
    let bits = |t: ComponentId| before.bit_of(t);
    &&& after.valid()
    &&& after.count() == before.count()
    &&& forall|t: ComponentId| (#[trigger] after.bit_of(t)) == before.bit_of(t)
    &&& forall|t: ComponentId| (#[trigger] after.unique_of(t)) == before.unique_of(t)
    &&& forall|b: int, i: int|
        i != entity.id ==> (#[trigger] after.content(b, i)) == before.content(b, i)
    &&& if all_registered(bits, components) {
        &&& r == Ok::<BitmaskType, EcsError>(bundle_mask(bits, components))
        &&& after.pages() == if components.len() == 0 {
            before.pages()
        } else {
            pages_after_write(before.pages(), entity.id as int)
        }
        &&& forall|b: int| #[trigger]
            after.content(b, entity.id as int) == match bundled(bits, components, b) {
                Some(component) => Some(component),
                None => before.content(b, entity.id as int),
            }
    } else {
        &&& r == Err::<BitmaskType, EcsError>(EcsError::UnregisteredComponent)
        &&& after.pages() == before.pages()
        &&& forall|b: int| #[trigger]
            after.content(b, entity.id as int) == before.content(b, entity.id as int)
    }
}

/// What can be installed as the components of one entity.
pub trait ComponentBundler<V>: Sized {
    /// The components of the bundle, each with the identifier of its type,
    /// in the order in which they are installed.
    spec fn bundle(&self) -> Seq<(ComponentId, V)>;

    /// Returns the identifiers of the types of the bundle's components, in
    /// the order of the bundle.
    fn ids(&self) -> (ids: Vec<ComponentId>)
        ensures
            ids@.len() == self.bundle().len(),
            forall|k: int| 0 <= k < ids@.len() ==> (#[trigger] ids@[k]) == self.bundle()[k].0,
    ;

    /// Installs the components of the bundle for `entity` in `handler` and
    /// returns the bitmask of the bundle.
    fn add_components<Z: ComponentsHandler<V>>(self, entity: Entity, handler: &mut Z) -> (r: Result<
        BitmaskType,
        EcsError,
    >)
        requires
            old(handler).valid(),
            entity.id < usize::MAX,
        ensures
            installs(old(handler), final(handler), entity, self.bundle(), r),
    ;
}

impl<V> ComponentBundler<V> for Vec<(ComponentId, V)> {
    open spec fn bundle(&self) -> Seq<(ComponentId, V)> {
        self@
    }

    fn ids(&self) -> (ids: Vec<ComponentId>) {
        let mut ids: Vec<ComponentId> = Vec::new();
        let mut k: usize = 0;
        while k < self.len()
            invariant
                k <= self@.len(),
                ids@.len() == k,
                forall|j: int| 0 <= j < k ==> (#[trigger] ids@[j]) == self@[j].0,
            decreases self@.len() - k,
        {
            ids.push(self[k].0);
            k += 1;
        }
        ids
    }

    fn add_components<Z: ComponentsHandler<V>>(self, entity: Entity, handler: &mut Z) -> (r: Result<
        BitmaskType,
        EcsError,
    >) {
        handler.add_components(entity, self)
    }
}

impl<V> ComponentBundler<V> for (ComponentId, V) {
    open spec fn bundle(&self) -> Seq<(ComponentId, V)> {
        seq![*self]
    }

    fn ids(&self) -> (ids: Vec<ComponentId>) {
        let mut ids: Vec<ComponentId> = Vec::new();
        ids.push(self.0);
        ids
    }

    fn add_components<Z: ComponentsHandler<V>>(self, entity: Entity, handler: &mut Z) -> (r: Result<
        BitmaskType,
        EcsError,
    >) {
        let mut components: Vec<(ComponentId, V)> = Vec::new();
        components.push(self);
        proof {
            assert(components@ =~= seq![self]);
        }
        handler.add_components(entity, components)
    }
}

} // verus!
