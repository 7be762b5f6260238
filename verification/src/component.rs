//! The component registry: one paged column per component type, the bit of
//! each type, and the store of unique components.

use crate::block_vec::BlockVec;
use crate::entity::{
    has_bit, lemma_bit_added, lemma_no_bit_in_zero, BitmaskType, Entity, BITMASK_WIDTH,
};
use crate::error::EcsError;
use crate::storage::Storage;
use crate::type_map::{get, get_mut, insert, new_map, ComponentId};
use fxhash::FxHashMap;
use vstd::prelude::*;

verus! {

/// The number of cells in one page of a column.
pub const NUM_OF_COMPONENTS_PER_PAGE: usize = 400;

/// A column: for each entity, a slot that is missing, empty, or holds the
/// entity's component of the column's type.
pub type BufferBlockVec<V> = BlockVec<Option<Storage<V>>, NUM_OF_COMPONENTS_PER_PAGE>;

/// The bitmask of the type that has the bit at position `bit`.
pub open spec fn bit_mask(bit: u8) -> BitmaskType {
    1u64 << (bit as u64)
}

/// The component that a slot of a column holds, if it holds one.
pub open spec fn slot_content<V>(slot: Option<Option<Storage<V>>>) -> Option<V> {
    match slot {
        Some(Some(storage)) => Some(storage@),
        _ => None,
    }
}

/// Whether every component of the bundle `bundle` is of a type that has a
/// bit under `bits`.
pub open spec fn all_registered<V>(
    bits: spec_fn(ComponentId) -> Option<u8>,
    bundle: Seq<(ComponentId, V)>,
) -> bool {
    forall|k: int| 0 <= k < bundle.len() ==> (#[trigger] bits(bundle[k].0)) is Some
}

/// The bitmask of the bundle `bundle`: the bits of the types of its
/// components under `bits`.
pub open spec fn bundle_mask<V>(
    bits: spec_fn(ComponentId) -> Option<u8>,
    bundle: Seq<(ComponentId, V)>,
) -> BitmaskType
    decreases bundle.len(),
{
    if bundle.len() == 0 {
        0
    } else {
        bundle_mask(bits, bundle.drop_last()) | match bits(bundle.last().0) {
            Some(bit) => bit_mask(bit),
            None => 0,
        }
    }
}

/// The component that the bundle `bundle` brings for the bit `bit`: the last
/// of its components whose type has that bit under `bits`, if there is one.
pub open spec fn bundled<V>(
    bits: spec_fn(ComponentId) -> Option<u8>,
    bundle: Seq<(ComponentId, V)>,
    bit: int,
) -> Option<V>
    decreases bundle.len(),
{
    if bundle.len() == 0 {
        None
    } else if bits(bundle.last().0) matches Some(b) && b == bit {
        Some(bundle.last().1)
    } else {
        bundled(bits, bundle.drop_last(), bit)
    }
}

/// Whether the component at position `k` of `bundle` is of the type that
/// has the bit `bit` under `bits`.
pub open spec fn brings<V>(
    bits: spec_fn(ComponentId) -> Option<u8>,
    bundle: Seq<(ComponentId, V)>,
    k: int,
    bit: int,
) -> bool {
    0 <= k < bundle.len() && bits(bundle[k].0) == Some(bit as u8) && 0 <= bit < 256
}

/// A bundle brings a component for a bit only where one of its components
/// is of a type that has that bit.
pub proof fn lemma_bundled_bit<V>(
    bits: spec_fn(ComponentId) -> Option<u8>,
    bundle: Seq<(ComponentId, V)>,
    bit: int,
)
    requires
        bundled(bits, bundle, bit) is Some,
    ensures
        exists|k: int| brings(bits, bundle, k, bit),
    decreases bundle.len(),
{
    if bundle.len() > 0 {
        if bits(bundle.last().0) matches Some(b) && b == bit {
            assert(brings(bits, bundle, bundle.len() - 1, bit));
        } else {
            lemma_bundled_bit(bits, bundle.drop_last(), bit);
            let k = choose|k: int| brings(bits, bundle.drop_last(), k, bit);
            assert(bundle.drop_last()[k] == bundle[k]);
            assert(brings(bits, bundle, k, bit));
        }
    }
}

/// The bitmask of a bundle holds a bit exactly where the bundle brings a
/// component for it.
pub proof fn lemma_bundle_mask_bits<V>(
    bits: spec_fn(ComponentId) -> Option<u8>,
    bundle: Seq<(ComponentId, V)>,
    bit: int,
)
    requires
        forall|t: ComponentId| (#[trigger] bits(t)) matches Some(b) ==> b < BITMASK_WIDTH,
    ensures
        has_bit(bundle_mask(bits, bundle), bit) <==> bundled(bits, bundle, bit) is Some,
    decreases bundle.len(),
{
    if bundle.len() == 0 {
        lemma_no_bit_in_zero(bit);
    } else {
        lemma_bundle_mask_bits(bits, bundle.drop_last(), bit);
        let rest = bundle_mask(bits, bundle.drop_last());
        match bits(bundle.last().0) {
            Some(b) => {
                lemma_bit_added(rest, b as int, bit);
            },
            None => {
                assert(rest | 0 == rest) by (bit_vector);
            },
        }
    }
}

/// The page count of columns of `pages` pages after a write for the entity
/// `id`: as before where the entity's page exists, and else more by the
/// number of that page.
pub open spec fn pages_after_write(pages: nat, id: int) -> nat {
    if id < pages * NUM_OF_COMPONENTS_PER_PAGE {
        pages
    } else {
        (pages + id / (NUM_OF_COMPONENTS_PER_PAGE as int)) as nat
    }
}

/// A component registry.
pub trait ComponentsHandler<V>: Sized {
    /// The invariant of the registry.
    spec fn valid(&self) -> bool;

    /// The number of bits given out so far.
    spec fn count(&self) -> nat;

    /// The number of pages that every column has.
    spec fn pages(&self) -> nat;

    /// The bit position of the component type `type_id`, if it is
    /// registered.
    spec fn bit_of(&self, type_id: ComponentId) -> Option<u8>;

    /// The component that the column of the bit `bit` holds for the entity
    /// `id`, if it holds one.
    spec fn content(&self, bit: int, id: int) -> Option<V>;

    /// The unique component of the type `type_id`, if one is installed.
    spec fn unique_of(&self, type_id: ComponentId) -> Option<V>;

    /// What the invariant gives: bits stay inside the bitmask, every
    /// registered type has a bit that was given out, no two types share a
    /// bit, and a column that does not exist holds nothing.
    proof fn lemma_valid(&self)
        requires
            self.valid(),
        ensures
            self.count() <= BITMASK_WIDTH,
            self.pages() >= 1,
            forall|t: ComponentId| #[trigger]
                self.bit_of(t) matches Some(bit) ==> bit < self.count(),
            forall|t: ComponentId, u: ComponentId|
                t != u && (#[trigger] self.bit_of(t)) is Some && (#[trigger] self.bit_of(u))
                    is Some ==> self.bit_of(t) != self.bit_of(u),
            forall|bit: int, id: int|
                !(0 <= bit < self.count()) ==> (#[trigger] self.content(bit, id)) is None,
            forall|bit: int, id: int|
                !(0 <= id < self.pages() * NUM_OF_COMPONENTS_PER_PAGE) ==> (#[trigger] self.content(
                    bit,
                    id,
                )) is None,
    ;

    /// Registers the component type `c0`: gives it the next bit and an empty
    /// column of as many pages as the others have. A type that is registered
    /// already keeps its bit and its column: nothing changes.
    fn register(&mut self, c0: ComponentId) -> (bit: u8)
        requires
            old(self).valid(),
            old(self).bit_of(c0) is None ==> old(self).count() < BITMASK_WIDTH,
        ensures
            final(self).valid(),
            final(self).bit_of(c0) == Some(bit),
            final(self).pages() == old(self).pages(),
            forall|t: ComponentId| t != c0 ==> (#[trigger] final(self).bit_of(t)) == old(self).bit_of(t),
            forall|t: ComponentId| (#[trigger] final(self).unique_of(t)) == old(self).unique_of(t),
            match old(self).bit_of(c0) {
                Some(known) => {
                    &&& bit == known
                    &&& final(self).count() == old(self).count()
                    &&& forall|b: int, id: int|
                        (#[trigger] final(self).content(b, id)) == old(self).content(b, id)
                },
                None => {
                    &&& bit == old(self).count()
                    &&& final(self).count() == old(self).count() + 1
                    &&& forall|b: int, id: int|
                        b != bit ==> (#[trigger] final(self).content(b, id)) == old(self).content(
                            b,
                            id,
                        )
                    &&& forall|id: int| (#[trigger] final(self).content(bit as int, id)) is None
                },
            },
    ;

    /// Installs `c` as the unique component of the type `id`, in place of
    /// one installed before.
    fn register_unique(&mut self, id: ComponentId, c: V)
        requires
            old(self).valid(),
        ensures
            final(self).valid(),
            final(self).unique_of(id) == Some(c),
            forall|t: ComponentId| t != id ==> (#[trigger] final(self).unique_of(t)) == old(self).unique_of(t),
            final(self).count() == old(self).count(),
            forall|t: ComponentId| (#[trigger] final(self).bit_of(t)) == old(self).bit_of(t),
            final(self).pages() == old(self).pages(),
            forall|b: int, i: int| (#[trigger] final(self).content(b, i)) == old(self).content(b, i),
    ;

    /// Returns the bitmask of the component type `type_id`: the one bit of
    /// its position.
    fn bitmask(&self, type_id: ComponentId) -> (r: Result<BitmaskType, EcsError>)
        requires
            self.valid(),
        ensures
            r == match self.bit_of(type_id) {
                Some(bit) => Ok::<BitmaskType, EcsError>(bit_mask(bit)),
                None => Err(EcsError::UnregisteredComponent),
            },
    ;

    /// Returns the column of the component type `type_id`, if it is
    /// registered.
    fn component_buffer(&self, type_id: &ComponentId) -> (r: Option<&BufferBlockVec<V>>)
        requires
            self.valid(),
        ensures
            r is Some <==> self.bit_of(*type_id) is Some,
            r matches Some(column) ==> {
                &&& column.wf()
                &&& column.pages() == self.pages()
                &&& forall|id: int|
                    slot_content(#[trigger] column.cell(id)) == self.content(
                        self.bit_of(*type_id)->0 as int,
                        id,
                    )
            },
    ;

    /// Returns the unique component of the type `type_id`, if one is
    /// installed.
    fn unique_component(&self, type_id: &ComponentId) -> (r: Option<&Storage<V>>)
        requires
            self.valid(),
        ensures
            r is Some <==> self.unique_of(*type_id) is Some,
            r matches Some(storage) ==> Some(storage@) == self.unique_of(*type_id),
    ;

    /// Installs `component` as the component of the type `id` that `entity`
    /// owns, in place of one installed before. Fails, and changes nothing,
    /// where the type is not registered. Where the column had to grow, all
    /// columns are padded to the same page count again.
    fn add_component(&mut self, entity: Entity, id: ComponentId, component: V) -> (r: Result<
        (),
        EcsError,
    >)
        requires
            old(self).valid(),
            entity.id < usize::MAX,
        ensures
            final(self).valid(),
            final(self).count() == old(self).count(),
            forall|t: ComponentId| (#[trigger] final(self).bit_of(t)) == old(self).bit_of(t),
            forall|t: ComponentId| (#[trigger] final(self).unique_of(t)) == old(self).unique_of(t),
            match old(self).bit_of(id) {
                None => {
                    &&& r == Err::<(), EcsError>(EcsError::UnregisteredComponent)
                    &&& final(self).pages() == old(self).pages()
                    &&& forall|b: int, i: int|
                        (#[trigger] final(self).content(b, i)) == old(self).content(b, i)
                },
                Some(bit) => {
                    &&& r == Ok::<(), EcsError>(())
                    &&& final(self).pages() == pages_after_write(old(self).pages(), entity.id as int)
                    &&& final(self).content(bit as int, entity.id as int) == Some(component)
                    &&& forall|b: int, i: int|
                        !(b == bit && i == entity.id) ==> (#[trigger] final(self).content(b, i))
                            == old(self).content(b, i)
                },
            },
    ;

    /// Installs every component of the bundle `components` for `entity`, in
    /// the order of the bundle, and returns the bitmask of the bundle. Fails,
    /// and changes nothing, where any of the types is not registered. The
    /// columns are padded to the same page count once, at the end.
    fn add_components(&mut self, entity: Entity, components: Vec<(ComponentId, V)>) -> (r: Result<
        BitmaskType,
        EcsError,
    >)
        requires
            old(self).valid(),
            entity.id < usize::MAX,
        ensures
            final(self).valid(),
            final(self).count() == old(self).count(),
            forall|t: ComponentId| (#[trigger] final(self).bit_of(t)) == old(self).bit_of(t),
            forall|t: ComponentId| (#[trigger] final(self).unique_of(t)) == old(self).unique_of(t),
            forall|b: int, i: int|
                i != entity.id ==> (#[trigger] final(self).content(b, i)) == old(self).content(b, i),
            if all_registered(|t: ComponentId| old(self).bit_of(t), components@) {
                &&& r == Ok::<BitmaskType, EcsError>(
                    bundle_mask(|t: ComponentId| old(self).bit_of(t), components@),
                )
                &&& final(self).pages() == if components@.len() == 0 {
                    old(self).pages()
                } else {
                    pages_after_write(old(self).pages(), entity.id as int)
                }
                &&& forall|b: int| #[trigger]
                    final(self).content(b, entity.id as int) == match bundled(
                        |t: ComponentId| old(self).bit_of(t),
                        components@,
                        b,
                    ) {
                        Some(component) => Some(component),
                        None => old(self).content(b, entity.id as int),
                    }
            } else {
                &&& r == Err::<BitmaskType, EcsError>(EcsError::UnregisteredComponent)
                &&& final(self).pages() == old(self).pages()
                &&& forall|b: int| #[trigger]
                    final(self).content(b, entity.id as int) == old(self).content(
                        b,
                        entity.id as int,
                    )
            },
    ;

    /// Empties the cell of `entity` in every column.
    fn remove_components(&mut self, entity: &Entity)
        requires
            old(self).valid(),
        ensures
            final(self).valid(),
            final(self).count() == old(self).count(),
            final(self).pages() == old(self).pages(),
            forall|t: ComponentId| (#[trigger] final(self).bit_of(t)) == old(self).bit_of(t),
            forall|t: ComponentId| (#[trigger] final(self).unique_of(t)) == old(self).unique_of(t),
            forall|b: int| (#[trigger] final(self).content(b, entity.id as int)) is None,
            forall|b: int, i: int|
                i != entity.id ==> (#[trigger] final(self).content(b, i)) == old(self).content(b, i),
    ;
}

/// The registry of the world.
pub struct ComponentsStorage<V> {
    /// The column of each bit position.
    components: Vec<BufferBlockVec<V>>,
    /// The bit position of each registered component type.
    bitmasks: FxHashMap<ComponentId, u8>,
    /// The unique components.
    unique_components: FxHashMap<ComponentId, Storage<V>>,
}

impl<V> Default for ComponentsStorage<V> {
    /// Creates a registry without types and without unique components.
    fn default() -> (s: Self)
        ensures
            s.valid(),
            s.count() == 0,
            s.pages() == 1,
            forall|t: ComponentId| (#[trigger] s.bit_of(t)) is None,
            forall|t: ComponentId| (#[trigger] s.unique_of(t)) is None,
            forall|b: int, i: int| (#[trigger] s.content(b, i)) is None,
    {
        Self::new()
    }
}

impl<V> ComponentsStorage<V> {
    /// Creates a registry without types and without unique components.
    pub fn new() -> (s: Self)
        ensures
            s.valid(),
            s.count() == 0,
            s.pages() == 1,
            forall|t: ComponentId| (#[trigger] s.bit_of(t)) is None,
            forall|t: ComponentId| (#[trigger] s.unique_of(t)) is None,
            forall|b: int, i: int| (#[trigger] s.content(b, i)) is None,
    {
        Self { components: Vec::new(), bitmasks: new_map(), unique_components: new_map() }
    }

    /// The invariant but for the equal page counts, which growth breaks
    /// until the columns are synchronized again.
    closed spec fn shaped(&self) -> bool {
        &&& self.components@.len() <= BITMASK_WIDTH
        &&& forall|b: int| 0 <= b < self.components@.len() ==> (#[trigger] self.components@[b]).wf()
        &&& forall|t: ComponentId|
            self.bitmasks@.contains_key(t) ==> (#[trigger] self.bitmasks@[t])
                < self.components@.len()
        &&& forall|t: ComponentId, u: ComponentId|
            t != u && self.bitmasks@.contains_key(t) && self.bitmasks@.contains_key(u) ==> (
            #[trigger] self.bitmasks@[t]) != (#[trigger] self.bitmasks@[u])
    }

    /// The largest page count among the first `upto` columns, and one where
    /// there is none.
    closed spec fn largest(&self, upto: int) -> nat
        decreases upto,
    {
        if upto <= 0 {
            1
        } else {
            let rest = self.largest(upto - 1);
            if self.components@[upto - 1].pages() > rest {
                self.components@[upto - 1].pages()
            } else {
                rest
            }
        }
    }

    /// The largest page count bounds the page count of each column.
    proof fn lemma_largest(&self, upto: int)
        requires
            0 <= upto <= self.components@.len(),
        ensures
            self.largest(upto) >= 1,
            forall|b: int|
                0 <= b < upto ==> (#[trigger] self.components@[b]).pages() <= self.largest(upto),
        decreases upto,
    {
        if upto > 0 {
            self.lemma_largest(upto - 1);
        }
    }

    /// A count of at least one that bounds the page count of each column
    /// bounds the largest.
    proof fn lemma_largest_bounded(&self, upto: int, bound: nat)
        requires
            0 <= upto <= self.components@.len(),
            bound >= 1,
            forall|b: int| 0 <= b < upto ==> (#[trigger] self.components@[b]).pages() <= bound,
        ensures
            self.largest(upto) <= bound,
        decreases upto,
    {
        if upto > 0 {
            self.lemma_largest_bounded(upto - 1, bound);
        }
    }

    /// A page count that bounds each column's and is the count of the column
    /// `witness` is the largest.
    proof fn lemma_largest_is(&self, upto: int, bound: nat, witness: int)
        requires
            0 <= witness < upto <= self.components@.len(),
            bound >= 1,
            self.components@[witness].pages() == bound,
            forall|b: int| 0 <= b < upto ==> (#[trigger] self.components@[b]).pages() <= bound,
        ensures
            self.largest(upto) == bound,
        decreases upto,
    {
        if witness == upto - 1 {
            self.lemma_largest_bounded(upto - 1, bound);
        } else {
            self.lemma_largest_is(upto - 1, bound, witness);
        }
    }

    /// Pads every column with empty pages up to the page count of the
    /// largest, so that all have the same again.
    fn sync_buffers(&mut self)
        requires
            old(self).shaped(),
        ensures
            final(self).valid(),
            final(self).components@.len() == old(self).components@.len(),
            final(self).bitmasks == old(self).bitmasks,
            final(self).unique_components == old(self).unique_components,
            final(self).components@.len() > 0 ==> final(self).pages() == old(self).largest(
                old(self).components@.len() as int,
            ),
            forall|b: int, i: int|
                0 <= b < old(self).components@.len() ==> (#[trigger] final(self).components@[b].cell(
                    i,
                )) == old(self).components@[b].cell(i),
    {
        let mut biggest: usize = 1;
        let mut k: usize = 0;
        while k < self.components.len()
            invariant
                k <= self.components@.len(),
                biggest == self.largest(k as int),
            decreases self.components@.len() - k,
        {
            let n = self.components[k].blocks_len();
            if biggest < n {
                biggest = n;
            }
            k += 1;
        }
        proof {
            self.lemma_largest(self.components@.len() as int);
        }
        let mut j: usize = 0;
        while j < self.components.len()
            invariant
                j <= self.components@.len(),
                self.shaped(),
                self.components@.len() == old(self).components@.len(),
                self.bitmasks == old(self).bitmasks,
                self.unique_components == old(self).unique_components,
                biggest == old(self).largest(old(self).components@.len() as int),
                forall|b: int|
                    0 <= b < self.components@.len() ==> (#[trigger] old(self).components@[b]).pages()
                        <= biggest,
                forall|b: int| 0 <= b < j ==> (#[trigger] self.components@[b]).pages() == biggest,
                forall|b: int|
                    j <= b < self.components@.len() ==> (#[trigger] self.components@[b]) == old(
                        self,
                    ).components@[b],
                forall|b: int, i: int|
                    0 <= b < self.components@.len() ==> (#[trigger] self.components@[b].cell(i))
                        == old(self).components@[b].cell(i),
            decreases self.components@.len() - j,
        {
            let len = self.components[j].blocks_len();
            self.components[j].append_empty_blocks(biggest - len);
            j += 1;
        }
    }
}

impl<V> ComponentsStorage<V> {
    /// The number of pages of the column of the bit `bit`.
    pub closed spec fn column_pages(&self, bit: int) -> nat {
        self.components@[bit].pages()
    }

    /// All columns have the same number of pages.
    pub proof fn lemma_columns_in_step(&self, a: int, b: int)
        requires
            self.valid(),
            0 <= a < self.count(),
            0 <= b < self.count(),
        ensures
            self.column_pages(a) == self.column_pages(b),
            self.column_pages(a) == self.pages(),
    {
    }

    /// Returns the number of bits given out so far.
    pub fn len(&self) -> (n: usize)
        ensures
            n == self.count(),
    {
        self.components.len()
    }

    /// Says whether every type of `ids` is registered.
    pub fn registered_all(&self, ids: &Vec<ComponentId>) -> (r: bool)
        requires
            self.valid(),
        ensures
            r == forall|k: int| 0 <= k < ids@.len() ==> (#[trigger] self.bit_of(ids@[k])) is Some,
    {
        let mut checked: usize = 0;
        while checked < ids.len()
            invariant
                checked <= ids@.len(),
                forall|k: int| 0 <= k < checked ==> (#[trigger] self.bit_of(ids@[k])) is Some,
            decreases ids@.len() - checked,
        {
            if get(&self.bitmasks, ids[checked]).is_none() {
                assert(self.bit_of(ids@[checked as int]) is None);
                return false;
            }
            checked += 1;
        }
        true
    }

    /// Returns the column of the component type `type_id`, open to change,
    /// if the type is registered. What the caller leaves in the column is
    /// what the registry then holds for the type; the registry stays valid
    /// where the column keeps its invariant and its page count.
    pub fn component_buffer_mut(&mut self, type_id: &ComponentId) -> (r: Option<
        &mut BufferBlockVec<V>,
    >)
        requires
            old(self).valid(),
        ensures
            r is Some <==> old(self).bit_of(*type_id) is Some,
            final(self).count() == old(self).count(),
            forall|t: ComponentId| (#[trigger] final(self).bit_of(t)) == old(self).bit_of(t),
            forall|t: ComponentId| (#[trigger] final(self).unique_of(t)) == old(self).unique_of(t),
            r is None ==> final(self).valid() && final(self).pages() == old(self).pages()
                && forall|b: int, i: int|
                (#[trigger] final(self).content(b, i)) == old(self).content(b, i),
            r matches Some(column) ==> {
                let bit = old(self).bit_of(*type_id)->0 as int;
                &&& column.wf()
                &&& column.pages() == old(self).pages()
                &&& forall|i: int|
                    slot_content(#[trigger] column.cell(i)) == old(self).content(bit, i)
                &&& forall|b: int, i: int|
                    b != bit ==> (#[trigger] final(self).content(b, i)) == old(self).content(b, i)
                &&& forall|i: int| (#[trigger] final(self).content(bit, i)) == slot_content(
                    final(column).cell(i),
                )
                &&& final(column).wf() && final(column).pages() == column.pages()
                    ==> final(self).valid() && final(self).pages() == old(self).pages()
            },
    {
        let bit: usize = match get(&self.bitmasks, *type_id) {
            Some(shift) => *shift as usize,
            None => {
                return None;
            },
        };
        Some(&mut self.components[bit])
    }

    /// Returns the unique component of the type `type_id`, open to change,
    /// if one is installed. What the caller leaves in it is the unique
    /// component of the type from then on.
    pub fn unique_component_mut(&mut self, type_id: &ComponentId) -> (r: Option<&mut Storage<V>>)
        requires
            old(self).valid(),
        ensures
            final(self).valid(),
            r is Some <==> old(self).unique_of(*type_id) is Some,
            r matches Some(storage) ==> Some(storage@) == old(self).unique_of(*type_id)
                && final(self).unique_of(*type_id) == Some(final(storage)@),
            r is None ==> final(self).unique_of(*type_id) is None,
            forall|t: ComponentId|
                t != *type_id ==> (#[trigger] final(self).unique_of(t)) == old(self).unique_of(t),
            final(self).count() == old(self).count(),
            final(self).pages() == old(self).pages(),
            forall|t: ComponentId| (#[trigger] final(self).bit_of(t)) == old(self).bit_of(t),
            forall|b: int, i: int| (#[trigger] final(self).content(b, i)) == old(self).content(b, i),
    {
        get_mut(&mut self.unique_components, *type_id)
    }

    /// Whether `after` is `self` but for the column of the bit `bit`.
    closed spec fn same_but_column(&self, after: &Self, bit: int) -> bool {
        &&& after.components@.len() == self.components@.len()
        &&& after.bitmasks == self.bitmasks
        &&& after.unique_components == self.unique_components
        &&& forall|b: int|
            0 <= b < self.components@.len() && b != bit ==> (#[trigger] after.components@[b])
                == self.components@[b]
    }

    /// Writes `component` into the cell of `entity` in the column of the bit
    /// `bit`: in place where the slot exists, else through a write to the
    /// column, which may grow. Says whether the column grew.
    fn install(&mut self, bit: usize, entity: &Entity, component: V) -> (grew: bool)
        requires
            old(self).shaped(),
            bit < old(self).components@.len(),
            entity.id < usize::MAX,
        ensures
            final(self).shaped(),
            old(self).same_but_column(final(self), bit as int),
            grew == !old(self).components@[bit as int].allocated(entity.id as int),
            final(self).components@[bit as int].pages() == if grew {
                old(self).components@[bit as int].pages() + entity.id / NUM_OF_COMPONENTS_PER_PAGE
            } else {
                old(self).components@[bit as int].pages() as int
            },
            slot_content(final(self).components@[bit as int].cell(entity.id as int)) == Some(
                component,
            ),
            forall|i: int|
                i != entity.id ==> (#[trigger] final(self).components@[bit as int].cell(i)) == old(
                    self,
                ).components@[bit as int].cell(i),
    {
        proof {
            self.components@[bit as int].lemma_wf();
        }
        let present = match self.components[bit].get_in_bounds(entity.id) {
            Ok(Some(_)) => true,
            _ => false,
        };
        if present {
            match self.components[bit].get_mut(entity.id) {
                Some(slot) => {
                    *slot = Some(Storage::new(component));
                },
                None => {},
            }
            false
        } else {
            self.add_new_component(entity, bit, component)
        }
    }

    /// Writes a new slot that holds `component` into the column of the bit
    /// `bit`, at the index of `entity`. Says whether the column grew.
    fn add_new_component(&mut self, entity: &Entity, bit: usize, component: V) -> (grew: bool)
        requires
            old(self).shaped(),
            bit < old(self).components@.len(),
            entity.id < usize::MAX,
        ensures
            final(self).shaped(),
            old(self).same_but_column(final(self), bit as int),
            grew == !old(self).components@[bit as int].allocated(entity.id as int),
            final(self).components@[bit as int].pages() == if grew {
                old(self).components@[bit as int].pages() + entity.id / NUM_OF_COMPONENTS_PER_PAGE
            } else {
                old(self).components@[bit as int].pages() as int
            },
            slot_content(final(self).components@[bit as int].cell(entity.id as int)) == Some(
                component,
            ),
            forall|i: int|
                i != entity.id ==> (#[trigger] final(self).components@[bit as int].cell(i)) == old(
                    self,
                ).components@[bit as int].cell(i),
    {
        self.components[bit].set(Some(Storage::new(component)), entity.id)
    }
}

impl<V> ComponentsHandler<V> for ComponentsStorage<V> {
    closed spec fn valid(&self) -> bool {
        &&& self.shaped()
        &&& forall|b: int|
            0 <= b < self.components@.len() ==> (#[trigger] self.components@[b]).pages()
                == self.pages()
    }

    closed spec fn count(&self) -> nat {
        self.components@.len()
    }

    closed spec fn pages(&self) -> nat {
        if self.components@.len() == 0 {
            1
        } else {
            self.components@[0].pages()
        }
    }

    closed spec fn bit_of(&self, type_id: ComponentId) -> Option<u8> {
        if self.bitmasks@.contains_key(type_id) {
            Some(self.bitmasks@[type_id])
        } else {
            None
        }
    }

    closed spec fn content(&self, bit: int, id: int) -> Option<V> {
        if 0 <= bit < self.components@.len() {
            slot_content(self.components@[bit].cell(id))
        } else {
            None
        }
    }

    closed spec fn unique_of(&self, type_id: ComponentId) -> Option<V> {
        if self.unique_components@.contains_key(type_id) {
            Some(self.unique_components@[type_id]@)
        } else {
            None
        }
    }

    proof fn lemma_valid(&self) {
        assert forall|bit: int, id: int|
            !(0 <= id < self.pages() * NUM_OF_COMPONENTS_PER_PAGE) implies (#[trigger] self.content(
            bit,
            id,
        )) is None by {
            if 0 <= bit < self.components@.len() {
                self.components@[bit].lemma_wf();
            }
        }
        if self.components@.len() > 0 {
            self.components@[0].lemma_wf();
        }
    }

    fn register(&mut self, c0: ComponentId) -> (bit: u8) {
        match get(&self.bitmasks, c0) {
            Some(shift) => {
                return *shift;
            },
            None => {},
        }
        let bit: u8 = self.components.len() as u8;
        let new_vec: BufferBlockVec<V> = BlockVec::new();
        proof {
            self.lemma_largest(self.components@.len() as int);
            if self.components@.len() > 0 {
                self.components@[0].lemma_wf();
            }
        }
        let ghost before = *self;
        self.components.push(new_vec);
        insert(&mut self.bitmasks, c0, bit);
        let ghost grown = *self;
        proof {
            assert(forall|b: int|
                0 <= b < before.components@.len() ==> grown.components@[b]
                    == before.components@[b]);
            assert(grown.shaped());
            if before.components@.len() == 0 {
                grown.lemma_largest_is(1, 1, 0);
            } else {
                grown.lemma_largest_is(grown.components@.len() as int, before.pages(), 0);
            }
        }
        self.sync_buffers();
        bit
    }

    fn register_unique(&mut self, id: ComponentId, c: V) {
        insert(&mut self.unique_components, id, Storage::new(c));
    }

    fn bitmask(&self, type_id: ComponentId) -> (r: Result<BitmaskType, EcsError>) {
        match get(&self.bitmasks, type_id) {
            Some(shift) => Ok(1u64 << *shift),
            None => Err(EcsError::UnregisteredComponent),
        }
    }

    fn component_buffer(&self, type_id: &ComponentId) -> (r: Option<&BufferBlockVec<V>>) {
        match get(&self.bitmasks, *type_id) {
            Some(shift) => Some(&self.components[*shift as usize]),
            None => None,
        }
    }

    fn unique_component(&self, type_id: &ComponentId) -> (r: Option<&Storage<V>>) {
        get(&self.unique_components, *type_id)
    }

    fn add_component(&mut self, entity: Entity, id: ComponentId, component: V) -> (r: Result<
        (),
        EcsError,
    >) {
        let bit: usize = match get(&self.bitmasks, id) {
            Some(shift) => *shift as usize,
            None => {
                return Err(EcsError::UnregisteredComponent);
            },
        };
        proof {
            assert(self.bitmasks@.contains_key(id));
            self.components@[0].lemma_wf();
        }
        let were_expansions = self.install(bit, &entity, component);
        if were_expansions {
            proof {
                self.lemma_largest_is(
                    self.components@.len() as int,
                    self.components@[bit as int].pages(),
                    bit as int,
                );
            }
            self.sync_buffers();
        }
        Ok(())
    }

    fn add_components(&mut self, entity: Entity, components: Vec<(ComponentId, V)>) -> (r: Result<
        BitmaskType,
        EcsError,
    >) {
        let ghost bits = |t: ComponentId| old(self).bit_of(t);
        let ghost bundle = components@;
        let mut checked: usize = 0;
        while checked < components.len()
            invariant
                checked <= components@.len(),
                *self == *old(self),
                self.valid(),
                bits == |t: ComponentId| old(self).bit_of(t),
                forall|k: int| 0 <= k < checked ==> (#[trigger] bits(components@[k].0)) is Some,
            decreases components@.len() - checked,
        {
            if get(&self.bitmasks, components[checked].0).is_none() {
                assert(bits(components@[checked as int].0) is None);
                return Err(EcsError::UnregisteredComponent);
            }
            checked += 1;
        }
        let ghost pages = self.pages();
        let ghost grown = pages_after_write(pages, entity.id as int);
        let ghost mut witness: int = 0;
        let mut were_expansions = false;
        let mut bitmask: BitmaskType = 0;
        proof {
            if self.components@.len() > 0 {
                self.components@[0].lemma_wf();
            }
        }
        for item in it: components
            invariant
                it.seq() == bundle,
                self.shaped(),
                all_registered(bits, bundle),
                bits == |t: ComponentId| old(self).bit_of(t),
                pages == old(self).pages(),
                pages >= 1,
                grown == pages_after_write(pages, entity.id as int),
                entity.id < usize::MAX,
                self.components@.len() == old(self).components@.len(),
                self.bitmasks == old(self).bitmasks,
                self.unique_components == old(self).unique_components,
                bitmask == bundle_mask(bits, bundle.take(it.index() as int)),
                forall|b: int|
                    0 <= b < self.components@.len() ==> {
                        ||| (#[trigger] self.components@[b]).pages() == pages
                        ||| self.components@[b].pages() == grown
                    },
                were_expansions ==> 0 <= witness < self.components@.len()
                    && self.components@[witness].pages() == grown && grown > pages,
                !were_expansions ==> forall|b: int|
                    0 <= b < self.components@.len() ==> (#[trigger] self.components@[b]).pages()
                        == pages,
                it.index() > 0 && grown > pages ==> were_expansions,
                were_expansions ==> it.index() > 0,
                forall|b: int|
                    0 <= b < self.components@.len() ==> slot_content(
                        (#[trigger] self.components@[b]).cell(entity.id as int),
                    ) == match bundled(bits, bundle.take(it.index() as int), b) {
                        Some(component) => Some(component),
                        None => old(self).content(b, entity.id as int),
                    },
                forall|b: int, i: int|
                    0 <= b < self.components@.len() && i != entity.id ==> (
                    #[trigger] self.components@[b].cell(i)) == old(self).components@[b].cell(i),
        {
            let ghost done = it.index() as int;
            let (id, component) = item;
            let bit: usize = match get(&self.bitmasks, id) {
                Some(shift) => *shift as usize,
                None => {
                    assert(bits(bundle[done].0) is Some);
                    return Err(EcsError::UnregisteredComponent);
                },
            };
            let ghost before = *self;
            proof {
                assert(bundle.take(done + 1).drop_last() == bundle.take(done));
                assert(bundle.take(done + 1).last() == bundle[done]);
                assert(bits(id) == Some(bit as u8));
                before.components@[bit as int].lemma_wf();
            }
            let grew = self.install(bit, &entity, component);
            bitmask = bitmask | (1u64 << bit);
            were_expansions = were_expansions || grew;
            proof {
                if grew {
                    witness = bit as int;
                }
                assert forall|b: int| 0 <= b < self.components@.len() implies slot_content(
                    (#[trigger] self.components@[b]).cell(entity.id as int),
                ) == match bundled(bits, bundle.take(done + 1), b) {
                    Some(component) => Some(component),
                    None => old(self).content(b, entity.id as int),
                } by {
                    if b != bit {
                        assert(self.components@[b] == before.components@[b]);
                    }
                }
            }
        }
        proof {
            assert(bundle.take(bundle.len() as int) == bundle);
            assert forall|b: int|
                !(0 <= b < self.components@.len()) implies bundled(bits, bundle, b) is None by {
                if bundled(bits, bundle, b) is Some {
                    lemma_bundled_bit(bits, bundle, b);
                    let k = choose|k: int| brings(bits, bundle, k, b);
                    assert(self.bitmasks@.contains_key(bundle[k].0));
                }
            }
        }
        if were_expansions {
            proof {
                self.lemma_largest_is(self.components@.len() as int, grown, witness);
            }
            self.sync_buffers();
        }
        Ok(bitmask)
    }

    fn remove_components(&mut self, entity: &Entity) {
        let mut b: usize = 0;
        while b < self.components.len()
            invariant
                b <= self.components@.len(),
                self.valid(),
                self.components@.len() == old(self).components@.len(),
                self.bitmasks == old(self).bitmasks,
                self.unique_components == old(self).unique_components,
                self.pages() == old(self).pages(),
                forall|c: int|
                    0 <= c < b ==> slot_content(
                        (#[trigger] self.components@[c]).cell(entity.id as int),
                    ) is None,
                forall|c: int|
                    b <= c < self.components@.len() ==> (#[trigger] self.components@[c]) == old(
                        self,
                    ).components@[c],
                forall|c: int, i: int|
                    0 <= c < self.components@.len() && i != entity.id ==> (
                    #[trigger] self.components@[c].cell(i)) == old(self).components@[c].cell(i),
            decreases self.components@.len() - b,
        {
            match self.components[b].get_mut(entity.id) {
                Some(item_ref) => {
                    *item_ref = None;
                },
                None => {},
            }
            b += 1;
        }
    }
}

} // verus!
