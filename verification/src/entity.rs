//! Entities and the table of their bitmasks.

use crate::block_vec::BlockVec;
use crate::error::EcsError;
use vstd::prelude::*;

verus! {

/// The set of component types that an entity owns, one bit per type.
pub type BitmaskType = u64;

/// The number of bits in a bitmask, which bounds the number of component
/// types of one world.
pub const BITMASK_WIDTH: usize = 64;

/// The identifier of an entity.
pub type EntityId = usize;

/// An entity: nothing but its identifier.
#[derive(Copy, Clone, Debug, PartialEq, Eq, Structural)]
pub struct Entity {
    /// The identifier, unique among the entities that are alive.
    pub id: EntityId,
}

impl Entity {
    /// Creates the entity with the identifier `id`.
    pub fn new(id: EntityId) -> (e: Self)
        ensures
            e.id == id,
    {
        Self { id }
    }

    /// Returns the identifier.
    pub fn id(&self) -> (id: EntityId)
        ensures
            id == self.id,
    {
        self.id
    }
}

/// Whether the bitmask `mask` holds the bit at position `bit`.
pub open spec fn has_bit(mask: BitmaskType, bit: int) -> bool {
    0 <= bit < BITMASK_WIDTH && mask & (1u64 << (bit as u64)) != 0
}

/// The empty bitmask holds no bit.
pub proof fn lemma_no_bit_in_zero(bit: int)
    ensures
        !has_bit(0, bit),
{
    if 0 <= bit < BITMASK_WIDTH {
        let b = bit as u64;
        assert(0u64 & (1u64 << b) == 0) by (bit_vector);
    }
}

/// Adding the bit at `added` to a bitmask adds that bit and no other.
pub proof fn lemma_bit_added(mask: BitmaskType, added: int, bit: int)
    requires
        0 <= added < BITMASK_WIDTH,
    ensures
        has_bit(mask | (1u64 << (added as u64)), bit) <==> has_bit(mask, bit) || bit == added,
{
    if 0 <= bit < BITMASK_WIDTH {
        let a = added as u64;
        let b = bit as u64;
        assert(((mask | (1u64 << a)) & (1u64 << b) != 0) <==> ((mask & (1u64 << b) != 0) || b
            == a)) by (bit_vector)
            requires
                a < 64,
                b < 64,
        ;
    }
}

/// A bitmask that passes a filter holds every bit that the filter holds.
pub proof fn lemma_passes_bit(mask: BitmaskType, filter: BitmaskType, bit: int)
    requires
        passes(mask, filter),
        has_bit(filter, bit),
    ensures
        has_bit(mask, bit),
{
    let b = bit as u64;
    assert(mask & (1u64 << b) != 0) by (bit_vector)
        requires
            mask & filter == filter,
            filter & (1u64 << b) != 0,
            b < 64,
    ;
}

/// A bitmask that holds a bit is not empty.
pub proof fn lemma_bit_not_zero(mask: BitmaskType, bit: int)
    requires
        has_bit(mask, bit),
    ensures
        mask != 0,
{
    let b = bit as u64;
    assert(mask != 0) by (bit_vector)
        requires
            mask & (1u64 << b) != 0,
    ;
}

/// Whether a bitmask `mask` holds every bit of `filter`.
pub open spec fn passes(mask: BitmaskType, filter: BitmaskType) -> bool {
    mask & filter == filter
}

/// Whether `found` is the answer to a query: the entities that `selected`
/// picks, each once, by ascending identifier.
pub open spec fn is_selection(found: Seq<Entity>, selected: spec_fn(int) -> bool) -> bool {
    &&& forall|a: int, b: int| 0 <= a < b < found.len() ==> found[a].id < found[b].id
    &&& forall|k: int| 0 <= k < found.len() ==> selected(#[trigger] found[k].id as int)
    &&& forall|i: int| #[trigger]
        selected(i) ==> exists|k: int| 0 <= k < found.len() && #[trigger] found[k].id == i
}

/// A table of bitmasks by entity.
pub trait EntitiesHandler {
    /// The invariant of the table.
    spec fn valid(&self) -> bool;

    /// The bitmask written for the identifier `id`, if there is one.
    spec fn mask_of(&self, id: int) -> Option<BitmaskType>;

    /// Writes `bit_mask` as the bitmask of `entity`. No other entry changes.
    fn register_bitmask(&mut self, entity: &Entity, bit_mask: &BitmaskType)
        requires
            old(self).valid(),
            entity.id < usize::MAX,
        ensures
            final(self).valid(),
            final(self).mask_of(entity.id as int) == Some(*bit_mask),
            forall|i: int|
                i != entity.id ==> (#[trigger] final(self).mask_of(i)) == old(self).mask_of(i),
    ;

    /// Returns the bitmask of `entity`, or `UnknownEntity` where the table
    /// holds none for it.
    fn get_bitmask(&self, entity: &Entity) -> (r: Result<BitmaskType, EcsError>)
        requires
            self.valid(),
        ensures
            r == match self.mask_of(entity.id as int) {
                Some(mask) => Ok::<BitmaskType, EcsError>(mask),
                None => Err(EcsError::UnknownEntity),
            },
    ;

    /// Writes zero as the bitmask of `entity`. No other entry changes.
    fn reset_bitmask(&mut self, entity: &Entity)
        requires
            old(self).valid(),
            entity.id < usize::MAX,
        ensures
            final(self).valid(),
            final(self).mask_of(entity.id as int) == Some(0u64),
            forall|i: int|
                i != entity.id ==> (#[trigger] final(self).mask_of(i)) == old(self).mask_of(i),
    ;

    /// Returns, by ascending identifier, the entities whose bitmask holds
    /// every bit of `bitmasks`. An identifier without a bitmask is left out.
    fn query_by_bitmask(&self, bitmasks: BitmaskType) -> (found: Vec<Entity>)
        requires
            self.valid(),
        ensures
            is_selection(
                found@,
                |i: int| self.mask_of(i) matches Some(mask) && passes(mask, bitmasks),
            ),
    ;
}

/// The table of bitmasks, kept as a paged column of pages of `N` entries.
pub struct EntitiesStorage<const N: usize> {
    /// The bitmask of each entity, at the index of its identifier.
    bit_masks: BlockVec<BitmaskType, N>,
}

impl<const N: usize> EntitiesStorage<N> {
    /// Creates a table without entries.
    pub fn new() -> (s: Self)
        requires
            N > 0,
        ensures
            s.valid(),
            forall|i: int| (#[trigger] s.mask_of(i)) is None,
            s.logical_len() == 0,
    {
        Self { bit_masks: BlockVec::new() }
    }

    /// One more than the highest identifier written so far, or zero.
    pub closed spec fn logical_len(&self) -> nat {
        self.bit_masks.logical_len()
    }

    /// No identifier at or beyond the logical length has a bitmask.
    pub proof fn lemma_beyond_len(&self)
        requires
            self.valid(),
        ensures
            forall|i: int| i >= self.logical_len() ==> (#[trigger] self.mask_of(i)) is None,
    {
        self.bit_masks.lemma_wf();
    }

    /// Returns one more than the highest identifier written so far, or zero.
    pub fn len(&self) -> (n: usize)
        ensures
            n == self.logical_len(),
    {
        self.bit_masks.len()
    }
}

impl<const N: usize> EntitiesHandler for EntitiesStorage<N> {
    closed spec fn valid(&self) -> bool {
        self.bit_masks.wf()
    }

    closed spec fn mask_of(&self, id: int) -> Option<BitmaskType> {
        self.bit_masks.cell(id)
    }

    fn register_bitmask(&mut self, entity: &Entity, bit_mask: &BitmaskType) {
        self.bit_masks.set(*bit_mask, entity.id);
    }

    fn get_bitmask(&self, entity: &Entity) -> (r: Result<BitmaskType, EcsError>) {
        match self.bit_masks.get(entity.id) {
            Some(bit_mask) => Ok(*bit_mask),
            None => Err(EcsError::UnknownEntity),
        }
    }

    fn reset_bitmask(&mut self, entity: &Entity) {
        self.bit_masks.set(0, entity.id);
    }

    fn query_by_bitmask(&self, bitmasks: BitmaskType) -> (found: Vec<Entity>) {
        let mut f_entities: Vec<Entity> = Vec::new();
        let actual_len = self.bit_masks.len();
        let ghost selected = |i: int| self.mask_of(i) matches Some(mask) && passes(mask, bitmasks);
        let mut i: usize = 0;
        while i < actual_len
            invariant
                i <= actual_len,
                actual_len == self.bit_masks.logical_len(),
                self.bit_masks.wf(),
                selected == |i: int| self.mask_of(i) matches Some(mask) && passes(mask, bitmasks),
                forall|a: int, b: int|
                    0 <= a < b < f_entities@.len() ==> f_entities@[a].id < f_entities@[b].id,
                forall|k: int| 0 <= k < f_entities@.len() ==> #[trigger] f_entities@[k].id < i,
                forall|k: int|
                    0 <= k < f_entities@.len() ==> selected(#[trigger] f_entities@[k].id as int),
                forall|j: int|
                    0 <= j < i && #[trigger] selected(j) ==> exists|k: int|
                        0 <= k < f_entities@.len() && #[trigger] f_entities@[k].id == j,
            decreases actual_len - i,
        {
            let ghost before = f_entities@;
            if let Some(e_bitmask) = self.bit_masks.get(i) {
                if *e_bitmask & bitmasks == bitmasks {
                    f_entities.push(Entity::new(i));
                    assert(f_entities@[before.len() as int].id == i);
                }
            }
            proof {
                assert forall|j: int| 0 <= j < i + 1 && #[trigger] selected(j) implies exists|k: int|
                    0 <= k < f_entities@.len() && #[trigger] f_entities@[k].id == j by {
                    if j < i {
                        let k = choose|k: int| 0 <= k < before.len() && #[trigger] before[k].id == j;
                        assert(f_entities@[k].id == j);
                    } else {
                        assert(f_entities@[before.len() as int].id == j);
                    }
                }
            }
            i += 1;
        }
        proof {
            self.bit_masks.lemma_wf();
            assert forall|j: int| #[trigger] selected(j) implies exists|k: int|
                0 <= k < f_entities@.len() && #[trigger] f_entities@[k].id == j by {
                assert(0 <= j < i);
            }
        }
        f_entities
    }
}

} // verus!
