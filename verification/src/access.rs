//! Typed views over one column or one unique component, and the handles
//! that the views hand out, one per entity.

use crate::component::{slot_content, BufferBlockVec};
use crate::entity::Entity;
use crate::error::EcsError;
use crate::storage::Storage;
use std::sync::Arc;
use vstd::prelude::*;

verus! {

/// What every access handle tells the scheduler about itself.
pub trait Accessible {
    /// Whether the handle is for a unique component, and so takes no part
    /// in the filter.
    spec fn unique() -> bool;

    /// Says whether the handle is for a unique component.
    fn is_unique() -> (r: bool)
        ensures
            r == Self::unique(),
    ;
}

/// A sequence of items that is walked once, front to back.
pub trait AccessIterator: Sized {
    /// What the iterator hands out.
    type Item;

    /// The invariant of the iterator.
    spec fn valid(&self) -> bool;

    /// The number of items that are still to come.
    spec fn remaining(&self) -> nat;

    /// The item that comes next, if one is still to come.
    spec fn upcoming(&self) -> Option<Self::Item>;

    /// The iterator after its next step.
    spec fn rest(&self) -> Self;

    /// Hands out the next item, or `None` at the end.
    fn next(&mut self) -> (r: Option<Self::Item>)
        requires
            old(self).valid(),
        ensures
            final(self).valid(),
            r == old(self).upcoming(),
            *final(self) == old(self).rest(),
            r is Some <==> old(self).remaining() > 0,
            final(self).remaining() == if old(self).remaining() > 0 {
                old(self).remaining() - 1
            } else {
                0
            },
    ;
}

/// A handle that reads the component of one entity.
pub struct Reader<'a, T> {
    content: &'a Storage<T>,
}

impl<'a, T> View for Reader<'a, T> {
    type V = T;

    closed spec fn view(&self) -> T {
        self.content@
    }
}

impl<'a, T> Reader<'a, T> {
    /// Creates the handle of `content`.
    pub fn new(content: &'a Storage<T>) -> (r: Self)
        ensures
            r@ == content@,
    {
        Self { content }
    }

    /// Returns the holder of the component.
    pub fn read(&self) -> (c: &'a Storage<T>)
        ensures
            c@ == self@,
    {
        self.content
    }
}

/// The walk of a read view: one `Reader` per entity of the view.
pub struct ReadAccessIterator<'a, T> {
    counter: usize,
    reader: &'a BufferBlockVec<T>,
    entities: Arc<Vec<Entity>>,
}

impl<'a, T> ReadAccessIterator<'a, T> {
    /// The number of entities passed so far.
    pub closed spec fn position(&self) -> nat {
        self.counter as nat
    }

    /// The entities of the view, in the order of the walk.
    pub closed spec fn entities(&self) -> Seq<Entity> {
        self.entities@
    }

    /// The component that the column holds for the entity `id`, if any.
    pub closed spec fn content(&self, id: int) -> Option<T> {
        slot_content(self.reader.cell(id))
    }
}

impl<'a, T> ReadAccessIterator<'a, T> {
    /// The entities still to come are those of the view less those passed.
    pub proof fn lemma_remaining(&self)
        requires
            self.valid(),
        ensures
            self.remaining() + self.position() == self.entities().len(),
    {
    }
}

impl<'a, T> AccessIterator for ReadAccessIterator<'a, T> {
    type Item = Result<Reader<'a, T>, EcsError>;

    closed spec fn valid(&self) -> bool {
        &&& self.reader.wf()
        &&& self.counter <= self.entities@.len()
    }

    closed spec fn remaining(&self) -> nat {
        (self.entities@.len() - self.counter) as nat
    }

    closed spec fn upcoming(&self) -> Option<Result<Reader<'a, T>, EcsError>> {
        if self.counter < self.entities@.len() {
            match self.reader.cell(self.entities@[self.counter as int].id as int) {
                Some(Some(component)) => Some(Ok(Reader { content: &component })),
                _ => Some(Err(EcsError::MissingExpectedCell)),
            }
        } else {
            None
        }
    }

    closed spec fn rest(&self) -> Self {
        if self.counter < self.entities@.len() {
            ReadAccessIterator {
                counter: (self.counter + 1) as usize,
                reader: self.reader,
                entities: self.entities,
            }
        } else {
            *self
        }
    }

    /// Hands out the reader of the next entity's component, or
    /// `MissingExpectedCell` where the column holds none for it. Either way
    /// the walk moves on by one entity.
    fn next(&mut self) -> (r: Option<Result<Reader<'a, T>, EcsError>>)
        ensures
            final(self).entities() == old(self).entities(),
            forall|id: int| (#[trigger] final(self).content(id)) == old(self).content(id),
            old(self).remaining() + old(self).position() == old(self).entities().len(),
            final(self).position() == if r is Some {
                old(self).position() + 1
            } else {
                old(self).position()
            },
            r matches Some(item) ==> match old(self).content(
                old(self).entities()[old(self).position() as int].id as int,
            ) {
                Some(component) => item matches Ok(reader) && reader@ == component,
                None => item == Err::<Reader<'a, T>, EcsError>(EcsError::MissingExpectedCell),
            },
    {
        if self.counter >= self.entities.len() {
            return None;
        }
        let id = self.entities[self.counter].id;
        self.counter += 1;
        match self.reader.get(id) {
            Some(Some(component)) => Some(Ok(Reader { content: component })),
            _ => Some(Err(EcsError::MissingExpectedCell)),
        }
    }
}

/// A view that reads the components of one type, for a list of entities.
pub struct Read<'a, T> {
    buffer: &'a BufferBlockVec<T>,
    entities: Arc<Vec<Entity>>,
}

impl<'a, T> Accessible for Read<'a, T> {
    open spec fn unique() -> bool {
        false
    }

    fn is_unique() -> (r: bool) {
        false
    }
}

impl<'a, T> Read<'a, T> {
    /// The entities of the view, in the order of its walk.
    pub closed spec fn entities(&self) -> Seq<Entity> {
        self.entities@
    }

    /// The component that the column holds for the entity `id`, if any.
    pub closed spec fn content(&self, id: int) -> Option<T> {
        slot_content(self.buffer.cell(id))
    }

    /// The invariant of the view: that of its column.
    pub closed spec fn valid(&self) -> bool {
        self.buffer.wf()
    }

    /// Creates the view of the column `buffer` for the entities `entities`.
    pub fn new(buffer: &'a BufferBlockVec<T>, entities: Arc<Vec<Entity>>) -> (v: Self)
        requires
            buffer.wf(),
        ensures
            v.valid(),
            v.entities() == entities@,
            forall|id: int| (#[trigger] v.content(id)) == slot_content(buffer.cell(id)),
    {
        Self { buffer, entities }
    }

    /// Returns the number of entities of the view.
    pub fn len(&self) -> (n: usize)
        ensures
            n == self.entities().len(),
    {
        self.entities.len()
    }

    /// Returns the walk of the view, at its start.
    pub fn iter(&self) -> (it: ReadAccessIterator<'a, T>)
        requires
            self.valid(),
        ensures
            it.valid(),
            it.position() == 0,
            it.remaining() == self.entities().len(),
            it.entities() == self.entities(),
            forall|id: int| (#[trigger] it.content(id)) == self.content(id),
    {
        ReadAccessIterator { counter: 0, reader: self.buffer, entities: self.entities.clone() }
    }
}

/// A handle that writes the component of one entity.
///
/// The handle borrows the component from its column. Its field is public so
/// that contracts can say what the column holds once the handle is gone.
pub struct Writter<'a, T> {
    /// The holder of the component.
    pub content: &'a mut Storage<T>,
}

impl<'a, T> Writter<'a, T> {
    /// Creates the handle of `content`.
    pub fn new(content: &'a mut Storage<T>) -> (w: Self)
        ensures
            w.content@ == old(content)@,
            *final(w.content) == *final(content),
    {
        Self { content }
    }

    /// Returns the component, open to change: what the caller leaves there
    /// is the entity's component from then on.
    pub fn write(&mut self) -> (c: &mut T)
        ensures
            *c == old(self).content@,
            final(self).content@ == *final(c),
            *final(final(self).content) == *final(old(self).content),
    {
        self.content.get_mut()
    }
}

/// The walk of a write view: one `Writter` per entity of the view.
///
/// The walk borrows the column from its view, and each writer borrows its
/// component from the walk: a writer has to be gone before the next one is
/// asked for.
pub struct WriteAccessIterator<'a, T> {
    /// The column of the view.
    pub reader: &'a mut BufferBlockVec<T>,
    /// The number of entities passed so far.
    pub counter: usize,
    /// The entities of the view, in the order of the walk.
    pub entities: Arc<Vec<Entity>>,
}

impl<'a, T> WriteAccessIterator<'a, T> {
    /// The number of entities passed so far.
    pub open spec fn position(&self) -> nat {
        self.counter as nat
    }

    /// The entities of the view, in the order of the walk.
    pub open spec fn entities(&self) -> Seq<Entity> {
        self.entities@
    }

    /// The number of entities that are still to come.
    pub open spec fn remaining(&self) -> nat {
        (self.entities@.len() - self.counter) as nat
    }

    /// The invariant of the walk.
    pub open spec fn valid(&self) -> bool {
        &&& self.reader.wf()
        &&& self.counter <= self.entities@.len()
    }

    /// Hands out the writer of the next entity's component, or
    /// `MissingExpectedCell` where the column holds none for it, or `None`
    /// at the end. Either way the walk moves on by one entity. What the
    /// caller leaves in the writer is the entity's component from then on;
    /// no other cell changes.
    pub fn next(&mut self) -> (r: Option<Result<Writter<'_, T>, EcsError>>)
        requires
            old(self).valid(),
        ensures
            final(self).valid(),
            final(self).entities() == old(self).entities(),
            *final(final(self).reader) == *final(old(self).reader),
            old(self).remaining() + old(self).position() == old(self).entities().len(),
            r is Some <==> old(self).remaining() > 0,
            final(self).remaining() == if old(self).remaining() > 0 {
                old(self).remaining() - 1
            } else {
                0
            },
            final(self).position() == if r is Some {
                old(self).position() + 1
            } else {
                old(self).position()
            },
            final(self).reader.pages() == old(self).reader.pages(),
            final(self).reader.logical_len() == old(self).reader.logical_len(),
            r matches Some(Ok(writer)) ==> {
                let id = old(self).entities()[old(self).position() as int].id as int;
                &&& slot_content(old(self).reader.cell(id)) == Some(writer.content@)
                &&& slot_content(final(self).reader.cell(id)) == Some(final(writer.content)@)
                &&& forall|i: int|
                    i != id ==> (#[trigger] final(self).reader.cell(i)) == old(self).reader.cell(i)
            },
            r matches Some(Err(e)) ==> {
                let id = old(self).entities()[old(self).position() as int].id as int;
                &&& e == EcsError::MissingExpectedCell
                &&& slot_content(old(self).reader.cell(id)) is None
                &&& forall|i: int| (#[trigger] final(self).reader.cell(i)) == old(self).reader.cell(i)
            },
            r is None ==> forall|i: int|
                (#[trigger] final(self).reader.cell(i)) == old(self).reader.cell(i),
    {
        if self.counter >= self.entities.len() {
            return None;
        }
        let id = self.entities[self.counter].id;
        self.counter += 1;
        let installed = match self.reader.get(id) {
            Some(Some(_)) => true,
            _ => false,
        };
        if !installed {
            return Some(Err(EcsError::MissingExpectedCell));
        }
        match self.reader.get_mut(id) {
            Some(slot) => match slot.as_mut() {
                Some(component) => Some(Ok(Writter::new(component))),
                None => Some(Err(EcsError::MissingExpectedCell)),
            },
            None => Some(Err(EcsError::MissingExpectedCell)),
        }
    }
}

/// A view that writes the components of one type, for a list of entities.
///
/// The view borrows the column, so it is the only view of that column while
/// it lives.
pub struct Write<'a, T> {
    /// The column of the view.
    pub buffer: &'a mut BufferBlockVec<T>,
    /// The entities of the view, in the order of its walk.
    pub entities: Arc<Vec<Entity>>,
}

impl<'a, T> Accessible for Write<'a, T> {
    open spec fn unique() -> bool {
        false
    }

    fn is_unique() -> (r: bool) {
        false
    }
}

impl<'a, T> Write<'a, T> {
    /// The entities of the view, in the order of its walk.
    pub open spec fn entities(&self) -> Seq<Entity> {
        self.entities@
    }

    /// Creates the view of the column `buffer` for the entities `entities`.
    pub fn new(buffer: &'a mut BufferBlockVec<T>, entities: Arc<Vec<Entity>>) -> (v: Self)
        ensures
            *v.buffer == *old(buffer),
            *final(v.buffer) == *final(buffer),
            v.entities() == entities@,
    {
        Self { buffer, entities }
    }

    /// Returns the number of entities of the view.
    pub fn len(&self) -> (n: usize)
        ensures
            n == self.entities().len(),
    {
        self.entities.len()
    }

    /// Returns the walk of the view, at its start. What the walk leaves in
    /// the column is what the view then holds.
    pub fn iter(&mut self) -> (it: WriteAccessIterator<'_, T>)
        requires
            old(self).buffer.wf(),
        ensures
            it.valid(),
            it.position() == 0,
            it.remaining() == old(self).entities().len(),
            it.entities() == old(self).entities(),
            *it.reader == *old(self).buffer,
            *final(it.reader) == *final(self).buffer,
            final(self).entities() == old(self).entities(),
            *final(final(self).buffer) == *final(old(self).buffer),
    {
        WriteAccessIterator {
            reader: &mut *self.buffer,
            counter: 0,
            entities: self.entities.clone(),
        }
    }
}

/// A view that reads one unique component.
pub struct UniqueRead<'a, T> {
    unique: &'a Storage<T>,
}

impl<'a, T> View for UniqueRead<'a, T> {
    type V = T;

    closed spec fn view(&self) -> T {
        self.unique@
    }
}

impl<'a, T> Accessible for UniqueRead<'a, T> {
    open spec fn unique() -> bool {
        true
    }

    fn is_unique() -> (r: bool) {
        true
    }
}

impl<'a, T> UniqueRead<'a, T> {
    /// Creates the view of `component`.
    pub fn unique_new(component: &'a Storage<T>) -> (v: Self)
        ensures
            v@ == component@,
    {
        Self { unique: component }
    }

    /// Returns the holder of the unique component.
    pub fn read(&self) -> (c: &'a Storage<T>)
        ensures
            c@ == self@,
    {
        self.unique
    }
}

/// A view that writes one unique component.
pub struct UniqueWrite<'a, T> {
    /// The holder of the unique component.
    pub unique: &'a mut Storage<T>,
}

impl<'a, T> Accessible for UniqueWrite<'a, T> {
    open spec fn unique() -> bool {
        true
    }

    fn is_unique() -> (r: bool) {
        true
    }
}

impl<'a, T> UniqueWrite<'a, T> {
    /// Creates the view of `component`.
    pub fn unique_new(component: &'a mut Storage<T>) -> (v: Self)
        ensures
            v.unique@ == old(component)@,
            *final(v.unique) == *final(component),
    {
        Self { unique: component }
    }

    /// Returns the unique component, open to change: what the caller leaves
    /// there is the unique component from then on.
    pub fn write(&mut self) -> (c: &mut T)
        ensures
            *c == old(self).unique@,
            final(self).unique@ == *final(c),
            *final(final(self).unique) == *final(old(self).unique),
    {
        self.unique.get_mut()
    }
}

} // verus!
