//! The holder of one component value.

use vstd::prelude::*;

verus! {

/// The mark of a value that a column can hold.
pub trait AnyStorage {

}

/// A wrapper over a component, so that any type can be one without
/// implementing anything.
pub struct Storage<T> {
    /// The component itself.
    component: T,
}

impl<T> View for Storage<T> {
    type V = T;

    closed spec fn view(&self) -> T {
        self.component
    }
}

impl<T> Storage<T> {
    /// Creates the holder of `component`.
    pub fn new(component: T) -> (s: Self)
        ensures
            s@ == component,
    {
        Self { component }
    }

    /// Returns the component.
    pub fn get(&self) -> (c: &T)
        ensures
            *c == self@,
    {
        &self.component
    }

    /// Returns the component, open to change: what the caller leaves there
    /// is what the holder then holds.
    pub fn get_mut(&mut self) -> (c: &mut T)
        ensures
            *c == old(self)@,
            final(self)@ == *final(c),
    {
        &mut self.component
    }

    /// Takes the component out of its holder.
    pub fn into_inner(self) -> (c: T)
        ensures
            c == self@,
    {
        self.component
    }
}

impl<T> AnyStorage for Storage<T> {

}

} // verus!
