//! The failures that the operations of the world report.

use vstd::prelude::*;

verus! {

/// Why an operation on the world did not succeed.
#[derive(Clone, Copy, Debug, PartialEq, Eq, Structural)]
pub enum EcsError {
    /// A bundle or a system names a component type that has no bit.
    UnregisteredComponent,
    /// A system asks for a unique component that was never installed.
    MissingUnique,
    /// An entity's identifier has no bitmask in the entity table.
    UnknownEntity,
    /// A view lists an entity whose cell in the view's column holds nothing.
    MissingExpectedCell,
}

impl EcsError {
    /// The message that goes with the failure.
    pub fn to_string(&self) -> (s: String)
        ensures
            s@ == match *self {
                EcsError::UnregisteredComponent => "the component is not registered"@,
                EcsError::MissingUnique => "the unique component does not exist"@,
                EcsError::UnknownEntity => "there is no bitmask associated with the entity"@,
                EcsError::MissingExpectedCell => "the entity does not contain the component"@,
            },
    {
        match self {
            EcsError::UnregisteredComponent => "the component is not registered".to_string(),
            EcsError::MissingUnique => "the unique component does not exist".to_string(),
            EcsError::UnknownEntity => "there is no bitmask associated with the entity".to_string(),
            EcsError::MissingExpectedCell => "the entity does not contain the component".to_string(),
        }
    }
}

} // verus!
