use vstd::prelude::*;

verus! {

/// Why a project operation was refused.
#[derive(Debug, Clone, Copy, PartialEq, Eq, Structural)]
pub enum ProjectError {
    /// A category of that name already exists.
    DuplicateCategory,
    /// An entity of that name already exists.
    DuplicateEntity,
    /// The entity already has a state of that name.
    DuplicateState,
    /// No entity has that name.
    EntityNotFound,
    /// The entity has no state of that name.
    StateNotFound,
    /// The category is not registered in the project.
    UnknownCategory,
    /// The bytes are not an image that can be decoded.
    Decode,
}

} // verus!
