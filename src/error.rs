//! Errors of path handling, conversion and code generation.
use vstd::prelude::*;

verus! {

/// Why an operation on the API model could not complete.
#[derive(Debug, Clone, Copy, PartialEq, Eq, Hash, Structural)]
pub enum BindingError {
    /// An empty path, an empty item, or template syntax where it is not allowed.
    MalformedPath,
    /// A path with a single item has no parent.
    EmptyParent,
    /// A template parameter that the given arguments do not cover, or one left
    /// where concrete code is required.
    UnresolvedTemplateParameter,
    /// A type that the conversion engine cannot carry across the boundary.
    NoKnownConversion,
    /// The generator produced an inconsistent signature (a defect of the generator).
    GenerationInvariantViolation,
}

} // verus!
