//! The two statement categories of a Type Language file.

use vstd::prelude::*;

verus! {

/// The category of a definition: a data type constructor or a remote
/// procedure.
#[derive(Debug, Clone, Copy, PartialEq, Eq, Structural)]
pub enum Category {
    /// The definition describes a type constructor.
    Types,
    /// The definition describes a remote procedure.
    Functions,
}

} // verus!
