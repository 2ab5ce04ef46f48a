//! Identifiers of scopes and variables in a simple-phase program.
use vstd::prelude::*;

verus! {

/// The number of a scope.
#[derive(Clone, Copy, Debug, PartialEq, Eq, Structural)]
pub struct ScopeId(pub usize);

/// The number of a variable.
#[derive(Clone, Copy, Debug, PartialEq, Eq, Structural)]
pub struct VariableId(pub usize);

} // verus!
