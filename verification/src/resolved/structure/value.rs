//! Proxy modes of resolved values.
use vstd::prelude::*;

verus! {

/// How a proxied dimension of a value is read.
#[derive(Clone, Copy, Debug, PartialEq, Eq, Structural)]
pub enum ProxyMode {
    /// Use the original array's dimensions.
    Literal,
    /// Discard the index.
    Discard,
    /// No matter what, use index zero.
    Collapse,
}

} // verus!
