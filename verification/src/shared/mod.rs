//! Items shared by several phases of the compiler: proxy modes, labels and
//! the native data model.
use vstd::prelude::*;

pub mod labels;
pub mod native_data;
pub mod native_var;

pub use labels::{Label, LabelId, LabelStorage};
pub use native_data::NativeData;
pub use native_var::{NativeBaseType, NativeType, NativeVar};

verus! {

/// How one dimension of an array is seen through a proxy.
#[derive(Clone, Copy, Debug, PartialEq, Eq, Structural)]
pub enum ProxyMode {
    /// Use this as a regular array index.
    Keep,
    /// Throw the index away.
    Discard,
    /// Replace with index 0.
    Collapse,
}

impl ProxyMode {
    /// The suffix used when printing an index seen through this mode.
    pub fn symbol(&self) -> (r: &'static str)
        ensures
            *self == ProxyMode::Keep ==> r@ == ""@,
            *self == ProxyMode::Discard ==> r@ == ">X"@,
            *self == ProxyMode::Collapse ==> r@ == ">1"@,
    {
        match self {
            ProxyMode::Keep => "",
            ProxyMode::Discard => ">X",
            ProxyMode::Collapse => ">1",
        }
    }
}

/// The index into the underlying array that `index` (an index into the
/// proxied array) stands for, dimension by dimension.
pub open spec fn proxied_index(proxy: Seq<(usize, ProxyMode)>, index: Seq<usize>) -> Seq<usize>
    decreases proxy.len(),
{
    if proxy.len() == 0 {
        seq![]
    } else {
        let before = proxied_index(proxy.drop_last(), index);
        match proxy.last().1 {
            ProxyMode::Keep => before.push(index[proxy.len() - 1]),
            ProxyMode::Discard => before,
            ProxyMode::Collapse => before.push(0usize),
        }
    }
}

/// The number of dimensions of the underlying array that a proxy keeps.
pub open spec fn proxy_kept_dims(proxy: Seq<(usize, ProxyMode)>) -> nat
    decreases proxy.len(),
{
    if proxy.len() == 0 {
        0
    } else {
        proxy_kept_dims(proxy.drop_last()) + if proxy.last().1 == ProxyMode::Discard {
            0nat
        } else {
            1nat
        }
    }
}

/// The index is long enough for every kept dimension of the proxy.
pub open spec fn index_covers_proxy(proxy: Seq<(usize, ProxyMode)>, index: Seq<usize>) -> bool {
    forall|i: int| 0 <= i < proxy.len() && #[trigger] proxy[i].1 == ProxyMode::Keep ==> i < index.len()
}

/// Converts an index into a proxied array into the index of the element of
/// the underlying array that it refers to.
pub fn apply_proxy_to_index(proxy: &[(usize, ProxyMode)], index: &[usize]) -> (result: Vec<usize>)
    requires
        index_covers_proxy(proxy@, index@),
    ensures
        result@ == proxied_index(proxy@, index@),
{
    let mut result: Vec<usize> = Vec::new();
    let mut current_dimension: usize = 0;
    while current_dimension < proxy.len()
        invariant
            current_dimension <= proxy.len(),
            index_covers_proxy(proxy@, index@),
            result@ == proxied_index(proxy@.take(current_dimension as int), index@),
        decreases proxy.len() - current_dimension,
    {
        let ghost before = proxy@.take(current_dimension as int);
        match proxy[current_dimension].1 {
            ProxyMode::Keep => result.push(index[current_dimension]),
            ProxyMode::Discard => {},
            ProxyMode::Collapse => result.push(0),
        }
        current_dimension = current_dimension + 1;
        assert(proxy@.take(current_dimension as int).drop_last() =~= before);
    }
    assert(proxy@.take(proxy@.len() as int) =~= proxy@);
    result
}

/// Law: the proxied index has one entry for each dimension that the proxy
/// does not discard.
pub proof fn lemma_proxied_index_len(proxy: Seq<(usize, ProxyMode)>, index: Seq<usize>)
    ensures
        proxied_index(proxy, index).len() == proxy_kept_dims(proxy),
    decreases proxy.len(),
{
    if proxy.len() > 0 {
        lemma_proxied_index_len(proxy.drop_last(), index);
    }
}

} // verus!
