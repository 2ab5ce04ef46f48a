//! Data types of the resolved phase: a scalar base type seen through zero
//! or more (possibly proxied) array dimensions.
use vstd::prelude::*;

use crate::problem::text::{chars_to_string, decimal, push_decimal, push_str_chars};
use crate::shared::ProxyMode;

verus! {

#[derive(Clone, Copy, Debug, PartialEq, Eq, Structural)]
pub enum BaseType {
    Bool,
    Int,
    Float,
}

impl BaseType {
    pub fn equivalent(&self, other: &BaseType) -> (r: bool)
        ensures
            r == (*self == *other),
    {
        match (self, other) {
            (BaseType::Bool, BaseType::Bool) => true,
            (BaseType::Int, BaseType::Int) => true,
            (BaseType::Float, BaseType::Float) => true,
            _ => false,
        }
    }

    pub fn to_scalar_type(self) -> (r: DataType)
        ensures
            r.base == self,
            r.dimensions@.len() == 0,
    {
        DataType::scalar(self)
    }

    pub fn to_array_type(self, sizes: Vec<usize>) -> (r: DataType)
        ensures
            r.base == self,
            r.dimensions@ == keep_all(sizes@),
    {
        DataType::array(self, sizes)
    }
}

/// Every size paired with [`ProxyMode::Keep`].
pub open spec fn keep_all(sizes: Seq<usize>) -> Seq<(usize, ProxyMode)> {
    sizes.map_values(|size: usize| (size, ProxyMode::Keep))
}

/// A base type inside array dimensions, outermost first. Each dimension has
/// a size and the proxy mode it is seen through.
#[derive(Clone, Debug, PartialEq, Eq)]
pub struct DataType {
    pub base: BaseType,
    pub dimensions: Vec<(usize, ProxyMode)>,
}

/// Two lists of dimensions have the same sizes (proxy modes are ignored).
pub open spec fn same_sizes(a: Seq<(usize, ProxyMode)>, b: Seq<(usize, ProxyMode)>) -> bool {
    &&& a.len() == b.len()
    &&& forall|i: int| 0 <= i < a.len() ==> #[trigger] a[i].0 == b[i].0
}

impl DataType {
    /// Same base type and the same size in every dimension.
    pub open spec fn spec_equivalent(&self, other: &DataType) -> bool {
        self.base == other.base && same_sizes(self.dimensions@, other.dimensions@)
    }

    pub fn scalar(base: BaseType) -> (r: DataType)
        ensures
            r.base == base,
            r.dimensions@.len() == 0,
    {
        DataType { base, dimensions: Vec::new() }
    }

    pub fn new(base: BaseType) -> (r: DataType)
        ensures
            r.base == base,
            r.dimensions@.len() == 0,
    {
        Self::scalar(base)
    }

    /// An array type whose dimensions are all seen as they are.
    pub fn array(base: BaseType, dimensions: Vec<usize>) -> (r: DataType)
        ensures
            r.base == base,
            r.dimensions@ == keep_all(dimensions@),
    {
        let mut dims: Vec<(usize, ProxyMode)> = Vec::new();
        let mut i: usize = 0;
        while i < dimensions.len()
            invariant
                i <= dimensions@.len(),
                dims@ == keep_all(dimensions@.take(i as int)),
            decreases dimensions@.len() - i,
        {
            dims.push((dimensions[i], ProxyMode::Keep));
            i = i + 1;
            assert(dims@ =~= keep_all(dimensions@.take(i as int)));
        }
        assert(dimensions@.take(dimensions@.len() as int) =~= dimensions@);
        DataType { base, dimensions: dims }
    }

    pub fn proxy(base: BaseType, dimensions: Vec<(usize, ProxyMode)>) -> (r: DataType)
        ensures
            r.base == base,
            r.dimensions@ == dimensions@,
    {
        DataType { base, dimensions }
    }

    /// Adds an outermost dimension: with 5, `[2]Int` becomes `[5][2]Int`.
    pub fn wrap_with_dimension(&mut self, dimension: usize)
        ensures
            final(self).base == old(self).base,
            final(self).dimensions@ == seq![(dimension, ProxyMode::Keep)] + old(self).dimensions@,
    {
        self.dimensions.insert(0, (dimension, ProxyMode::Keep));
        assert(self.dimensions@ =~= seq![(dimension, ProxyMode::Keep)] + old(self).dimensions@);
    }

    /// Adds the given sizes as the outermost dimensions, in order: with 5,
    /// 4, 3, `[2][2]Int` becomes `[5][4][3][2][2]Int`.
    pub fn wrap_with_dimensions(&mut self, dimensions: Vec<usize>)
        ensures
            final(self).base == old(self).base,
            final(self).dimensions@ == keep_all(dimensions@) + old(self).dimensions@,
    {
        let mut dims: Vec<(usize, ProxyMode)> = Vec::new();
        let mut i: usize = 0;
        while i < dimensions.len()
            invariant
                i <= dimensions@.len(),
                dims@ == keep_all(dimensions@.take(i as int)),
            decreases dimensions@.len() - i,
        {
            dims.push((dimensions[i], ProxyMode::Keep));
            i = i + 1;
            assert(dims@ =~= keep_all(dimensions@.take(i as int)));
        }
        assert(dimensions@.take(dimensions@.len() as int) =~= dimensions@);
        let ghost outer = dims@;
        let mut k: usize = 0;
        while k < self.dimensions.len()
            invariant
                k <= old(self).dimensions@.len(),
                self.dimensions@ == old(self).dimensions@,
                self.base == old(self).base,
                dims@ == outer + old(self).dimensions@.take(k as int),
            decreases old(self).dimensions@.len() - k,
        {
            dims.push(self.dimensions[k]);
            k = k + 1;
            assert(dims@ =~= outer + old(self).dimensions@.take(k as int));
        }
        assert(old(self).dimensions@.take(old(self).dimensions@.len() as int) =~= old(self).dimensions@);
        self.dimensions = dims;
    }

    /// The type of an element reached by indexing `num_unwraps` times:
    /// `[2][3]Int` unwrapped once is `[3]Int`.
    pub fn clone_and_unwrap(&self, num_unwraps: usize) -> (r: DataType)
        requires
            num_unwraps <= self.dimensions@.len(),
        ensures
            r.base == self.base,
            r.dimensions@ == self.dimensions@.skip(num_unwraps as int),
    {
        let mut dimensions: Vec<(usize, ProxyMode)> = Vec::new();
        let mut i = num_unwraps;
        while i < self.dimensions.len()
            invariant
                num_unwraps <= i <= self.dimensions@.len(),
                dimensions@ == self.dimensions@.subrange(num_unwraps as int, i as int),
            decreases self.dimensions@.len() - i,
        {
            dimensions.push(self.dimensions[i]);
            i = i + 1;
        }
        DataType { base: self.base, dimensions }
    }

    pub fn borrow_dimensions(&self) -> (r: &Vec<(usize, ProxyMode)>)
        ensures
            r@ == self.dimensions@,
    {
        &self.dimensions
    }

    /// Replaces every dimension; the number of dimensions cannot change.
    pub fn set_dimensions(&mut self, new_dimensions: Vec<(usize, ProxyMode)>)
        requires
            new_dimensions@.len() == old(self).dimensions@.len(),
        ensures
            final(self).base == old(self).base,
            final(self).dimensions@ == new_dimensions@,
    {
        let mut index: usize = 0;
        while index < new_dimensions.len()
            invariant
                index <= new_dimensions@.len(),
                new_dimensions@.len() == self.dimensions@.len(),
                self.base == old(self).base,
                forall|k: int| 0 <= k < index ==> self.dimensions@[k] == new_dimensions@[k],
            decreases new_dimensions@.len() - index,
        {
            self.dimensions.set(index, new_dimensions[index]);
            index = index + 1;
        }
        assert(self.dimensions@ =~= new_dimensions@);
    }

    pub fn borrow_base(&self) -> (r: &BaseType)
        ensures
            *r == self.base,
    {
        &self.base
    }

    pub fn is_scalar(&self) -> (r: bool)
        ensures
            r == (self.dimensions@.len() == 0),
    {
        self.dimensions.len() == 0
    }

    pub fn is_specific_scalar(&self, base_type: &BaseType) -> (r: bool)
        ensures
            r == (self.dimensions@.len() == 0 && self.base == *base_type),
    {
        self.is_scalar() && self.base.equivalent(base_type)
    }

    pub fn is_array(&self) -> (r: bool)
        ensures
            r == (self.dimensions@.len() > 0),
    {
        !self.is_scalar()
    }

    /// Whether two types have the same base and the same size in every
    /// dimension, whatever their proxy modes.
    pub fn equivalent(&self, other: &Self) -> (r: bool)
        ensures
            r == self.spec_equivalent(other),
    {
        if !self.base.equivalent(&other.base) {
            return false;
        }
        if self.dimensions.len() != other.dimensions.len() {
            return false;
        }
        let mut i: usize = 0;
        while i < self.dimensions.len()
            invariant
                i <= self.dimensions@.len(),
                self.dimensions@.len() == other.dimensions@.len(),
                forall|k: int| 0 <= k < i ==> self.dimensions@[k].0 == other.dimensions@[k].0,
            decreases self.dimensions@.len() - i,
        {
            if self.dimensions[i].0 != other.dimensions[i].0 {
                return false;
            }
            i = i + 1;
        }
        true
    }
}

/// The name of a base type in listings.
pub open spec fn base_name(base: BaseType) -> Seq<char> {
    match base {
        BaseType::Bool => "Bool"@,
        BaseType::Int => "Int"@,
        BaseType::Float => "Float"@,
    }
}

/// The sizes of the dimensions in brackets, outermost first.
pub open spec fn dims_text(dims: Seq<(usize, ProxyMode)>) -> Seq<char>
    decreases dims.len(),
{
    if dims.len() == 0 {
        seq![]
    } else {
        dims_text(dims.drop_last()) + seq!['['] + decimal(dims.last().0 as nat) + seq![']']
    }
}

impl BaseType {
    /// The name of the base type in listings.
    pub fn name(&self) -> (r: &'static str)
        ensures
            r@ == base_name(*self),
    {
        match self {
            BaseType::Bool => "Bool",
            BaseType::Int => "Int",
            BaseType::Float => "Float",
        }
    }
}

impl DataType {
    /// How the type is written in listings, such as `[5][2]Int`.
    pub fn describe(&self) -> (r: String)
        ensures
            r@ == dims_text(self.dimensions@) + base_name(self.base),
    {
        let mut out: Vec<char> = Vec::new();
        let mut i: usize = 0;
        while i < self.dimensions.len()
            invariant
                i <= self.dimensions@.len(),
                out@ == dims_text(self.dimensions@.take(i as int)),
            decreases self.dimensions@.len() - i,
        {
            let ghost before = out@;
            out.push('[');
            push_decimal(&mut out, self.dimensions[i].0);
            out.push(']');
            assert(self.dimensions@.take(i + 1).drop_last() =~= self.dimensions@.take(i as int));
            assert(out@ =~= before + seq!['['] + decimal(self.dimensions@[i as int].0 as nat) + seq![']']);
            i = i + 1;
        }
        assert(self.dimensions@.take(self.dimensions@.len() as int) =~= self.dimensions@);
        push_str_chars(&mut out, self.base.name());
        chars_to_string(&out)
    }
}

/// Law: type equivalence is reflexive, symmetric and transitive.
pub proof fn lemma_equivalent_is_equivalence(a: DataType, b: DataType, c: DataType)
    ensures
        a.spec_equivalent(&a),
        a.spec_equivalent(&b) ==> b.spec_equivalent(&a),
        a.spec_equivalent(&b) && b.spec_equivalent(&c) ==> a.spec_equivalent(&c),
{
}

} // verus!
