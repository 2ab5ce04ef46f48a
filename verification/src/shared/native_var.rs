//! Types of values as the machine holds them.
use vstd::prelude::*;

use crate::problem::text::{chars_to_string, push_decimal, push_str_chars, decimal};

verus! {

/// The scalar types the machine works with.
#[derive(Clone, Copy, Debug, PartialEq, Eq, Structural)]
pub enum NativeBaseType {
    F32,
    I32,
    B8,
}

impl NativeBaseType {
    pub open spec fn spec_physical_size(self) -> nat {
        match self {
            NativeBaseType::F32 | NativeBaseType::I32 => 4,
            NativeBaseType::B8 => 1,
        }
    }

    /// Number of bytes one value of this type occupies.
    pub fn get_physical_size(&self) -> (r: usize)
        ensures
            r == self.spec_physical_size(),
    {
        match self {
            NativeBaseType::F32 | NativeBaseType::I32 => 4,
            NativeBaseType::B8 => 1,
        }
    }
}

impl NativeBaseType {
    pub open spec fn spec_name(self) -> Seq<char> {
        match self {
            NativeBaseType::F32 => "f32"@,
            NativeBaseType::I32 => "i32"@,
            NativeBaseType::B8 => "b8"@,
        }
    }

    /// How the type is written in listings.
    pub fn name(&self) -> (r: &'static str)
        ensures
            r@ == self.spec_name(),
    {
        match self {
            NativeBaseType::F32 => "f32",
            NativeBaseType::I32 => "i32",
            NativeBaseType::B8 => "b8",
        }
    }
}

/// Dimensions written as `[2][3]`.
pub open spec fn dims_text(dims: Seq<usize>) -> Seq<char>
    decreases dims.len(),
{
    if dims.len() == 0 {
        seq![]
    } else {
        dims_text(dims.drop_last()) + seq!['['] + decimal(dims.last() as nat) + seq![']']
    }
}

/// Product of a list of dimensions (1 for no dimensions).
pub open spec fn dims_product(dims: Seq<usize>) -> nat
    decreases dims.len(),
{
    if dims.len() == 0 {
        1
    } else {
        dims_product(dims.drop_last()) * (dims.last() as nat)
    }
}

/// A native scalar type wrapped in zero or more array dimensions, outermost
/// first.
#[derive(Clone, Debug, PartialEq, Eq)]
pub struct NativeType {
    pub base: NativeBaseType,
    pub dimensions: Vec<usize>,
}

impl NativeType {
    pub open spec fn spec_physical_size(&self) -> nat {
        self.base.spec_physical_size() * dims_product(self.dimensions@)
    }

    /// Computing the size dimension by dimension never exceeds `usize`.
    pub open spec fn physical_size_fits(&self) -> bool {
        forall|k: int|
            0 <= k <= self.dimensions@.len() ==> #[trigger] (self.base.spec_physical_size()
                * dims_product(self.dimensions@.take(k))) <= usize::MAX
    }

    pub fn array(base: NativeBaseType, dimensions: Vec<usize>) -> (r: NativeType)
        ensures
            r.base == base,
            r.dimensions@ == dimensions@,
    {
        NativeType { base, dimensions }
    }

    pub fn scalar(base: NativeBaseType) -> (r: NativeType)
        ensures
            r.base == base,
            r.dimensions@.len() == 0,
    {
        Self::array(base, Vec::new())
    }

    pub fn int_scalar() -> (r: NativeType)
        ensures
            r.base == NativeBaseType::I32,
            r.dimensions@.len() == 0,
    {
        Self::scalar(NativeBaseType::I32)
    }

    pub fn float_scalar() -> (r: NativeType)
        ensures
            r.base == NativeBaseType::F32,
            r.dimensions@.len() == 0,
    {
        Self::scalar(NativeBaseType::F32)
    }

    pub fn bool_scalar() -> (r: NativeType)
        ensures
            r.base == NativeBaseType::B8,
            r.dimensions@.len() == 0,
    {
        Self::scalar(NativeBaseType::B8)
    }

    pub fn get_base(&self) -> (r: NativeBaseType)
        ensures
            r == self.base,
    {
        self.base
    }

    pub fn borrow_dimensions(&self) -> (r: &Vec<usize>)
        ensures
            r@ == self.dimensions@,
    {
        &self.dimensions
    }

    pub fn is_int(&self) -> (r: bool)
        ensures
            r == (self.base == NativeBaseType::I32),
    {
        match self.base {
            NativeBaseType::I32 => true,
            _ => false,
        }
    }

    pub fn is_float(&self) -> (r: bool)
        ensures
            r == (self.base == NativeBaseType::F32),
    {
        match self.base {
            NativeBaseType::F32 => true,
            _ => false,
        }
    }

    pub fn is_scalar(&self) -> (r: bool)
        ensures
            r == (self.dimensions@.len() == 0),
    {
        self.dimensions.len() == 0
    }

    pub fn is_array(&self) -> (r: bool)
        ensures
            r == (self.dimensions@.len() > 0),
    {
        self.dimensions.len() > 0
    }

    /// Number of bytes a value of this type occupies: the size of the base
    /// type times every dimension.
    pub fn get_physical_size(&self) -> (r: usize)
        requires
            self.physical_size_fits(),
        ensures
            r == self.spec_physical_size(),
    {
        let mut size = self.base.get_physical_size();
        let mut i: usize = 0;
        while i < self.dimensions.len()
            invariant
                i <= self.dimensions@.len(),
                self.physical_size_fits(),
                size == self.base.spec_physical_size() * dims_product(self.dimensions@.take(i as int)),
            decreases self.dimensions@.len() - i,
        {
            let ghost prefix = self.dimensions@.take(i as int);
            let dim = self.dimensions[i];
            assert(self.dimensions@.take(i + 1).drop_last() =~= prefix);
            proof {
                assert(self.base.spec_physical_size() * dims_product(self.dimensions@.take(i + 1))
                    == (self.base.spec_physical_size() * dims_product(prefix)) * dim) by (nonlinear_arith)
                    requires
                        dims_product(self.dimensions@.take(i + 1)) == dims_product(prefix) * dim,
                ;
            }
            assert(self.base.spec_physical_size() * dims_product(self.dimensions@.take(i + 1)) <= usize::MAX);
            size = size * dim;
            i = i + 1;
        }
        assert(self.dimensions@.take(self.dimensions@.len() as int) =~= self.dimensions@);
        size
    }

    /// How the type is written in listings: its dimensions, then its base,
    /// as in `[2][3]i32`.
    pub fn describe(&self) -> (r: String)
        ensures
            r@ == dims_text(self.dimensions@) + self.base.spec_name(),
    {
        let mut out: Vec<char> = Vec::new();
        let mut i: usize = 0;
        while i < self.dimensions.len()
            invariant
                i <= self.dimensions@.len(),
                out@ == dims_text(self.dimensions@.take(i as int)),
            decreases self.dimensions@.len() - i,
        {
            assert(self.dimensions@.take(i + 1).drop_last() =~= self.dimensions@.take(i as int));
            out.push('[');
            push_decimal(&mut out, self.dimensions[i]);
            out.push(']');
            i = i + 1;
            assert(out@ =~= dims_text(self.dimensions@.take(i as int)));
        }
        assert(self.dimensions@.take(self.dimensions@.len() as int) =~= self.dimensions@);
        push_str_chars(&mut out, self.base.name());
        chars_to_string(&out)
    }

    /// The type of an element reached by indexing `num_dimensions` times:
    /// `[2][3]Int` unwrapped once is `[3]Int`.
    pub fn clone_and_unwrap(&self, num_dimensions: usize) -> (r: Self)
        requires
            num_dimensions <= self.dimensions@.len(),
        ensures
            r.base == self.base,
            r.dimensions@ == self.dimensions@.skip(num_dimensions as int),
    {
        let mut dimensions: Vec<usize> = Vec::new();
        let mut i = num_dimensions;
        while i < self.dimensions.len()
            invariant
                num_dimensions <= i <= self.dimensions@.len(),
                dimensions@ == self.dimensions@.subrange(num_dimensions as int, i as int),
            decreases self.dimensions@.len() - i,
        {
            dimensions.push(self.dimensions[i]);
            i = i + 1;
        }
        NativeType { base: self.base, dimensions }
    }
}

/// A variable of the machine program.
#[derive(Clone, Debug)]
pub struct NativeVar {
    pub typ: NativeType,
}

impl NativeVar {
    pub fn new(typ: NativeType) -> (r: NativeVar)
        ensures
            r.typ == typ,
    {
        NativeVar { typ }
    }

    pub fn borrow_type(&self) -> (r: &NativeType)
        ensures
            *r == self.typ,
    {
        &self.typ
    }

    pub fn borrow_dimensions(&self) -> (r: &Vec<usize>)
        ensures
            r@ == self.typ.dimensions@,
    {
        self.typ.borrow_dimensions()
    }

    pub fn get_physical_size(&self) -> (r: usize)
        requires
            self.typ.physical_size_fits(),
        ensures
            r == self.typ.spec_physical_size(),
    {
        self.typ.get_physical_size()
    }
}

} // verus!
