//! Data types as the resolver sees them while it works: possibly still
//! automatic or not available at run time.
use vstd::prelude::*;

use crate::problem::text::{chars_to_string, decimal, push_decimal, push_str_chars};
use crate::resolved::structure as o;

verus! {

/// An intermediate data type. Arrays nest: `Array(5, Array(2, Int))` is
/// `[5][2]Int`.
#[derive(Debug, PartialEq, Eq)]
pub enum DataType {
    Bool,
    Int,
    Float,
    Macro,
    DataType,
    Void,
    Automatic,
    Array(usize, Box<DataType>),
}

/// The type made by wrapping `base` in the given dimensions, outermost
/// first.
pub open spec fn spec_make_array(dims: Seq<usize>, base: DataType) -> DataType
    decreases dims.len(),
{
    if dims.len() > 0 {
        DataType::Array(dims[0], Box::new(spec_make_array(dims.drop_first(), base)))
    } else {
        base
    }
}

/// The sizes of the array dimensions of a type, outermost first.
pub open spec fn spec_dims(t: DataType) -> Seq<usize>
    decreases t,
{
    match t {
        DataType::Array(size, inner) => seq![size] + spec_dims(*inner),
        _ => seq![],
    }
}

/// The type of the elements once every array dimension is removed.
pub open spec fn spec_base(t: DataType) -> DataType
    decreases t,
{
    match t {
        DataType::Array(_, inner) => spec_base(*inner),
        _ => t,
    }
}

/// The resolved scalar type a base type stands for, if it has one.
pub open spec fn spec_resolved_base(t: DataType) -> Option<o::BaseType> {
    match t {
        DataType::Bool => Some(o::BaseType::Bool),
        DataType::Int => Some(o::BaseType::Int),
        DataType::Float => Some(o::BaseType::Float),
        _ => None,
    }
}

impl DataType {
    /// Wraps `base` in the given dimensions, outermost first.
    pub fn make_array(dims: &[usize], base: Self) -> (r: Self)
        ensures
            r == spec_make_array(dims@, base),
    {
        let mut result = base;
        let mut i = dims.len();
        assert(dims@.skip(i as int) =~= Seq::<usize>::empty());
        while i > 0
            invariant
                i <= dims@.len(),
                result == spec_make_array(dims@.skip(i as int), base),
            decreases i,
        {
            i = i - 1;
            let ghost rest = dims@.skip(i as int + 1);
            assert(dims@.skip(i as int).drop_first() =~= rest);
            result = DataType::Array(dims[i], Box::new(result));
        }
        assert(dims@.skip(0) =~= dims@);
        result
    }

    /// The resolved type this stands for, or `None` when its base type is
    /// not available at run time.
    pub fn resolve(&self) -> (r: Option<o::DataType>)
        ensures
            spec_resolved_base(spec_base(*self)) is None ==> r is None,
            spec_resolved_base(spec_base(*self)) matches Some(b) ==> r matches Some(t) && t.base == b
                && t.dimensions@ == o::data_type::keep_all(spec_dims(*self)),
        decreases self,
    {
        match self {
            DataType::Array(len, inner) => {
                match inner.resolve() {
                    Some(mut resolved) => {
                        resolved.wrap_with_dimension(*len);
                        proof {
                            let kept = o::data_type::keep_all(spec_dims(*self));
                            assert(kept =~= seq![(*len, crate::shared::ProxyMode::Keep)]
                                + o::data_type::keep_all(spec_dims(**inner)));
                        }
                        Some(resolved)
                    },
                    None => None,
                }
            },
            DataType::Bool => Some(o::DataType::scalar(o::BaseType::Bool)),
            DataType::Int => Some(o::DataType::scalar(o::BaseType::Int)),
            DataType::Float => Some(o::DataType::scalar(o::BaseType::Float)),
            _ => None,
        }
    }

    fn collect_dims_impl(&self, dims: &mut Vec<usize>)
        ensures
            final(dims)@ == old(dims)@ + spec_dims(*self),
        decreases self,
    {
        if let DataType::Array(size, btype) = self {
            dims.push(*size);
            btype.collect_dims_impl(dims);
            assert(dims@ =~= old(dims)@ + spec_dims(*self));
        } else {
            assert(dims@ =~= old(dims)@ + spec_dims(*self));
        }
    }

    /// The sizes of the array dimensions, outermost first.
    pub fn collect_dims(&self) -> (r: Vec<usize>)
        ensures
            r@ == spec_dims(*self),
    {
        let mut dims = Vec::new();
        self.collect_dims_impl(&mut dims);
        assert(dims@ =~= spec_dims(*self));
        dims
    }

    /// Whether the type is automatic or an array of automatic elements.
    pub fn is_automatic(&self) -> (r: bool)
        ensures
            r == (spec_base(*self) == DataType::Automatic),
        decreases self,
    {
        match self {
            DataType::Automatic => true,
            DataType::Array(_, etype) => etype.is_automatic(),
            _ => false,
        }
    }

    /// The same array dimensions around a different element type.
    pub fn with_different_base(&self, new_base: DataType) -> (r: Self)
        ensures
            r == spec_make_array(spec_dims(*self), new_base),
        decreases self,
    {
        match self {
            DataType::Array(size, etyp) => {
                let inner = etyp.with_different_base(new_base);
                proof {
                    assert((seq![*size] + spec_dims(**etyp)).drop_first() =~= spec_dims(**etyp));
                }
                DataType::Array(*size, Box::new(inner))
            },
            _ => new_base,
        }
    }

    /// Structural equality of two types.
    pub fn same_as(&self, other: &DataType) -> (r: bool)
        ensures
            r == (*self == *other),
        decreases self,
    {
        match (self, other) {
            (DataType::Bool, DataType::Bool) => true,
            (DataType::Int, DataType::Int) => true,
            (DataType::Float, DataType::Float) => true,
            (DataType::Macro, DataType::Macro) => true,
            (DataType::DataType, DataType::DataType) => true,
            (DataType::Void, DataType::Void) => true,
            (DataType::Automatic, DataType::Automatic) => true,
            (DataType::Array(a, ai), DataType::Array(b, bi)) => *a == *b && ai.same_as(bi),
            _ => false,
        }
    }

    /// A copy of this type.
    pub fn duplicate(&self) -> (r: DataType)
        ensures
            r == *self,
        decreases self,
    {
        match self {
            DataType::Bool => DataType::Bool,
            DataType::Int => DataType::Int,
            DataType::Float => DataType::Float,
            DataType::Macro => DataType::Macro,
            DataType::DataType => DataType::DataType,
            DataType::Void => DataType::Void,
            DataType::Automatic => DataType::Automatic,
            DataType::Array(size, inner) => DataType::Array(*size, Box::new(inner.duplicate())),
        }
    }

    /// The element type once every array dimension is removed.
    pub fn base_type(&self) -> (r: DataType)
        ensures
            r == spec_base(*self),
        decreases self,
    {
        match self {
            DataType::Array(_, inner) => inner.base_type(),
            _ => self.duplicate(),
        }
    }
}

/// How a type is written in listings: `[5][2]INT`.
pub open spec fn type_text(t: DataType) -> Seq<char>
    decreases t,
{
    match t {
        DataType::Bool => "BOOL"@,
        DataType::Int => "INT"@,
        DataType::Float => "FLOAT"@,
        DataType::Macro => "MACRO"@,
        DataType::DataType => "DATA_TYPE"@,
        DataType::Void => "VOID"@,
        DataType::Automatic => "AUTO"@,
        DataType::Array(len, inner) => seq!['['] + decimal(len as nat) + seq![']'] + type_text(*inner),
    }
}

impl DataType {
    fn push_text(&self, out: &mut Vec<char>)
        ensures
            final(out)@ == old(out)@ + type_text(*self),
        decreases self,
    {
        match self {
            DataType::Bool => push_str_chars(out, "BOOL"),
            DataType::Int => push_str_chars(out, "INT"),
            DataType::Float => push_str_chars(out, "FLOAT"),
            DataType::Macro => push_str_chars(out, "MACRO"),
            DataType::DataType => push_str_chars(out, "DATA_TYPE"),
            DataType::Void => push_str_chars(out, "VOID"),
            DataType::Automatic => push_str_chars(out, "AUTO"),
            DataType::Array(len, inner) => {
                out.push('[');
                push_decimal(out, *len);
                out.push(']');
                inner.push_text(out);
                assert(out@ =~= old(out)@ + type_text(*self));
            },
        }
    }

    /// How the type is written in listings, such as `[5][2]INT`.
    pub fn describe(&self) -> (r: String)
        ensures
            r@ == type_text(*self),
    {
        let mut out: Vec<char> = Vec::new();
        self.push_text(&mut out);
        assert(out@ =~= type_text(*self));
        chars_to_string(&out)
    }
}

impl Clone for DataType {
    fn clone(&self) -> (r: Self)
        ensures
            r == *self,
    {
        self.duplicate()
    }
}

/// Law: the dimensions of an array made from `dims` around `base` are `dims`
/// followed by those of `base`, and its element type is that of `base`.
pub proof fn lemma_make_array_dims(dims: Seq<usize>, base: DataType)
    ensures
        spec_dims(spec_make_array(dims, base)) == dims + spec_dims(base),
        spec_base(spec_make_array(dims, base)) == spec_base(base),
    decreases dims.len(),
{
    if dims.len() > 0 {
        lemma_make_array_dims(dims.drop_first(), base);
        assert(dims =~= seq![dims[0]] + dims.drop_first());
        assert(seq![dims[0]] + (dims.drop_first() + spec_dims(base)) =~= dims + spec_dims(base));
    } else {
        assert(dims + spec_dims(base) =~= spec_dims(base));
    }
}

/// Law: every type is its dimensions wrapped around its element type.
pub proof fn lemma_type_is_array_of_base(t: DataType)
    ensures
        spec_make_array(spec_dims(t), spec_base(t)) == t,
        spec_base(t) !is Array,
    decreases t,
{
    if let DataType::Array(size, inner) = t {
        lemma_type_is_array_of_base(*inner);
        assert((seq![size] + spec_dims(*inner)).drop_first() =~= spec_dims(*inner));
    }
}

/// Law: changing the element type keeps the dimensions, and the result is
/// automatic exactly when the new element type is.
pub proof fn lemma_with_different_base(t: DataType, new_base: DataType)
    requires
        new_base !is Array,
    ensures
        spec_dims(spec_make_array(spec_dims(t), new_base)) == spec_dims(t),
        spec_base(spec_make_array(spec_dims(t), new_base)) == new_base,
{
    lemma_make_array_dims(spec_dims(t), new_base);
    assert(spec_dims(t) + spec_dims(new_base) =~= spec_dims(t));
}

} // verus!
