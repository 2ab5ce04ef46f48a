//! The concrete form of a program: every value is a scalar or an 8-wide
//! vector of scalars, and every type has known dimensions.
use std::ops::{Add, Deref};
use std::rc::Rc;

use vstd::prelude::*;

use crate::shared::native_var::dims_product;

verus! {

#[derive(Clone, Copy, Debug, PartialEq, Eq, Structural)]
pub enum AxisBroadcastBehavior {
    /// Treat a n-length dimension as an n-length dimension.
    Keep,
    /// Broadcast a 1-length dimension to a larger size.
    Stretch,
    /// Treat the array as having an extra 1-length dimension added to it
    /// (stretch it.)
    Create,
}

pub type BroadcastBehavior = Vec<AxisBroadcastBehavior>;

/// A scalar or 8-wide vector computation. A float literal is carried by
/// its single-precision bit pattern.
#[derive(Debug)]
pub enum ConcreteValue {
    IntLiteral(i32),
    FloatLiteral(u32),
    BoolLiteral(bool),
    Unvectorize(ConcreteValuePtr, u8),
    Vectorize([ConcreteValuePtr; 8]),
    VectorizeByDuplication(ConcreteValuePtr),
    InputScalar { input: usize, position: usize },
    InputVector { input: usize, position: usize },
    UnaryOp(UnaryOp, ConcreteValuePtr),
    BinaryOp(BinaryOp, ConcreteValuePtr, ConcreteValuePtr),
}

/// Whether a value is an 8-wide vector: vectors are built by vectorizing or
/// read as vector inputs, and an operation is a vector when an operand is.
pub open spec fn spec_is_vector(v: ConcreteValue) -> bool
    decreases v,
{
    match v {
        ConcreteValue::Vectorize(..) => true,
        ConcreteValue::InputVector { .. } => true,
        ConcreteValue::UnaryOp(_, rhs) => spec_is_vector(*rhs.0),
        ConcreteValue::BinaryOp(_, lhs, rhs) => spec_is_vector(*lhs.0) || spec_is_vector(*rhs.0),
        _ => false,
    }
}

impl ConcreteValue {
    pub fn is_vector(&self) -> (r: bool)
        ensures
            r == spec_is_vector(*self),
        decreases self,
    {
        match self {
            ConcreteValue::Vectorize(..) => true,
            ConcreteValue::InputVector { .. } => true,
            ConcreteValue::UnaryOp(_, rhs) => rhs.0.is_vector(),
            ConcreteValue::BinaryOp(_, lhs, rhs) => lhs.0.is_vector() || rhs.0.is_vector(),
            _ => false,
        }
    }

    pub fn is_scalar(&self) -> (r: bool)
        ensures
            r == !spec_is_vector(*self),
    {
        !self.is_vector()
    }
}

/// A scalar type with dimensions, innermost first.
#[derive(Clone, Debug)]
pub struct ConcreteType {
    pub base: ConcreteScalarType,
    pub dims: Vec<usize>,
}

/// Every prefix product of the dimensions fits in a `usize`.
pub open spec fn strides_fit(dims: Seq<usize>) -> bool {
    forall|k: int| 0 <= k <= dims.len() ==> #[trigger] dims_product(dims.take(k)) <= usize::MAX
}

/// Part `k` of an index given outermost first: the index along the `k`-th
/// innermost dimension.
pub open spec fn index_part(index: Seq<usize>, k: int) -> usize {
    index[index.len() - 1 - k]
}

/// The flat position of an index over the first `k` (innermost)
/// dimensions; dimensions of size 1 or less are broadcast and contribute
/// nothing.
pub open spec fn flatten_prefix(dims: Seq<usize>, index: Seq<usize>, k: int) -> int
    decreases k,
{
    if k <= 0 {
        0
    } else {
        flatten_prefix(dims, index, k - 1) + if dims[k - 1] > 1 {
            index_part(index, k - 1) * dims_product(dims.take(k - 1))
        } else {
            0
        }
    }
}

/// The index is long enough and in range along every dimension that is not
/// broadcast.
pub open spec fn index_in_range(dims: Seq<usize>, index: Seq<usize>) -> bool {
    &&& index.len() >= dims.len()
    &&& forall|k: int| 0 <= k < dims.len() && #[trigger] dims[k] > 1 ==> index_part(index, k) < dims[k]
}

proof fn lemma_stride_step(dim: int, stride: int)
    requires
        dim >= 0,
        stride >= 0,
    ensures
        stride * dim > 0 ==> stride > 0,
        dim == 1 ==> stride * dim == stride,
        dim == 0 ==> stride * dim == 0,
{
    assert(stride * dim > 0 ==> stride > 0) by (nonlinear_arith)
        requires
            dim >= 0,
            stride >= 0,
    ;
}

proof fn lemma_flat_step(index: int, stride: int, part: int, dim: int)
    requires
        0 <= index,
        0 <= stride,
        0 <= part < dim,
        stride > 0 ==> index < stride,
    ensures
        stride == 0 ==> part * stride == 0,
        stride > 0 ==> index + part * stride < stride * dim,
{
    assert(stride > 0 ==> index + part * stride < stride * dim) by (nonlinear_arith)
        requires
            0 <= index,
            0 <= part < dim,
            stride > 0 ==> index < stride,
    {
        if stride > 0 {
            assert(part * stride <= (dim - 1) * stride);
            assert((dim - 1) * stride + stride == stride * dim);
        }
    }
}

impl ConcreteType {
    /// Expects an index that indexes the outermost (last) dimension first,
    /// and the innermost (first) dimension last. Handles indexes that index
    /// into a broadcasted version of this datatype. E.G. if this type is
    /// Array(Something, 1, 5), you can pass in an index for Array(Something,
    /// 12, 5, 78) and it will still give the correct result.
    pub fn flatten_index(&self, unflattened_index: &[usize]) -> (r: usize)
        requires
            index_in_range(self.dims@, unflattened_index@),
            strides_fit(self.dims@),
        ensures
            r == flatten_prefix(self.dims@, unflattened_index@, self.dims@.len() as int),
            dims_product(self.dims@) > 0 ==> r < dims_product(self.dims@),
    {
        let mut index: usize = 0;
        let mut stride: usize = 1;
        let mut k: usize = 0;
        let n = unflattened_index.len();
        assert(self.dims@.take(0) =~= Seq::<usize>::empty());
        while k < self.dims.len()
            invariant
                k <= self.dims@.len(),
                n == unflattened_index@.len(),
                index_in_range(self.dims@, unflattened_index@),
                strides_fit(self.dims@),
                stride == dims_product(self.dims@.take(k as int)),
                index == flatten_prefix(self.dims@, unflattened_index@, k as int),
                stride > 0 ==> index < stride,
            decreases self.dims@.len() - k,
        {
            let dim = self.dims[k];
            let ghost prev = self.dims@.take(k as int);
            assert(self.dims@.take(k + 1).drop_last() =~= prev);
            assert(dims_product(self.dims@.take(k + 1)) == stride * dim);
            assert(dims_product(self.dims@.take(k + 1)) <= usize::MAX);
            proof {
                lemma_stride_step(dim as int, stride as int);
            }
            if dim > 1 {
                let part = unflattened_index[n - 1 - k];
                proof {
                    lemma_flat_step(index as int, stride as int, part as int, dim as int);
                }
                index = index + part * stride;
            }
            stride = stride * dim;
            k = k + 1;
        }
        assert(self.dims@.take(self.dims@.len() as int) =~= self.dims@);
        index
    }

    /// A copy of the type.
    pub fn duplicate(&self) -> (r: ConcreteType)
        ensures
            r.base == self.base,
            r.dims@ == self.dims@,
    {
        let mut dims: Vec<usize> = Vec::new();
        let mut i: usize = 0;
        while i < self.dims.len()
            invariant
                i <= self.dims@.len(),
                dims@ == self.dims@.take(i as int),
            decreases self.dims@.len() - i,
        {
            dims.push(self.dims[i]);
            i = i + 1;
            assert(dims@ =~= self.dims@.take(i as int));
        }
        assert(self.dims@.take(self.dims@.len() as int) =~= self.dims@);
        ConcreteType { base: self.base, dims }
    }

    /// The number of scalars a value of this type holds.
    pub fn size(&self) -> (r: usize)
        requires
            strides_fit(self.dims@),
        ensures
            r == dims_product(self.dims@),
    {
        let mut size: usize = 1;
        let mut k: usize = 0;
        assert(self.dims@.take(0) =~= Seq::<usize>::empty());
        while k < self.dims.len()
            invariant
                k <= self.dims@.len(),
                strides_fit(self.dims@),
                size == dims_product(self.dims@.take(k as int)),
            decreases self.dims@.len() - k,
        {
            assert(self.dims@.take(k + 1).drop_last() =~= self.dims@.take(k as int));
            assert(dims_product(self.dims@.take(k + 1)) <= usize::MAX);
            size = size * self.dims[k];
            k = k + 1;
        }
        assert(self.dims@.take(self.dims@.len() as int) =~= self.dims@);
        size
    }
}

/// The scalar types values can have at run time.
#[derive(Clone, Copy, Debug, PartialEq, Eq, Structural)]
pub enum ConcreteScalarType {
    Int,
    Float,
    Bool,
}

/// The rank of a scalar type when two are combined: the combination of two
/// types is the one of higher rank.
pub open spec fn scalar_rank(t: ConcreteScalarType) -> int {
    match t {
        ConcreteScalarType::Bool => 0,
        ConcreteScalarType::Int => 1,
        ConcreteScalarType::Float => 2,
    }
}

/// The type two scalars are converted to when they meet in one array.
pub open spec fn spec_combine(a: ConcreteScalarType, b: ConcreteScalarType) -> ConcreteScalarType {
    match a {
        ConcreteScalarType::Bool => b,
        ConcreteScalarType::Int => match b {
            ConcreteScalarType::Float => ConcreteScalarType::Float,
            _ => ConcreteScalarType::Int,
        },
        ConcreteScalarType::Float => ConcreteScalarType::Float,
    }
}

impl vstd::std_specs::ops::AddSpecImpl for ConcreteScalarType {
    open spec fn obeys_add_spec() -> bool {
        true
    }

    open spec fn add_req(self, rhs: Self) -> bool {
        true
    }

    open spec fn add_spec(self, rhs: Self) -> Self {
        spec_combine(self, rhs)
    }
}

impl Add for ConcreteScalarType {
    type Output = Self;

    fn add(self, rhs: Self) -> (r: Self)
        ensures
            r == spec_combine(self, rhs),
    {
        match self {
            ConcreteScalarType::Bool => rhs,
            ConcreteScalarType::Int => match rhs {
                ConcreteScalarType::Float => ConcreteScalarType::Float,
                _ => ConcreteScalarType::Int,
            },
            ConcreteScalarType::Float => ConcreteScalarType::Float,
        }
    }
}

/// Combining scalar types picks the one of higher rank, so it is
/// commutative and associative, `Bool` is its identity and combining a type
/// with itself gives that type.
pub proof fn lemma_combine_laws(a: ConcreteScalarType, b: ConcreteScalarType, c: ConcreteScalarType)
    ensures
        scalar_rank(spec_combine(a, b)) == if scalar_rank(a) >= scalar_rank(b) {
            scalar_rank(a)
        } else {
            scalar_rank(b)
        },
        spec_combine(a, b) == spec_combine(b, a),
        spec_combine(spec_combine(a, b), c) == spec_combine(a, spec_combine(b, c)),
        spec_combine(ConcreteScalarType::Bool, a) == a,
        spec_combine(a, ConcreteScalarType::Bool) == a,
        spec_combine(a, a) == a,
{
}

/// A compiled program: the types of its inputs and the values of its
/// outputs.
#[derive(Debug)]
pub struct ConcreteProgram {
    inputs: Vec<ConcreteType>,
    outputs: Vec<ConcreteMultiValue>,
}

#[derive(Clone, Copy, Debug, PartialEq, Eq, Structural)]
pub enum UnaryOp {
    IntToFloat,
    BoolToInt,
    BoolToFloat,
    Not,
    Noop,
}

#[derive(Clone, Copy, Debug, PartialEq, Eq, Structural)]
pub enum BinaryOp {
    Add,
    Sub,
    Mul,
    Div,
    Rem,
    Gt,
    Lt,
    Gte,
    Lte,
    Eq,
    Neq,
    And,
    Or,
    Xor,
}

/// A shared handle to a value; cloning the handle shares the value.
#[derive(Debug)]
pub struct ConcreteValuePtr(pub Rc<ConcreteValue>);

/// `Rc::clone`: hands out another pointer to the same allocation, so the
/// value seen through it is the same.
#[verifier::external_body]
fn rc_share(p: &Rc<ConcreteValue>) -> (r: Rc<ConcreteValue>)
    ensures
        r == *p,
{
    Rc::clone(p)
}

impl ConcreteValuePtr {
    pub fn new(value: ConcreteValue) -> (r: Self)
        ensures
            *r.0 == value,
    {
        ConcreteValuePtr(Rc::new(value))
    }

    /// Another handle to the same value.
    pub fn ptr_clone(&self) -> (r: Self)
        ensures
            r == *self,
    {
        ConcreteValuePtr(rc_share(&self.0))
    }
}

impl Deref for ConcreteValuePtr {
    type Target = ConcreteValue;

    fn deref(&self) -> (r: &ConcreteValue)
        ensures
            *r == *self.0,
    {
        &*self.0
    }
}

/// How many scalar positions a component of a multi-value covers: eight
/// for a vector, one for a scalar.
pub open spec fn component_width(c: ConcreteValuePtr) -> int {
    if spec_is_vector(*c.0) {
        8
    } else {
        1
    }
}

/// The component (and the offset inside it) that holds scalar position
/// `position`, searching from component `start` on; `None` when the
/// position lies past the last component.
pub open spec fn locate(cs: Seq<ConcreteValuePtr>, start: int, position: int) -> Option<(int, int)>
    decreases cs.len() - start,
{
    if start < 0 || start >= cs.len() {
        None
    } else if position < component_width(cs[start]) {
        Some((start, position))
    } else {
        locate(cs, start + 1, position - component_width(cs[start]))
    }
}

/// `r` is the scalar at `position`: the component itself if it is a
/// scalar, or the lane of the vector that covers it.
pub open spec fn scalar_at(cs: Seq<ConcreteValuePtr>, position: int, r: ConcreteValuePtr) -> bool {
    let (i, offset) = locate(cs, 0, position)->0;
    let c = cs[i];
    if spec_is_vector(*c.0) {
        *r.0 == ConcreteValue::Unvectorize(c, offset as u8)
    } else {
        r == c
    }
}

/// The vector that starts exactly at `position`, if one does.
pub open spec fn vector_at(cs: Seq<ConcreteValuePtr>, position: int) -> Option<ConcreteValuePtr> {
    let (i, offset) = locate(cs, 0, position)->0;
    let c = cs[i];
    if spec_is_vector(*c.0) && offset == 0 {
        Some(c)
    } else {
        None
    }
}

/// A value of some concrete type, stored as a run of scalar and 8-wide
/// vector components covering its scalars in order.
#[derive(Debug)]
pub struct ConcreteMultiValue {
    typee: ConcreteType,
    components: Vec<ConcreteValuePtr>,
}

impl ConcreteMultiValue {
    pub closed spec fn spec_components(&self) -> Seq<ConcreteValuePtr> {
        self.components@
    }

    /// The scalar at `position`: the component itself if it is a scalar,
    /// or the lane of the vector that covers it.
    pub fn get_scalar(&self, position: usize) -> (r: ConcreteValuePtr)
        requires
            locate(self.spec_components(), 0, position as int) is Some,
        ensures
            scalar_at(self.spec_components(), position as int, r),
    {
        let mut remaining = position;
        let mut k: usize = 0;
        let count = self.components.len();
        loop
            invariant
                count == self.components@.len(),
                locate(self.components@, k as int, remaining as int) == locate(
                    self.components@,
                    0,
                    position as int,
                ),
                locate(self.components@, 0, position as int) is Some,
                k < self.components@.len(),
            decreases self.components@.len() - k,
        {
            let component = &self.components[k];
            if component.0.is_scalar() {
                if remaining == 0 {
                    return component.ptr_clone();
                }
                remaining = remaining - 1;
            } else {
                if remaining < 8 {
                    return ConcreteValuePtr::new(
                        ConcreteValue::Unvectorize(component.ptr_clone(), remaining as u8),
                    );
                }
                remaining = remaining - 8;
            }
            k = k + 1;
        }
    }

    /// The vector that starts exactly at `position`, if one does.
    pub fn get_vector(&self, position: usize) -> (r: Option<ConcreteValuePtr>)
        requires
            locate(self.spec_components(), 0, position as int) is Some,
        ensures
            r == vector_at(self.spec_components(), position as int),
    {
        let mut remaining = position;
        let mut k: usize = 0;
        let count = self.components.len();
        loop
            invariant
                count == self.components@.len(),
                locate(self.components@, k as int, remaining as int) == locate(
                    self.components@,
                    0,
                    position as int,
                ),
                locate(self.components@, 0, position as int) is Some,
                k < self.components@.len(),
            decreases self.components@.len() - k,
        {
            let component = &self.components[k];
            if component.0.is_scalar() {
                if remaining == 0 {
                    return None;
                }
                remaining = remaining - 1;
            } else {
                if remaining == 0 {
                    return Some(component.ptr_clone());
                } else if remaining < 8 {
                    return None;
                }
                remaining = remaining - 8;
            }
            k = k + 1;
        }
    }
}

/// Whether `cast` can convert a value of type `from` to type `to`: a type
/// converts to itself, and a narrower type to a wider one.
pub open spec fn can_cast(from: ConcreteScalarType, to: ConcreteScalarType) -> bool {
    from == to || (from == ConcreteScalarType::Bool && to != ConcreteScalarType::Bool) || (from
        == ConcreteScalarType::Int && to == ConcreteScalarType::Float)
}

/// The conversion operation applied by `cast`.
pub open spec fn cast_op(from: ConcreteScalarType, to: ConcreteScalarType) -> UnaryOp {
    match (from, to) {
        (ConcreteScalarType::Bool, ConcreteScalarType::Int) => UnaryOp::BoolToInt,
        (ConcreteScalarType::Bool, ConcreteScalarType::Float) => UnaryOp::BoolToFloat,
        _ => UnaryOp::IntToFloat,
    }
}

/// The type a unary operation takes and the type it gives, as its name
/// says (`Noop` has none of its own).
pub open spec fn unary_signature(op: UnaryOp) -> Option<(ConcreteScalarType, ConcreteScalarType)> {
    match op {
        UnaryOp::IntToFloat => Some((ConcreteScalarType::Int, ConcreteScalarType::Float)),
        UnaryOp::BoolToInt => Some((ConcreteScalarType::Bool, ConcreteScalarType::Int)),
        UnaryOp::BoolToFloat => Some((ConcreteScalarType::Bool, ConcreteScalarType::Float)),
        UnaryOp::Not => Some((ConcreteScalarType::Bool, ConcreteScalarType::Bool)),
        UnaryOp::Noop => None,
    }
}

/// Law: a cast between two different types converts with the operation
/// that takes the source type and gives the target type, so the value
/// keeps the type it is declared to have.
pub proof fn lemma_cast_op_converts(from: ConcreteScalarType, to: ConcreteScalarType)
    requires
        can_cast(from, to),
        from != to,
    ensures
        unary_signature(cast_op(from, to)) == Some((from, to)),
{
}

/// Converts `source` from type `from` to type `to`, leaving it as it is
/// when the types are the same.
fn cast(source: ConcreteValuePtr, from: ConcreteScalarType, to: ConcreteScalarType) -> (r:
    ConcreteValuePtr)
    requires
        can_cast(from, to),
    ensures
        from == to ==> r == source,
        from != to ==> *r.0 == ConcreteValue::UnaryOp(cast_op(from, to), source),
{
    match (from, to) {
        (ConcreteScalarType::Bool, ConcreteScalarType::Int) => {
            ConcreteValuePtr::new(ConcreteValue::UnaryOp(UnaryOp::BoolToInt, source))
        },
        (ConcreteScalarType::Bool, ConcreteScalarType::Float) => {
            ConcreteValuePtr::new(ConcreteValue::UnaryOp(UnaryOp::BoolToFloat, source))
        },
        (ConcreteScalarType::Int, ConcreteScalarType::Float) => {
            ConcreteValuePtr::new(ConcreteValue::UnaryOp(UnaryOp::IntToFloat, source))
        },
        _ => source,
    }
}

/// Returns true if the sequence follows a pattern like 5, 6, 7, 8: each
/// element is one more than the one before it.
pub fn sequence_monotonically_increases(sequence: &[usize]) -> (r: bool)
    requires
        sequence@.len() > 0,
    ensures
        r == forall|i: int|
            0 < i < sequence@.len() ==> #[trigger] sequence@[i] == sequence@[i - 1] + 1,
{
    let mut previous = sequence[0];
    let mut k: usize = 1;
    while k < sequence.len()
        invariant
            0 < k <= sequence@.len(),
            previous == sequence@[k - 1],
            forall|i: int| 0 < i < k ==> #[trigger] sequence@[i] == sequence@[i - 1] + 1,
        decreases sequence@.len() - k,
    {
        let element = sequence[k];
        if previous == usize::MAX || element != previous + 1 {
            return false;
        }
        previous = element;
        k = k + 1;
    }
    true
}

/// Returns true if all elements of the sequence are identical (so an
/// empty sequence is).
pub fn all_identical(sequence: &[usize]) -> (r: bool)
    ensures
        r == forall|i: int, j: int|
            0 <= i < sequence@.len() && 0 <= j < sequence@.len() ==> #[trigger] sequence@[i]
                == #[trigger] sequence@[j],
{
    if sequence.len() == 0 {
        return true;
    }
    let previous = sequence[0];
    let mut k: usize = 1;
    while k < sequence.len()
        invariant
            0 < k <= sequence@.len(),
            previous == sequence@[0],
            forall|i: int| 0 <= i < k ==> #[trigger] sequence@[i] == sequence@[0],
        decreases sequence@.len() - k,
    {
        if sequence[k] != previous {
            assert(sequence@[k as int] != sequence@[0]);
            return false;
        }
        k = k + 1;
    }
    assert forall|i: int, j: int|
        0 <= i < sequence@.len() && 0 <= j < sequence@.len() implies #[trigger] sequence@[i]
            == #[trigger] sequence@[j] by {
        assert(sequence@[i] == sequence@[0]);
        assert(sequence@[j] == sequence@[0]);
    }
    true
}

/// `r` is `source` converted from type `from` to type `to` by [`cast`].
pub open spec fn is_cast_of(
    r: ConcreteValuePtr,
    source: ConcreteValuePtr,
    from: ConcreteScalarType,
    to: ConcreteScalarType,
) -> bool {
    &&& from == to ==> r == source
    &&& from != to ==> *r.0 == ConcreteValue::UnaryOp(cast_op(from, to), source)
}

impl ConcreteMultiValue {
    pub closed spec fn spec_type(&self) -> ConcreteType {
        self.typee
    }
}

/// The value of input number `input`, of type `typee`: its scalars read as
/// 8-wide vectors as far as they go, then one by one.
pub fn solidify_input(input: usize, typee: &ConcreteType) -> (r: ConcreteMultiValue)
    requires
        strides_fit(typee.dims@),
    ensures
        r.spec_type().base == typee.base,
        r.spec_type().dims@ == typee.dims@,
        r.spec_components().len() == dims_product(typee.dims@) / 8 + dims_product(typee.dims@) % 8,
        forall|k: int|
            0 <= k < dims_product(typee.dims@) / 8 ==> *(#[trigger] r.spec_components()[k]).0
                == (ConcreteValue::InputVector { input, position: (8 * k) as usize }),
        forall|k: int|
            dims_product(typee.dims@) / 8 <= k < r.spec_components().len() ==> *(
            #[trigger] r.spec_components()[k]).0 == (ConcreteValue::InputScalar {
                input,
                position: (dims_product(typee.dims@) / 8 * 8 + (k - dims_product(typee.dims@) / 8)) as usize,
            }),
{
    let size = typee.size();
    let vector_components = size / 8;
    let scalar_components = size % 8;
    let mut components: Vec<ConcreteValuePtr> = Vec::new();
    let mut position: usize = 0;
    while position < vector_components
        invariant
            position <= vector_components,
            vector_components == size / 8,
            components@.len() == position,
            forall|k: int|
                0 <= k < position ==> *(#[trigger] components@[k]).0 == (ConcreteValue::InputVector {
                    input,
                    position: (8 * k) as usize,
                }),
        decreases vector_components - position,
    {
        components.push(ConcreteValuePtr::new(ConcreteValue::InputVector { input, position: position * 8 }));
        position = position + 1;
    }
    let mut position: usize = 0;
    while position < scalar_components
        invariant
            position <= scalar_components,
            scalar_components == size % 8,
            vector_components == size / 8,
            components@.len() == vector_components + position,
            forall|k: int|
                0 <= k < vector_components ==> *(#[trigger] components@[k]).0 == (ConcreteValue::InputVector {
                    input,
                    position: (8 * k) as usize,
                }),
            forall|k: int|
                vector_components <= k < vector_components + position ==> *(
                #[trigger] components@[k]).0 == (ConcreteValue::InputScalar {
                    input,
                    position: (vector_components * 8 + (k - vector_components)) as usize,
                }),
        decreases scalar_components - position,
    {
        components.push(
            ConcreteValuePtr::new(
                ConcreteValue::InputScalar { input, position: vector_components * 8 + position },
            ),
        );
        position = position + 1;
    }
    ConcreteMultiValue { typee: typee.duplicate(), components }
}

/// The value of `rhs` (of type `rhs_type`) converted to the base type of
/// `new_type`. Its dimensions stay those of `rhs`: they are broadcast only
/// when an operation needs it.
pub fn solidify_cast(rhs: &ConcreteMultiValue, rhs_type: &ConcreteType, new_type: &ConcreteType) -> (r:
    ConcreteMultiValue)
    requires
        can_cast(rhs_type.base, new_type.base),
    ensures
        r.spec_type().base == new_type.base,
        r.spec_type().dims@ == rhs_type.dims@,
        r.spec_components().len() == rhs.spec_components().len(),
        forall|k: int|
            0 <= k < r.spec_components().len() ==> is_cast_of(
                #[trigger] r.spec_components()[k],
                rhs.spec_components()[k],
                rhs_type.base,
                new_type.base,
            ),
{
    let mut components: Vec<ConcreteValuePtr> = Vec::new();
    let mut k: usize = 0;
    while k < rhs.components.len()
        invariant
            k <= rhs.components@.len(),
            can_cast(rhs_type.base, new_type.base),
            components@.len() == k,
            forall|j: int|
                0 <= j < k ==> is_cast_of(
                    #[trigger] components@[j],
                    rhs.components@[j],
                    rhs_type.base,
                    new_type.base,
                ),
        decreases rhs.components@.len() - k,
    {
        components.push(cast(rhs.components[k].ptr_clone(), rhs_type.base, new_type.base));
        k = k + 1;
    }
    ConcreteMultiValue {
        typee: ConcreteType { base: new_type.base, dims: rhs_type.duplicate().dims },
        components,
    }
}

/// The type the items of an array literal are converted to: the
/// combination of all their types (`Bool` for no items).
pub open spec fn literal_type(items: Seq<ConcreteMultiValue>) -> ConcreteScalarType
    decreases items.len(),
{
    if items.len() == 0 {
        ConcreteScalarType::Bool
    } else {
        spec_combine(literal_type(items.drop_last()), items.last().spec_type().base)
    }
}

/// Every item's type converts to the type of the whole literal.
proof fn lemma_items_cast_to_literal_type(items: Seq<ConcreteMultiValue>, i: int)
    requires
        0 <= i < items.len(),
    ensures
        can_cast(items[i].spec_type().base, literal_type(items)),
        scalar_rank(items[i].spec_type().base) <= scalar_rank(literal_type(items)),
    decreases items.len(),
{
    if i < items.len() - 1 {
        lemma_items_cast_to_literal_type(items.drop_last(), i);
    }
}

/// The item of an array literal is a single scalar.
pub open spec fn is_scalar_item(item: ConcreteMultiValue) -> bool {
    item.spec_components().len() == 1 && !spec_is_vector(*item.spec_components()[0].0)
}

/// The value of an array literal with the given dimensions, from the values
/// of its items: every item converted to the literal's type, packed into
/// 8-wide vectors as far as they go, the rest left as scalars.
pub fn solidify_array_literal(items: &[ConcreteMultiValue], dims: &[i64]) -> (r: ConcreteMultiValue)
    requires
        forall|i: int| 0 <= i < dims@.len() ==> #[trigger] dims@[i] >= 1,
        forall|i: int| 0 <= i < items@.len() ==> is_scalar_item(#[trigger] items@[i]),
    ensures
        r.spec_type().base == literal_type(items@),
        r.spec_type().dims@.len() == dims@.len(),
        forall|i: int| 0 <= i < dims@.len() ==> #[trigger] r.spec_type().dims@[i] == dims@[i] as usize,
        r.spec_components().len() == items@.len() / 8 + items@.len() % 8,
        forall|k: int|
            0 <= k < items@.len() / 8 ==> match *(#[trigger] r.spec_components()[k]).0 {
                ConcreteValue::Vectorize(lanes) => forall|j: int|
                    0 <= j < 8 ==> is_cast_of(
                        #[trigger] lanes@[j],
                        items@[8 * k + j].spec_components()[0],
                        items@[8 * k + j].spec_type().base,
                        literal_type(items@),
                    ),
                _ => false,
            },
        forall|k: int|
            items@.len() / 8 <= k < r.spec_components().len() ==> is_cast_of(
                #[trigger] r.spec_components()[k],
                items@[items@.len() / 8 * 8 + (k - items@.len() / 8)].spec_components()[0],
                items@[items@.len() / 8 * 8 + (k - items@.len() / 8)].spec_type().base,
                literal_type(items@),
            ),
{
    let mut new_dims: Vec<usize> = Vec::new();
    let mut d: usize = 0;
    while d < dims.len()
        invariant
            d <= dims@.len(),
            forall|i: int| 0 <= i < dims@.len() ==> #[trigger] dims@[i] >= 1,
            new_dims@.len() == d,
            forall|i: int| 0 <= i < d ==> #[trigger] new_dims@[i] == dims@[i] as usize,
        decreases dims@.len() - d,
    {
        new_dims.push(dims[d] as usize);
        d = d + 1;
    }
    let num_items = items.len();
    let mut element_type = ConcreteScalarType::Bool;
    let mut i: usize = 0;
    while i < num_items
        invariant
            i <= num_items,
            num_items == items@.len(),
            element_type == literal_type(items@.take(i as int)),
        decreases num_items - i,
    {
        assert(items@.take(i + 1).drop_last() =~= items@.take(i as int));
        element_type = element_type + items[i].typee.base;
        i = i + 1;
    }
    assert(items@.take(num_items as int) =~= items@);
    let mut components: Vec<ConcreteValuePtr> = Vec::new();
    let groups = num_items / 8;
    let mut group: usize = 0;
    while group < groups
        invariant
            group <= groups,
            groups == num_items / 8,
            num_items == items@.len(),
            element_type == literal_type(items@),
            forall|i: int| 0 <= i < items@.len() ==> is_scalar_item(#[trigger] items@[i]),
            components@.len() == group,
            forall|k: int|
                0 <= k < group ==> match *(#[trigger] components@[k]).0 {
                    ConcreteValue::Vectorize(lanes) => forall|j: int|
                        0 <= j < 8 ==> is_cast_of(
                            #[trigger] lanes@[j],
                            items@[8 * k + j].spec_components()[0],
                            items@[8 * k + j].spec_type().base,
                            literal_type(items@),
                        ),
                    _ => false,
                },
        decreases groups - group,
    {
        let start = 8 * group;
        let lanes = [
            convert_item(items, start, element_type),
            convert_item(items, start + 1, element_type),
            convert_item(items, start + 2, element_type),
            convert_item(items, start + 3, element_type),
            convert_item(items, start + 4, element_type),
            convert_item(items, start + 5, element_type),
            convert_item(items, start + 6, element_type),
            convert_item(items, start + 7, element_type),
        ];
        components.push(ConcreteValuePtr::new(ConcreteValue::Vectorize(lanes)));
        group = group + 1;
    }
    let first_scalar = groups * 8;
    let mut index = first_scalar;
    while index < num_items
        invariant
            first_scalar <= index <= num_items,
            first_scalar == groups * 8,
            groups == num_items / 8,
            num_items == items@.len(),
            element_type == literal_type(items@),
            forall|i: int| 0 <= i < items@.len() ==> is_scalar_item(#[trigger] items@[i]),
            components@.len() == groups + (index - first_scalar),
            forall|k: int|
                0 <= k < groups ==> match *(#[trigger] components@[k]).0 {
                    ConcreteValue::Vectorize(lanes) => forall|j: int|
                        0 <= j < 8 ==> is_cast_of(
                            #[trigger] lanes@[j],
                            items@[8 * k + j].spec_components()[0],
                            items@[8 * k + j].spec_type().base,
                            literal_type(items@),
                        ),
                    _ => false,
                },
            forall|k: int|
                groups <= k < components@.len() ==> is_cast_of(
                    #[trigger] components@[k],
                    items@[first_scalar + (k - groups)].spec_components()[0],
                    items@[first_scalar + (k - groups)].spec_type().base,
                    literal_type(items@),
                ),
        decreases num_items - index,
    {
        components.push(convert_item(items, index, element_type));
        index = index + 1;
    }
    ConcreteMultiValue { typee: ConcreteType { base: element_type, dims: new_dims }, components }
}

/// Item `index` of an array literal, converted to the literal's type.
fn convert_item(items: &[ConcreteMultiValue], index: usize, element_type: ConcreteScalarType) -> (r:
    ConcreteValuePtr)
    requires
        index < items@.len(),
        element_type == literal_type(items@),
        is_scalar_item(items@[index as int]),
    ensures
        is_cast_of(
            r,
            items@[index as int].spec_components()[0],
            items@[index as int].spec_type().base,
            element_type,
        ),
{
    proof {
        lemma_items_cast_to_literal_type(items@, index as int);
    }
    let item = &items[index];
    cast(item.components[0].ptr_clone(), item.typee.base, element_type)
}

/// The scalar type of a literal value.
pub open spec fn literal_base(value: ConcreteValue) -> ConcreteScalarType {
    match value {
        ConcreteValue::IntLiteral(..) => ConcreteScalarType::Int,
        ConcreteValue::FloatLiteral(..) => ConcreteScalarType::Float,
        _ => ConcreteScalarType::Bool,
    }
}

/// The value of a literal: a scalar of the literal's type, held in a single
/// component.
pub fn solidify_literal(value: ConcreteValue) -> (r: ConcreteMultiValue)
    requires
        value is IntLiteral || value is FloatLiteral || value is BoolLiteral,
    ensures
        r.spec_type().base == literal_base(value),
        r.spec_type().dims@.len() == 0,
        r.spec_components().len() == 1,
        *r.spec_components()[0].0 == value,
{
    let base = match value {
        ConcreteValue::IntLiteral(..) => ConcreteScalarType::Int,
        ConcreteValue::FloatLiteral(..) => ConcreteScalarType::Float,
        _ => ConcreteScalarType::Bool,
    };
    let mut components: Vec<ConcreteValuePtr> = Vec::new();
    components.push(ConcreteValuePtr::new(value));
    ConcreteMultiValue { typee: ConcreteType { base, dims: Vec::new() }, components }
}

/// Index number `k`, outermost dimension first, of an array whose
/// dimensions are `dims` (innermost first), counting with the innermost
/// index fastest.
pub open spec fn result_index(dims: Seq<usize>, k: int) -> Seq<usize> {
    Seq::new(
        dims.len(),
        |j: int|
            ((k / (dims_product(dims.take(dims.len() - 1 - j)) as int)) % (dims[dims.len() - 1
                - j] as int)) as usize,
    )
}

/// Where element `k` of the result lies in an operand with dimensions
/// `operand`, broadcasting its dimensions of size 1.
pub open spec fn operand_position(operand: Seq<usize>, result: Seq<usize>, k: int) -> int {
    flatten_prefix(operand, result_index(result, k), operand.len() as int)
}

/// The positions in an operand of the eight elements of chunk `c` of the
/// result.
pub open spec fn operand_chunk(operand: Seq<usize>, result: Seq<usize>, c: int) -> Seq<int> {
    Seq::new(8, |j: int| operand_position(operand, result, 8 * c + j))
}

/// The positions follow each other: 5, 6, 7, 8, ...
pub open spec fn consecutive(p: Seq<int>) -> bool {
    forall|j: int| 0 < j < p.len() ==> #[trigger] p[j] == p[j - 1] + 1
}

/// The positions are all the same.
pub open spec fn identical(p: Seq<int>) -> bool {
    forall|j: int| 0 <= j < p.len() ==> #[trigger] p[j] == p[0]
}

/// The operand can be read as one vector at these eight positions: they
/// are consecutive and a vector starts at the first, or they are all the
/// same scalar.
pub open spec fn chunk_vectorizable(v: ConcreteMultiValue, p: Seq<int>) -> bool {
    &&& locate(v.spec_components(), 0, p[0]) is Some
    &&& consecutive(p) ==> vector_at(v.spec_components(), p[0]) is Some
    &&& !consecutive(p) ==> identical(p)
}

/// `r` is the vector read from the operand at these eight positions: the
/// vector that starts there, or the scalar there duplicated into every lane.
pub open spec fn chunk_vector(v: ConcreteMultiValue, p: Seq<int>, r: ConcreteValuePtr) -> bool {
    if consecutive(p) {
        vector_at(v.spec_components(), p[0]) == Some(r)
    } else {
        &&& *r.0 is VectorizeByDuplication
        &&& scalar_at(v.spec_components(), p[0], (*r.0)->VectorizeByDuplication_0)
    }
}

/// A product of dimensions is positive exactly when every dimension is.
proof fn lemma_product_positive(dims: Seq<usize>)
    ensures
        dims_product(dims) > 0 <==> forall|i: int| 0 <= i < dims.len() ==> #[trigger] dims[i] > 0,
    decreases dims.len(),
{
    if dims.len() > 0 {
        let rest = dims.drop_last();
        lemma_product_positive(rest);
        let p = dims_product(rest);
        let d = dims.last() as nat;
        assert(p * d > 0 <==> p > 0 && d > 0) by (nonlinear_arith);
        if forall|i: int| 0 <= i < dims.len() ==> #[trigger] dims[i] > 0 {
            assert forall|i: int| 0 <= i < rest.len() implies #[trigger] rest[i] > 0 by {
                assert(rest[i] == dims[i]);
            }
        }
        if !(forall|i: int| 0 <= i < dims.len() ==> #[trigger] dims[i] > 0) {
            let i = choose|i: int| 0 <= i < dims.len() && !(#[trigger] dims[i] > 0);
            if i < rest.len() {
                assert(rest[i] == dims[i]);
            }
        }
    }
}

/// Where each element of the result lies in an operand.
fn operand_positions(operand: &ConcreteType, result: &Vec<usize>) -> (r: Vec<usize>)
    requires
        strides_fit(result@),
        strides_fit(operand.dims@),
        forall|k: int|
            0 <= k < dims_product(result@) ==> index_in_range(
                operand.dims@,
                #[trigger] result_index(result@, k),
            ),
    ensures
        r@.len() == dims_product(result@),
        forall|k: int|
            0 <= k < r@.len() ==> #[trigger] r@[k] == operand_position(operand.dims@, result@, k),
{
    let n = result.len();
    let mut strides: Vec<usize> = Vec::new();
    let mut stride: usize = 1;
    let mut d: usize = 0;
    assert(result@.take(0) =~= Seq::<usize>::empty());
    while d < n
        invariant
            d <= n,
            n == result@.len(),
            strides_fit(result@),
            stride == dims_product(result@.take(d as int)),
            strides@.len() == d,
            forall|i: int| 0 <= i < d ==> #[trigger] strides@[i] == dims_product(result@.take(i)),
        decreases n - d,
    {
        strides.push(stride);
        assert(result@.take(d + 1).drop_last() =~= result@.take(d as int));
        assert(dims_product(result@.take(d + 1)) <= usize::MAX);
        stride = stride * result[d];
        d = d + 1;
    }
    assert(result@.take(n as int) =~= result@);
    let total = stride;
    proof {
        lemma_product_positive(result@);
    }
    let mut positions: Vec<usize> = Vec::new();
    let mut k: usize = 0;
    while k < total
        invariant
            k <= total,
            total == dims_product(result@),
            n == result@.len(),
            strides@.len() == n,
            forall|i: int| 0 <= i < n ==> #[trigger] strides@[i] == dims_product(result@.take(i)),
            total > 0 ==> forall|i: int| 0 <= i < n ==> #[trigger] result@[i] > 0,
            strides_fit(operand.dims@),
            forall|k: int|
                0 <= k < dims_product(result@) ==> index_in_range(
                    operand.dims@,
                    #[trigger] result_index(result@, k),
                ),
            positions@.len() == k,
            forall|i: int|
                0 <= i < k ==> #[trigger] positions@[i] == operand_position(operand.dims@, result@, i),
        decreases total - k,
    {
        let mut index: Vec<usize> = Vec::new();
        let mut j: usize = 0;
        while j < n
            invariant
                j <= n,
                k < total,
                total == dims_product(result@),
                n == result@.len(),
                strides@.len() == n,
                forall|i: int| 0 <= i < n ==> #[trigger] strides@[i] == dims_product(result@.take(i)),
                forall|i: int| 0 <= i < n ==> #[trigger] result@[i] > 0,
                index@.len() == j,
                forall|i: int| 0 <= i < j ==> #[trigger] index@[i] == result_index(result@, k as int)[i],
            decreases n - j,
        {
            let dim = n - 1 - j;
            assert(result@[dim as int] > 0);
            proof {
                lemma_product_positive(result@.take(dim as int));
                assert forall|i: int| 0 <= i < result@.take(dim as int).len() implies #[trigger] result@.take(
                    dim as int,
                )[i] > 0 by {
                    assert(result@.take(dim as int)[i] == result@[i]);
                }
            }
            index.push((k / strides[dim]) % result[dim]);
            j = j + 1;
        }
        assert(index@ =~= result_index(result@, k as int));
        let position = operand.flatten_index(index.as_slice());
        positions.push(position);
        k = k + 1;
    }
    positions
}

/// The value of a binary operation on two operands, eight elements at a
/// time: each operand is read as a vector (or a scalar duplicated into
/// one), and the operation is applied to the two vectors.
pub fn solidify_binary_operation(
    op: BinaryOp,
    lhs: &ConcreteMultiValue,
    rhs: &ConcreteMultiValue,
    result_type: ConcreteType,
) -> (r: ConcreteMultiValue)
    requires
        strides_fit(result_type.dims@),
        strides_fit(lhs.spec_type().dims@),
        strides_fit(rhs.spec_type().dims@),
        forall|k: int|
            0 <= k < dims_product(result_type.dims@) ==> index_in_range(
                lhs.spec_type().dims@,
                #[trigger] result_index(result_type.dims@, k),
            ) && index_in_range(rhs.spec_type().dims@, result_index(result_type.dims@, k)),
        dims_product(result_type.dims@) % 8 == 0,
        forall|c: int|
            0 <= c < dims_product(result_type.dims@) / 8 ==> chunk_vectorizable(
                *lhs,
                #[trigger] operand_chunk(lhs.spec_type().dims@, result_type.dims@, c),
            ) && chunk_vectorizable(
                *rhs,
                operand_chunk(rhs.spec_type().dims@, result_type.dims@, c),
            ),
    ensures
        r.spec_type() == result_type,
        r.spec_components().len() == dims_product(result_type.dims@) / 8,
        forall|c: int|
            0 <= c < r.spec_components().len() ==> {
                let v = *(#[trigger] r.spec_components()[c]).0;
                &&& v is BinaryOp
                &&& v->BinaryOp_0 == op
                &&& chunk_vector(*lhs, operand_chunk(lhs.spec_type().dims@, result_type.dims@, c), v->BinaryOp_1)
                &&& chunk_vector(*rhs, operand_chunk(rhs.spec_type().dims@, result_type.dims@, c), v->BinaryOp_2)
            },
{
    let lhs_indexes = operand_positions(&lhs.typee, &result_type.dims);
    let rhs_indexes = operand_positions(&rhs.typee, &result_type.dims);
    let count = lhs_indexes.len();
    let mut next_index: usize = 0;
    let mut components: Vec<ConcreteValuePtr> = Vec::new();
    while next_index < count
        invariant
            count == lhs_indexes@.len(),
            count == rhs_indexes@.len(),
            count == dims_product(result_type.dims@),
            count % 8 == 0,
            next_index % 8 == 0,
            next_index <= count,
            components@.len() == next_index / 8,
            forall|k: int|
                0 <= k < count ==> #[trigger] lhs_indexes@[k] == operand_position(
                    lhs.spec_type().dims@,
                    result_type.dims@,
                    k,
                ),
            forall|k: int|
                0 <= k < count ==> #[trigger] rhs_indexes@[k] == operand_position(
                    rhs.spec_type().dims@,
                    result_type.dims@,
                    k,
                ),
            forall|c: int|
                0 <= c < count / 8 ==> chunk_vectorizable(
                    *lhs,
                    #[trigger] operand_chunk(lhs.spec_type().dims@, result_type.dims@, c),
                ) && chunk_vectorizable(
                    *rhs,
                    operand_chunk(rhs.spec_type().dims@, result_type.dims@, c),
                ),
            forall|c: int|
                0 <= c < components@.len() ==> {
                    let v = *(#[trigger] components@[c]).0;
                    &&& v is BinaryOp
                    &&& v->BinaryOp_0 == op
                    &&& chunk_vector(*lhs, operand_chunk(lhs.spec_type().dims@, result_type.dims@, c), v->BinaryOp_1)
                    &&& chunk_vector(*rhs, operand_chunk(rhs.spec_type().dims@, result_type.dims@, c), v->BinaryOp_2)
                },
        decreases count - next_index,
    {
        let ghost c = next_index / 8;
        let ghost lhs_chunk_spec = operand_chunk(lhs.spec_type().dims@, result_type.dims@, c as int);
        let ghost rhs_chunk_spec = operand_chunk(rhs.spec_type().dims@, result_type.dims@, c as int);
        assert(chunk_vectorizable(*lhs, lhs_chunk_spec) && chunk_vectorizable(*rhs, rhs_chunk_spec));
        if count - next_index >= 8 {
            let lhs_chunk = chunk_of(&lhs_indexes, next_index);
            let rhs_chunk = chunk_of(&rhs_indexes, next_index);
            proof {
                assert forall|j: int| 0 <= j < 8 implies #[trigger] lhs_chunk@[j] == lhs_chunk_spec[j] by {
                    assert(lhs_indexes@[next_index + j] == operand_position(lhs.spec_type().dims@, result_type.dims@, next_index + j));
                    assert(8 * c + j == next_index + j);
                }
                assert forall|j: int| 0 <= j < 8 implies #[trigger] rhs_chunk@[j] == rhs_chunk_spec[j] by {
                    assert(rhs_indexes@[next_index + j] == operand_position(rhs.spec_type().dims@, result_type.dims@, next_index + j));
                    assert(8 * c + j == next_index + j);
                }
            }
            let lhs_vector = operand_vector(lhs, &lhs_chunk, Ghost(lhs_chunk_spec));
            let rhs_vector = operand_vector(rhs, &rhs_chunk, Ghost(rhs_chunk_spec));
            if let (Some(lhs_vector), Some(rhs_vector)) = (lhs_vector, rhs_vector) {
                components.push(ConcreteValuePtr::new(ConcreteValue::BinaryOp(op, lhs_vector, rhs_vector)));
                next_index = next_index + 8;
                continue;
            }
        }
        proof {
            assert(false);
        }
    }
    ConcreteMultiValue { components, typee: result_type }
}

/// The eight positions starting at `start`.
fn chunk_of(indexes: &Vec<usize>, start: usize) -> (r: Vec<usize>)
    requires
        start + 8 <= indexes@.len(),
    ensures
        r@.len() == 8,
        forall|j: int| 0 <= j < 8 ==> #[trigger] r@[j] == indexes@[start + j],
{
    let mut chunk: Vec<usize> = Vec::new();
    let mut j: usize = 0;
    let len = indexes.len();
    while j < 8
        invariant
            j <= 8,
            len == indexes@.len(),
            start + 8 <= indexes@.len(),
            chunk@.len() == j,
            forall|i: int| 0 <= i < j ==> #[trigger] chunk@[i] == indexes@[start + i],
        decreases 8 - j,
    {
        chunk.push(indexes[start + j]);
        j = j + 1;
    }
    chunk
}

/// An operand read as one vector at eight positions, if it can be.
fn operand_vector(v: &ConcreteMultiValue, chunk: &Vec<usize>, Ghost(p): Ghost<Seq<int>>) -> (r: Option<ConcreteValuePtr>)
    requires
        chunk@.len() == 8,
        p.len() == 8,
        forall|j: int| 0 <= j < 8 ==> #[trigger] chunk@[j] == p[j],
        chunk_vectorizable(*v, p),
    ensures
        r matches Some(vector) && chunk_vector(*v, p, vector),
{
    if sequence_monotonically_increases(chunk.as_slice()) {
        assert(consecutive(p)) by {
            assert forall|j: int| 0 < j < p.len() implies #[trigger] p[j] == p[j - 1] + 1 by {
                assert(chunk@[j] == chunk@[j - 1] + 1);
            }
        }
        v.get_vector(chunk[0])
    } else if all_identical(chunk.as_slice()) {
        assert(!consecutive(p)) by {
            if consecutive(p) {
                assert forall|i: int| 0 < i < chunk@.len() implies #[trigger] chunk@[i] == chunk@[i - 1] + 1 by {
                    assert(p[i] == p[i - 1] + 1);
                }
            }
        }
        let scalar = v.get_scalar(chunk[0]);
        Some(ConcreteValuePtr::new(ConcreteValue::VectorizeByDuplication(scalar)))
    } else {
        proof {
            if !consecutive(p) {
                assert(identical(p));
                assert forall|i: int| 0 <= i < chunk@.len() implies #[trigger] chunk@[i] == chunk@[0] by {
                    assert(p[i] == p[0]);
                }
            } else {
                assert forall|i: int| 0 < i < chunk@.len() implies #[trigger] chunk@[i] == chunk@[i - 1] + 1 by {
                    assert(p[i] == p[i - 1] + 1);
                }
            }
        }
        None
    }
}

} // verus!
