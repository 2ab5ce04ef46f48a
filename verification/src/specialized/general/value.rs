//! Operands of specialized instructions.
use vstd::prelude::*;

use super::program::{GenericProgram, Instruction, VariableId};
use crate::shared::{NativeData, NativeType, ProxyMode};

verus! {

/// An index into an array variable.
#[derive(Clone, Copy, Debug, PartialEq, Eq, Structural)]
pub enum Index {
    Constant(usize),
    Variable(VariableId),
}

/// An operand: a constant, or (an element of) a variable.
#[derive(Clone, Debug)]
pub enum Value {
    Literal(NativeData),
    VariableAccess { variable: VariableId, proxy: Vec<ProxyMode>, indexes: Vec<Index> },
}

/// The variable an operand reads or writes, if it names one.
pub open spec fn accessed_variable(value: Value) -> Option<VariableId> {
    match value {
        Value::VariableAccess { variable, .. } => Some(variable),
        Value::Literal(..) => None,
    }
}

/// The index a proxy-free access gains from indexing it further: every
/// new index is kept as a constant.
pub open spec fn constant_indexes(indices: Seq<usize>) -> Seq<Index> {
    Seq::new(indices.len(), |i: int| Index::Constant(indices[i]))
}

/// The indexes that indexing through a proxy adds, dimension by dimension:
/// a kept dimension takes the index, a collapsed one index 0, a discarded
/// one nothing.
pub open spec fn proxied_indexes(proxy: Seq<ProxyMode>, indices: Seq<usize>) -> Seq<Index>
    decreases indices.len(),
{
    if indices.len() == 0 {
        seq![]
    } else {
        let before = proxied_indexes(proxy, indices.drop_last());
        let k = indices.len() - 1;
        match proxy[k] {
            ProxyMode::Keep => before.push(Index::Constant(indices[k])),
            ProxyMode::Discard => before,
            ProxyMode::Collapse => before.push(Index::Constant(0)),
        }
    }
}

impl Value {
    /// The type of the operand: a constant's own type, or the variable's type
    /// with one dimension removed per index.
    pub fn get_type<I: Instruction>(&self, program: &GenericProgram<I>) -> (r: NativeType)
        requires
            match *self {
                Value::Literal(..) => true,
                Value::VariableAccess { variable, indexes, .. } => {
                    &&& variable.0 < program.spec_variables().len()
                    &&& indexes@.len() <= program.spec_variables()[variable.0 as int].typ.dimensions@.len()
                },
            },
        ensures
            match *self {
                Value::Literal(data) => r.base == data.spec_base() && r.dimensions@.len() == 0,
                Value::VariableAccess { variable, indexes, .. } => {
                    let typ = program.spec_variables()[variable.0 as int].typ;
                    r.base == typ.base && r.dimensions@ == typ.dimensions@.skip(indexes@.len() as int)
                },
            },
    {
        match self {
            Value::Literal(data) => data.get_type(),
            Value::VariableAccess { variable, indexes, .. } => {
                let base_type = program.borrow_variable(*variable).borrow_type();
                base_type.clone_and_unwrap(indexes.len())
            },
        }
    }

    /// The proxy a variable access is seen through; constants have none.
    pub fn borrow_proxy(&self) -> (r: Option<&Vec<ProxyMode>>)
        ensures
            match *self {
                Value::Literal(..) => r is None,
                Value::VariableAccess { proxy, .. } => r is Some && r->0@ == proxy@,
            },
    {
        match self {
            Value::Literal(..) => None,
            Value::VariableAccess { proxy, .. } => Some(proxy),
        }
    }

    /// The element of this operand at `indices`. Indexing a scalar constant
    /// with no indices gives the constant back.
    pub fn access_element(&self, indices: &[usize]) -> (r: Value)
        requires
            match *self {
                Value::Literal(..) => indices@.len() == 0,
                Value::VariableAccess { proxy, .. } => proxy@.len() > 0 ==> indices@.len()
                    <= proxy@.len(),
            },
        ensures
            match *self {
                Value::Literal(data) => r == Value::Literal(data),
                Value::VariableAccess { variable, proxy, indexes } => match r {
                    Value::VariableAccess { variable: v, proxy: p, indexes: ix } => {
                        &&& v == variable
                        &&& proxy@.len() == 0 ==> p@.len() == 0 && ix@ == indexes@ + constant_indexes(indices@)
                        &&& proxy@.len() > 0 ==> p@ == proxy@.skip(indices@.len() as int) && ix@
                            == indexes@ + proxied_indexes(proxy@, indices@)
                    },
                    Value::Literal(..) => false,
                },
            },
    {
        match self {
            Value::Literal(data) => Value::Literal(*data),
            Value::VariableAccess { variable, proxy, indexes: self_indices } => {
                let mut new_indices: Vec<Index> = Vec::new();
                let mut i: usize = 0;
                while i < self_indices.len()
                    invariant
                        i <= self_indices@.len(),
                        new_indices@ == self_indices@.take(i as int),
                    decreases self_indices@.len() - i,
                {
                    new_indices.push(self_indices[i]);
                    i = i + 1;
                }
                assert(self_indices@.take(self_indices@.len() as int) =~= self_indices@);
                if proxy.len() == 0 {
                    let mut k: usize = 0;
                    while k < indices.len()
                        invariant
                            k <= indices@.len(),
                            new_indices@ == self_indices@ + constant_indexes(indices@.take(k as int)),
                        decreases indices@.len() - k,
                    {
                        new_indices.push(Index::Constant(indices[k]));
                        k = k + 1;
                        assert(constant_indexes(indices@.take(k as int)) =~= constant_indexes(
                            indices@.take(k - 1),
                        ).push(Index::Constant(indices@[k - 1])));
                    }
                    assert(indices@.take(indices@.len() as int) =~= indices@);
                    return Value::VariableAccess {
                        variable: *variable,
                        proxy: Vec::new(),
                        indexes: new_indices,
                    };
                }
                let mut k: usize = 0;
                while k < indices.len()
                    invariant
                        k <= indices@.len(),
                        indices@.len() <= proxy@.len(),
                        new_indices@ == self_indices@ + proxied_indexes(proxy@, indices@.take(k as int)),
                    decreases indices@.len() - k,
                {
                    assert(indices@.take(k + 1).drop_last() =~= indices@.take(k as int));
                    match proxy[k] {
                        ProxyMode::Keep => new_indices.push(Index::Constant(indices[k])),
                        ProxyMode::Discard => {},
                        ProxyMode::Collapse => new_indices.push(Index::Constant(0)),
                    }
                    k = k + 1;
                }
                assert(indices@.take(indices@.len() as int) =~= indices@);
                let mut rest: Vec<ProxyMode> = Vec::new();
                let mut j: usize = indices.len();
                while j < proxy.len()
                    invariant
                        indices@.len() <= j <= proxy@.len(),
                        rest@ == proxy@.subrange(indices@.len() as int, j as int),
                    decreases proxy@.len() - j,
                {
                    rest.push(proxy[j]);
                    j = j + 1;
                }
                Value::VariableAccess { variable: *variable, proxy: rest, indexes: new_indices }
            },
        }
    }
}

} // verus!
