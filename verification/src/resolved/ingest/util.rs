//! Rules the resolver applies to data types: finding the biggest common
//! type of two types and inflating an expression to a bigger type.
use vstd::prelude::*;

use super::data_type::{spec_base, spec_dims, spec_make_array, DataType};
use super::known_data::{
    contains_float, known_value, lemma_array_value, lemma_array_value_eq, BinaryOperator,
    KnownData, KnownValue,
};
use crate::resolved::structure as o;
use crate::shared::ProxyMode;
use vstd::arithmetic::power::pow;

verus! {

/// The biggest common type of two element types: an automatic type gives
/// way to the other one, equal types stay, anything else has none.
pub open spec fn spec_biggest_scalar(a: DataType, b: DataType) -> Option<DataType> {
    if a == DataType::Automatic {
        Some(b)
    } else if b == DataType::Automatic {
        Some(a)
    } else if a == b {
        Some(a)
    } else {
        None
    }
}

/// The size of dimension `i` when arrays with dimensions `a` and `b` are
/// combined: a missing dimension takes the other one's size, equal sizes
/// stay, and a size of 1 is stretched to the other size.
pub open spec fn broadcast_dim(a: Seq<usize>, b: Seq<usize>, i: int) -> Option<usize> {
    if i >= a.len() {
        Some(b[i])
    } else if i >= b.len() {
        Some(a[i])
    } else if a[i] == b[i] {
        Some(a[i])
    } else if a[i] == 1 {
        Some(b[i])
    } else if b[i] == 1 {
        Some(a[i])
    } else {
        None
    }
}

pub open spec fn max_len(a: Seq<usize>, b: Seq<usize>) -> nat {
    if a.len() >= b.len() {
        a.len()
    } else {
        b.len()
    }
}

/// The dimensions of the combination of two arrays, if they can be
/// combined.
pub open spec fn spec_broadcast(a: Seq<usize>, b: Seq<usize>) -> Option<Seq<usize>> {
    if forall|i: int| 0 <= i < max_len(a, b) ==> (#[trigger] broadcast_dim(a, b, i)) is Some {
        Some(Seq::new(max_len(a, b), |i: int| broadcast_dim(a, b, i)->Some_0))
    } else {
        None
    }
}

/// The biggest common type of two types (the BCT rules), if there is one.
pub open spec fn spec_biggest_type(a: DataType, b: DataType) -> Option<DataType> {
    if a == DataType::Automatic {
        Some(b)
    } else if b == DataType::Automatic {
        Some(a)
    } else if a == b {
        Some(a)
    } else if a is Array || b is Array {
        match spec_broadcast(spec_dims(a), spec_dims(b)) {
            Some(dims) => match spec_biggest_scalar(spec_base(a), spec_base(b)) {
                Some(base) => Some(spec_make_array(dims, base)),
                None => None,
            },
            None => None,
        }
    } else {
        None
    }
}

/// The biggest common type of two element types, or `Err` if they have
/// none.
pub fn biggest_scalar(a: &DataType, b: &DataType) -> (r: Result<DataType, ()>)
    ensures
        r is Ok <==> spec_biggest_scalar(*a, *b) is Some,
        r matches Ok(t) ==> t == spec_biggest_scalar(*a, *b)->Some_0,
{
    if let DataType::Automatic = a {
        Ok(b.duplicate())
    } else if let DataType::Automatic = b {
        Ok(a.duplicate())
    } else if a.same_as(b) {
        Ok(a.duplicate())
    } else {
        Err(())
    }
}

/// The biggest common type of two types, or `Err` if there is none.
pub fn biggest_type(a: &DataType, b: &DataType) -> (r: Result<DataType, ()>)
    ensures
        r is Ok <==> spec_biggest_type(*a, *b) is Some,
        r matches Ok(t) ==> t == spec_biggest_type(*a, *b)->Some_0,
{
    if let DataType::Automatic = a {
        return Ok(b.duplicate());
    }
    if let DataType::Automatic = b {
        return Ok(a.duplicate());
    }
    if a.same_as(b) {
        return Ok(a.duplicate());
    }
    let a_is_array = if let DataType::Array(..) = a { true } else { false };
    let b_is_array = if let DataType::Array(..) = b { true } else { false };
    if !(a_is_array || b_is_array) {
        return Err(());
    }
    let a_dims = a.collect_dims();
    let b_dims = b.collect_dims();
    let count = if a_dims.len() >= b_dims.len() { a_dims.len() } else { b_dims.len() };
    let mut final_dims: Vec<usize> = Vec::new();
    let mut index: usize = 0;
    while index < count
        invariant
            index <= count,
            count == max_len(a_dims@, b_dims@),
            a_dims@ == spec_dims(*a),
            b_dims@ == spec_dims(*b),
            *a != DataType::Automatic,
            *b != DataType::Automatic,
            *a != *b,
            *a is Array || *b is Array,
            final_dims@.len() == index,
            forall|k: int| 0 <= k < index ==> (#[trigger] broadcast_dim(a_dims@, b_dims@, k)) == Some(final_dims@[k]),
        decreases count - index,
    {
        let dim = if index >= a_dims.len() {
            b_dims[index]
        } else if index >= b_dims.len() {
            a_dims[index]
        } else if a_dims[index] == b_dims[index] {
            a_dims[index]
        } else if a_dims[index] == 1 {
            b_dims[index]
        } else if b_dims[index] == 1 {
            a_dims[index]
        } else {
            assert(broadcast_dim(a_dims@, b_dims@, index as int) is None);
            return Err(());
        };
        final_dims.push(dim);
        index = index + 1;
    }
    let ghost dims = spec_broadcast(a_dims@, b_dims@);
    assert(dims is Some);
    assert(final_dims@ =~= dims->Some_0);
    let base = match biggest_scalar(&a.base_type(), &b.base_type()) {
        Ok(base) => base,
        Err(()) => return Err(()),
    };
    Ok(DataType::make_array(final_dims.as_slice(), base))
}

/// Law: the biggest common type does not depend on the order of the two
/// types.
pub proof fn lemma_biggest_type_commutes(a: DataType, b: DataType)
    ensures
        spec_biggest_type(a, b) == spec_biggest_type(b, a),
{
    let da = spec_dims(a);
    let db = spec_dims(b);
    if spec_broadcast(da, db) is Some {
        assert forall|i: int| 0 <= i < max_len(db, da) implies (#[trigger] broadcast_dim(db, da, i)) is Some by {
            assert(broadcast_dim(da, db, i) is Some);
        }
        assert(spec_broadcast(da, db)->Some_0 =~= spec_broadcast(db, da)->Some_0);
    } else if spec_broadcast(db, da) is Some {
        assert forall|i: int| 0 <= i < max_len(da, db) implies (#[trigger] broadcast_dim(da, db, i)) is Some by {
            assert(broadcast_dim(db, da, i) is Some);
        }
    }
}

/// Law: the biggest common type of a type with itself is that type.
pub proof fn lemma_biggest_type_idempotent(a: DataType)
    ensures
        spec_biggest_type(a, a) == Some(a),
{
}

/// How dimension `i` of an expression is seen when it is inflated from
/// `from` to `to`: a missing dimension is added and discards its index, an
/// equal size is kept and a size of 1 is collapsed.
pub open spec fn inflate_mode(from: Seq<usize>, to: Seq<usize>, i: int) -> ProxyMode {
    if i >= from.len() {
        ProxyMode::Discard
    } else if to[i] == from[i] {
        ProxyMode::Keep
    } else {
        ProxyMode::Collapse
    }
}

/// A type with dimensions `from` can be inflated to one with dimensions
/// `to`: it has no more dimensions, and each of its dimensions either
/// matches or has size 1.
pub open spec fn can_inflate(from: Seq<usize>, to: Seq<usize>) -> bool {
    &&& from.len() <= to.len()
    &&& forall|i: int| 0 <= i < from.len() ==> #[trigger] to[i] == from[i] || from[i] == 1
}

/// The proxy dimensions through which a value of type `from` is seen as a
/// value of the bigger type `to`.
pub fn inflate(from: &DataType, to: &DataType) -> (r: Vec<(usize, ProxyMode)>)
    requires
        can_inflate(spec_dims(*from), spec_dims(*to)),
    ensures
        r@.len() == spec_dims(*to).len(),
        forall|i: int|
            0 <= i < r@.len() ==> #[trigger] r@[i] == (spec_dims(*to)[i], inflate_mode(
                spec_dims(*from),
                spec_dims(*to),
                i,
            )),
{
    let from_dims = from.collect_dims();
    let to_dims = to.collect_dims();
    let mut final_dims: Vec<(usize, ProxyMode)> = Vec::new();
    let mut index: usize = 0;
    while index < to_dims.len()
        invariant
            index <= to_dims@.len(),
            can_inflate(from_dims@, to_dims@),
            final_dims@.len() == index,
            forall|k: int|
                0 <= k < index ==> #[trigger] final_dims@[k] == (to_dims@[k], inflate_mode(
                    from_dims@,
                    to_dims@,
                    k,
                )),
        decreases to_dims@.len() - index,
    {
        if index >= from_dims.len() {
            final_dims.push((to_dims[index], ProxyMode::Discard));
        } else if to_dims[index] == from_dims[index] {
            final_dims.push((to_dims[index], ProxyMode::Keep));
        } else {
            final_dims.push((to_dims[index], ProxyMode::Collapse));
        }
        index = index + 1;
    }
    final_dims
}



/// An integer power that fits in an `i64`, with an exponent that fits in a
/// `u32`.
pub open spec fn int_pow_ok(x: i64, e: i64) -> bool {
    &&& 0 <= e <= u32::MAX
    &&& i64::MIN <= pow(x as int, e as nat) <= i64::MAX
}

/// The result of applying a binary operator to two pieces of data that are
/// not both arrays, or `None` where the operator is not defined on them
/// (the operands have the wrong kinds, the result overflows, a division is
/// by zero) or where it would need float arithmetic, which this library
/// leaves out.
pub open spec fn spec_apply(a: KnownValue, op: BinaryOperator, b: KnownValue) -> Option<KnownValue> {
    match op {
        BinaryOperator::Add => match (a, b) {
            (KnownValue::Int(x), KnownValue::Int(y)) => match x.checked_add(y) {
                Some(z) => Some(KnownValue::Int(z)),
                None => None,
            },
            _ => None,
        },
        BinaryOperator::Subtract => match (a, b) {
            (KnownValue::Int(x), KnownValue::Int(y)) => match x.checked_sub(y) {
                Some(z) => Some(KnownValue::Int(z)),
                None => None,
            },
            _ => None,
        },
        BinaryOperator::Multiply => match (a, b) {
            (KnownValue::Int(x), KnownValue::Int(y)) => match x.checked_mul(y) {
                Some(z) => Some(KnownValue::Int(z)),
                None => None,
            },
            _ => None,
        },
        BinaryOperator::Divide => match (a, b) {
            (KnownValue::Int(x), KnownValue::Int(y)) => match x.checked_div(y) {
                Some(z) => Some(KnownValue::Int(z)),
                None => None,
            },
            _ => None,
        },
        BinaryOperator::Modulo => match (a, b) {
            (KnownValue::Int(x), KnownValue::Int(y)) => match x.checked_rem(y) {
                Some(z) => Some(KnownValue::Int(z)),
                None => None,
            },
            _ => None,
        },
        BinaryOperator::Power => match (a, b) {
            (KnownValue::Int(x), KnownValue::Int(e)) => if int_pow_ok(x, e) {
                Some(KnownValue::Int(pow(x as int, e as nat) as i64))
            } else {
                None
            },
            _ => None,
        },
        BinaryOperator::And => match a {
            KnownValue::Bool(false) => Some(KnownValue::Bool(false)),
            KnownValue::Bool(true) => match b {
                KnownValue::Bool(y) => Some(KnownValue::Bool(y)),
                _ => None,
            },
            _ => None,
        },
        BinaryOperator::Or => match a {
            KnownValue::Bool(true) => Some(KnownValue::Bool(true)),
            KnownValue::Bool(false) => match b {
                KnownValue::Bool(y) => Some(KnownValue::Bool(y)),
                _ => None,
            },
            _ => None,
        },
        BinaryOperator::Xor => match (a, b) {
            (KnownValue::Bool(x), KnownValue::Bool(y)) => Some(KnownValue::Bool(x != y)),
            _ => None,
        },
        BinaryOperator::BAnd => match (a, b) {
            (KnownValue::Int(x), KnownValue::Int(y)) => Some(KnownValue::Int(x & y)),
            _ => None,
        },
        BinaryOperator::BOr => match (a, b) {
            (KnownValue::Int(x), KnownValue::Int(y)) => Some(KnownValue::Int(x | y)),
            _ => None,
        },
        BinaryOperator::BXor => match (a, b) {
            (KnownValue::Int(x), KnownValue::Int(y)) => Some(KnownValue::Int(x ^ y)),
            _ => None,
        },
        BinaryOperator::Equal => match (a, b) {
            (KnownValue::Bool(x), KnownValue::Bool(y)) => Some(KnownValue::Bool(x == y)),
            (KnownValue::Int(x), KnownValue::Int(y)) => Some(KnownValue::Bool(x == y)),
            (KnownValue::Array(x), KnownValue::Array(y)) => if !contains_float(a) && !contains_float(b) {
                Some(KnownValue::Bool(x == y))
            } else {
                None
            },
            _ => None,
        },
        BinaryOperator::NotEqual => match (a, b) {
            (KnownValue::Bool(x), KnownValue::Bool(y)) => Some(KnownValue::Bool(x != y)),
            (KnownValue::Int(x), KnownValue::Int(y)) => Some(KnownValue::Bool(x != y)),
            (KnownValue::Array(x), KnownValue::Array(y)) => if !contains_float(a) && !contains_float(b) {
                Some(KnownValue::Bool(x != y))
            } else {
                None
            },
            _ => None,
        },
        BinaryOperator::LessThan => match (a, b) {
            (KnownValue::Int(x), KnownValue::Int(y)) => Some(KnownValue::Bool(x < y)),
            _ => None,
        },
        BinaryOperator::GreaterThan => match (a, b) {
            (KnownValue::Int(x), KnownValue::Int(y)) => Some(KnownValue::Bool(x > y)),
            _ => None,
        },
        BinaryOperator::LessThanOrEqual => match (a, b) {
            (KnownValue::Int(x), KnownValue::Int(y)) => Some(KnownValue::Bool(x <= y)),
            _ => None,
        },
        BinaryOperator::GreaterThanOrEqual => match (a, b) {
            (KnownValue::Int(x), KnownValue::Int(y)) => Some(KnownValue::Bool(x >= y)),
            _ => None,
        },
    }
}

/// The folded value is the boolean `true`.
pub open spec fn holds(v: Option<KnownValue>) -> bool {
    v == Some(KnownValue::Bool(true))
}

/// The folded value is a boolean.
pub open spec fn is_truth_value(v: Option<KnownValue>) -> bool {
    v matches Some(KnownValue::Bool(_))
}

/// Law: folding a comparison of two integers gives a boolean, and the six
/// comparisons agree with each other and with subtraction: exactly one of
/// `<`, `==`, `>` holds; `>` is `<` with the operands swapped and the
/// negation of `<=`; `>=` is the negation of `<`; `x < y` holds exactly
/// when `y - x` is positive.
pub proof fn lemma_int_comparisons(x: i64, y: i64)
    ensures
        ({
            let a = KnownValue::Int(x);
            let b = KnownValue::Int(y);
            &&& is_truth_value(spec_apply(a, BinaryOperator::LessThan, b))
            &&& is_truth_value(spec_apply(a, BinaryOperator::GreaterThan, b))
            &&& is_truth_value(spec_apply(a, BinaryOperator::LessThanOrEqual, b))
            &&& is_truth_value(spec_apply(a, BinaryOperator::GreaterThanOrEqual, b))
            &&& is_truth_value(spec_apply(a, BinaryOperator::Equal, b))
            &&& is_truth_value(spec_apply(a, BinaryOperator::NotEqual, b))
            &&& holds(spec_apply(a, BinaryOperator::Equal, b)) == (x == y)
            &&& holds(spec_apply(a, BinaryOperator::NotEqual, b)) == !holds(
                spec_apply(a, BinaryOperator::Equal, b),
            )
            &&& holds(spec_apply(a, BinaryOperator::GreaterThan, b)) == holds(
                spec_apply(b, BinaryOperator::LessThan, a),
            )
            &&& holds(spec_apply(a, BinaryOperator::GreaterThanOrEqual, b)) == holds(
                spec_apply(b, BinaryOperator::LessThanOrEqual, a),
            )
            &&& holds(spec_apply(a, BinaryOperator::GreaterThan, b)) == !holds(
                spec_apply(a, BinaryOperator::LessThanOrEqual, b),
            )
            &&& holds(spec_apply(a, BinaryOperator::GreaterThanOrEqual, b)) == !holds(
                spec_apply(a, BinaryOperator::LessThan, b),
            )
            &&& holds(spec_apply(a, BinaryOperator::LessThan, b)) || holds(
                spec_apply(a, BinaryOperator::Equal, b),
            ) || holds(spec_apply(a, BinaryOperator::GreaterThan, b))
            &&& !(holds(spec_apply(a, BinaryOperator::LessThan, b)) && holds(
                spec_apply(a, BinaryOperator::Equal, b),
            ))
            &&& !(holds(spec_apply(a, BinaryOperator::LessThan, b)) && holds(
                spec_apply(a, BinaryOperator::GreaterThan, b),
            ))
            &&& !(holds(spec_apply(a, BinaryOperator::Equal, b)) && holds(
                spec_apply(a, BinaryOperator::GreaterThan, b),
            ))
            &&& spec_apply(b, BinaryOperator::Subtract, a) matches Some(KnownValue::Int(d)) ==> holds(
                spec_apply(a, BinaryOperator::LessThan, b),
            ) == (d > 0)
        }),
{
}

/// Law: folding integer arithmetic: addition and multiplication do not
/// depend on the order of the operands, and subtraction undoes addition.
pub proof fn lemma_int_arithmetic(x: i64, y: i64)
    ensures
        ({
            let a = KnownValue::Int(x);
            let b = KnownValue::Int(y);
            &&& spec_apply(a, BinaryOperator::Add, b) == spec_apply(b, BinaryOperator::Add, a)
            &&& spec_apply(a, BinaryOperator::Multiply, b) == spec_apply(
                b,
                BinaryOperator::Multiply,
                a,
            )
            &&& spec_apply(a, BinaryOperator::Add, b) matches Some(KnownValue::Int(s)) ==> spec_apply(
                KnownValue::Int(s),
                BinaryOperator::Subtract,
                b,
            ) == Some(a)
        }),
{
    assert((x as int) * (y as int) == (y as int) * (x as int)) by (nonlinear_arith);
}

/// Law: folding the division and remainder of a non-negative integer by a
/// positive one gives a quotient and a remainder that recombine to the
/// dividend, with the remainder below the divisor; a power with exponent 0
/// is 1 and with exponent 1 is the base.
pub proof fn lemma_int_division_and_power(x: i64, y: i64)
    ensures
        x >= 0 && y > 0 ==> (spec_apply(KnownValue::Int(x), BinaryOperator::Divide, KnownValue::Int(y))
            matches Some(KnownValue::Int(q)) && spec_apply(
            KnownValue::Int(x),
            BinaryOperator::Modulo,
            KnownValue::Int(y),
        ) matches Some(KnownValue::Int(r)) && q * y + r == x && 0 <= r < y),
        spec_apply(KnownValue::Int(x), BinaryOperator::Power, KnownValue::Int(0)) == Some(
            KnownValue::Int(1),
        ),
        spec_apply(KnownValue::Int(x), BinaryOperator::Power, KnownValue::Int(1)) == Some(
            KnownValue::Int(x),
        ),
{
    vstd::arithmetic::power::lemma_pow0(x as int);
    vstd::arithmetic::power::lemma_pow1(x as int);
    if x > 0 && y > 0 {
        vstd::arithmetic::div_mod::lemma_fundamental_div_mod(x as int, y as int);
        vstd::arithmetic::div_mod::lemma_mod_bound(x as int, y as int);
        vstd::arithmetic::div_mod::lemma_div_pos_is_pos(x as int, y as int);
        vstd::arithmetic::div_mod::lemma_div_is_ordered_by_denominator(x as int, 1, y as int);
        assert((x as int) / 1 == x);
        assert((x as int) * 1 == x);
        let q = (x as int) / (y as int);
        assert(q * (y as int) == (y as int) * q) by (nonlinear_arith);
    }
}

/// Law: folding the logical operators on two booleans: `and` holds when
/// both do, `or` when either does, `xor` when exactly one does.
pub proof fn lemma_bool_logic(p: bool, q: bool)
    ensures
        holds(spec_apply(KnownValue::Bool(p), BinaryOperator::And, KnownValue::Bool(q))) == (p && q),
        holds(spec_apply(KnownValue::Bool(p), BinaryOperator::Or, KnownValue::Bool(q))) == (p || q),
        holds(spec_apply(KnownValue::Bool(p), BinaryOperator::Xor, KnownValue::Bool(q))) == (p != q),
        is_truth_value(spec_apply(KnownValue::Bool(p), BinaryOperator::And, KnownValue::Bool(q))),
        is_truth_value(spec_apply(KnownValue::Bool(p), BinaryOperator::Or, KnownValue::Bool(q))),
        is_truth_value(spec_apply(KnownValue::Bool(p), BinaryOperator::Xor, KnownValue::Bool(q))),
{
}

/// Two arrays of lengths `n` and `m` can be combined item by item: their
/// lengths are equal, or one of them is 1 and the other is not empty.
pub open spec fn lengths_combine(n: nat, m: nat) -> bool {
    n == m || (n == 1 && m >= 1) || (m == 1 && n >= 1)
}

/// The length of the combination of arrays of lengths `n` and `m`.
pub open spec fn combined_len(n: nat, m: nat) -> nat {
    if n >= m {
        n
    } else {
        m
    }
}

/// Which item of the first array meets item `i` of the result.
pub open spec fn first_index(n: nat, m: nat, i: int) -> int {
    if n == 1 {
        0
    } else {
        i
    }
}

/// Which item of the second array meets item `i` of the result.
pub open spec fn second_index(n: nat, m: nat, i: int) -> int {
    if m == 1 {
        0
    } else {
        i
    }
}

/// The result of a binary operation on compile-time data. Two arrays are
/// combined item by item (an array of length 1 is stretched to the other's
/// length), an array and a non-array are combined by applying the operator
/// to each item, and two non-arrays by applying it once. `None` where some
/// application is undefined (see [`spec_apply`]).
pub open spec fn spec_compute(a: KnownValue, op: BinaryOperator, b: KnownValue) -> Option<KnownValue>
    decreases a,
    via spec_compute_decreases
{
    match a {
        KnownValue::Array(sa) => match b {
            KnownValue::Array(sb) => {
                let n = sa.len();
                let m = sb.len();
                if !lengths_combine(n, m) {
                    None
                } else if forall|i: int|
                    #![trigger sa[first_index(n, m, i)], sb[second_index(n, m, i)]]
                    0 <= i < combined_len(n, m) ==> spec_compute(
                        sa[first_index(n, m, i)],
                        op,
                        sb[second_index(n, m, i)],
                    ) is Some {
                    Some(
                        KnownValue::Array(
                            Seq::new(
                                combined_len(n, m),
                                |i: int|
                                    if 0 <= i < combined_len(n, m) {
                                        spec_compute(
                                            sa[first_index(n, m, i)],
                                            op,
                                            sb[second_index(n, m, i)],
                                        )->Some_0
                                    } else {
                                        KnownValue::Void
                                    },
                            ),
                        ),
                    )
                } else {
                    None
                }
            },
            _ => if forall|i: int| 0 <= i < sa.len() ==> (#[trigger] spec_apply(sa[i], op, b)) is Some {
                Some(KnownValue::Array(Seq::new(sa.len(), |i: int| spec_apply(sa[i], op, b)->Some_0)))
            } else {
                None
            },
        },
        _ => match b {
            KnownValue::Array(sb) => if forall|i: int|
                0 <= i < sb.len() ==> (#[trigger] spec_apply(a, op, sb[i])) is Some {
                Some(KnownValue::Array(Seq::new(sb.len(), |i: int| spec_apply(a, op, sb[i])->Some_0)))
            } else {
                None
            },
            _ => spec_apply(a, op, b),
        },
    }
}

/// What the value of a computation on two arrays is made of.
proof fn lemma_compute_arrays(a: KnownValue, op: BinaryOperator, b: KnownValue)
    requires
        a is Array,
        b is Array,
        spec_compute(a, op, b) is Some,
    ensures
        lengths_combine(a->Array_0.len(), b->Array_0.len()),
        forall|i: int| 0 <= i < combined_len(a->Array_0.len(), b->Array_0.len()) ==> (#[trigger] spec_compute(
            a->Array_0[first_index(a->Array_0.len(), b->Array_0.len(), i)],
            op,
            b->Array_0[second_index(a->Array_0.len(), b->Array_0.len(), i)],
        )) is Some,
{
    reveal_with_fuel(spec_compute, 1);
}

#[via_fn]
proof fn spec_compute_decreases(a: KnownValue, op: BinaryOperator, b: KnownValue) {
    if let KnownValue::Array(sa) = a {
        if let KnownValue::Array(sb) = b {
            let n = sa.len();
            let m = sb.len();
            if lengths_combine(n, m) {
                assert forall|i: int| 0 <= i < combined_len(n, m) implies decreases_to!(a => sa[first_index(n, m, i)]) by {
                    assert(0 <= first_index(n, m, i) < n);
                    assert(decreases_to!(sa => sa[first_index(n, m, i)]));
                }
            }
        }
    }
}

/// `pow(x, e + 1) == x * pow(x, e)`.
proof fn lemma_pow_step(x: int, e: nat)
    ensures
        pow(x, e + 1) == x * pow(x, e),
        pow(x, 0) == 1,
{
    reveal(pow);
    assert(pow(x, e + 1) == x * pow(x, ((e + 1) - 1) as nat));
}

/// A power of a non-zero number is non-zero.
proof fn lemma_pow_nonzero(x: int, e: nat)
    requires
        x != 0,
    ensures
        pow(x, e) != 0,
    decreases e,
{
    lemma_pow_step(x, 0);
    if e > 0 {
        lemma_pow_nonzero(x, (e - 1) as nat);
        lemma_pow_step(x, (e - 1) as nat);
        assert(x * pow(x, (e - 1) as nat) != 0) by (nonlinear_arith)
            requires
                x != 0,
                pow(x, (e - 1) as nat) != 0,
        ;
    }
}

/// Powers of -1 alternate between 1 and -1.
proof fn lemma_pow_minus_one(e: nat)
    ensures
        pow(-1, e) == if e % 2 == 0 { 1int } else { -1int },
    decreases e,
{
    lemma_pow_step(-1, 0);
    if e > 0 {
        lemma_pow_minus_one((e - 1) as nat);
        lemma_pow_step(-1, (e - 1) as nat);
    }
}

/// Every power of 1 is 1 and every positive power of 0 is 0.
proof fn lemma_pow_zero_one(x: int, e: nat)
    requires
        x == 0 || x == 1,
    ensures
        pow(x, e) == if x == 1 || e == 0 { 1int } else { 0int },
    decreases e,
{
    lemma_pow_step(x, 0);
    if e > 0 {
        lemma_pow_zero_one(x, (e - 1) as nat);
        lemma_pow_step(x, (e - 1) as nat);
    }
}

/// Every positive power of a number of size at least 2 has size at least 2.
proof fn lemma_pow_square_ge_4(x: int, n: nat)
    requires
        x * x >= 4,
        n >= 1,
    ensures
        pow(x, n) * pow(x, n) >= 4,
    decreases n,
{
    lemma_pow_step(x, (n - 1) as nat);
    if n == 1 {
        assert(pow(x, 1) == x * 1);
    } else {
        lemma_pow_square_ge_4(x, (n - 1) as nat);
        let p = pow(x, (n - 1) as nat);
        assert((x * p) * (x * p) >= 4) by (nonlinear_arith)
            requires
                x * x >= 4,
                p * p >= 4,
        ;
    }
}

/// A strictly smaller power of a number of size at least 2 is at most half
/// the size of the larger one.
proof fn lemma_pow_partial_bounded(x: int, k: nat, e: nat)
    requires
        x * x >= 4,
        k < e,
    ensures
        4 * (pow(x, k) * pow(x, k)) <= pow(x, e) * pow(x, e),
{
    vstd::arithmetic::power::lemma_pow_adds(x, k, (e - k) as nat);
    lemma_pow_square_ge_4(x, (e - k) as nat);
    let p = pow(x, k);
    let q = pow(x, (e - k) as nat);
    assert(4 * (p * p) <= (p * q) * (p * q)) by (nonlinear_arith)
        requires
            q * q >= 4,
    ;
}

/// `x` raised to the power `e`.
fn int_pow(x: i64, e: u32) -> (r: i64)
    requires
        i64::MIN <= pow(x as int, e as nat) <= i64::MAX,
    ensures
        r == pow(x as int, e as nat),
{
    if x == 0 || x == 1 {
        proof {
            lemma_pow_zero_one(x as int, e as nat);
        }
        if x == 1 || e == 0 {
            return 1;
        } else {
            return 0;
        }
    }
    if x == -1 {
        proof {
            lemma_pow_minus_one(e as nat);
        }
        if e % 2 == 0 {
            return 1;
        } else {
            return -1;
        }
    }
    let mut acc: i64 = 1;
    let mut k: u32 = 0;
    proof {
        lemma_pow_step(x as int, 0);
    }
    while k < e
        invariant
            k <= e,
            x < -1 || x > 1,
            i64::MIN <= pow(x as int, e as nat) <= i64::MAX,
            acc == pow(x as int, k as nat),
        decreases e - k,
    {
        proof {
            lemma_pow_step(x as int, k as nat);
            let p = pow(x as int, (k + 1) as nat);
            let f = pow(x as int, e as nat);
            if k + 1 < e {
                assert((x as int) * (x as int) >= 4) by (nonlinear_arith)
                    requires x < -1 || x > 1;
                lemma_pow_partial_bounded(x as int, (k + 1) as nat, e as nat);
                assert(i64::MIN <= p <= i64::MAX) by (nonlinear_arith)
                    requires
                        4 * (p * p) <= f * f,
                        i64::MIN <= f <= i64::MAX,
                ;
            }
        }
        acc = acc * x;
        k = k + 1;
    }
    acc
}

/// Applies a binary operator to two pieces of data that are not both
/// arrays.
pub fn compute_binary_operation_impl(a: &KnownData, operator: BinaryOperator, b: &KnownData) -> (r: KnownData)
    requires
        spec_apply(a@, operator, b@) is Some,
    ensures
        r@ == spec_apply(a@, operator, b@)->Some_0,
{
    match operator {
        BinaryOperator::Add | BinaryOperator::Subtract | BinaryOperator::Multiply
        | BinaryOperator::Divide | BinaryOperator::Modulo | BinaryOperator::Power
        | BinaryOperator::BAnd | BinaryOperator::BOr | BinaryOperator::BXor
        | BinaryOperator::LessThan | BinaryOperator::GreaterThan
        | BinaryOperator::LessThanOrEqual | BinaryOperator::GreaterThanOrEqual => {
            let (x, y) = match (a, b) {
                (KnownData::Int(x), KnownData::Int(y)) => (*x, *y),
                _ => {
                    assert(false);
                    return KnownData::Void;
                },
            };
            match operator {
                BinaryOperator::Add => KnownData::Int(x + y),
                BinaryOperator::Subtract => KnownData::Int(x - y),
                BinaryOperator::Multiply => KnownData::Int(x * y),
                BinaryOperator::Divide => match x.checked_div(y) {
                    Some(z) => KnownData::Int(z),
                    None => {
                        assert(false);
                        KnownData::Void
                    },
                },
                BinaryOperator::Modulo => match x.checked_rem(y) {
                    Some(z) => KnownData::Int(z),
                    None => {
                        assert(false);
                        KnownData::Void
                    },
                },
                BinaryOperator::Power => KnownData::Int(int_pow(x, y as u32)),
                BinaryOperator::BAnd => KnownData::Int(x & y),
                BinaryOperator::BOr => KnownData::Int(x | y),
                BinaryOperator::BXor => KnownData::Int(x ^ y),
                BinaryOperator::LessThan => KnownData::Bool(x < y),
                BinaryOperator::GreaterThan => KnownData::Bool(x > y),
                BinaryOperator::LessThanOrEqual => KnownData::Bool(x <= y),
                _ => KnownData::Bool(x >= y),
            }
        },
        BinaryOperator::And => match a {
            KnownData::Bool(false) => KnownData::Bool(false),
            _ => match b {
                KnownData::Bool(y) => KnownData::Bool(*y),
                _ => {
                    assert(false);
                    KnownData::Void
                },
            },
        },
        BinaryOperator::Or => match a {
            KnownData::Bool(true) => KnownData::Bool(true),
            _ => match b {
                KnownData::Bool(y) => KnownData::Bool(*y),
                _ => {
                    assert(false);
                    KnownData::Void
                },
            },
        },
        BinaryOperator::Xor => match (a, b) {
            (KnownData::Bool(x), KnownData::Bool(y)) => KnownData::Bool(*x != *y),
            _ => {
                assert(false);
                KnownData::Void
            },
        },
        BinaryOperator::Equal => {
            proof {
                if a@ is Array {
                    assert(*a is Array);
                }
            }
            KnownData::Bool(a.equals(b))
        },
        BinaryOperator::NotEqual => KnownData::Bool(!a.equals(b)),
    }
}

/// Applies a binary operator to compile-time data, item by item where
/// arrays are involved.
pub fn compute_binary_operation(a: &KnownData, operator: BinaryOperator, b: &KnownData) -> (r: KnownData)
    requires
        spec_compute(a@, operator, b@) is Some,
    ensures
        r@ == spec_compute(a@, operator, b@)->Some_0,
    decreases a,
{
    match a {
        KnownData::Array(array_a) => {
            proof {
                lemma_array_value(*array_a);
            }
            match b {
                KnownData::Array(array_b) => {
                    proof {
                        lemma_array_value(*array_b);
                    }
                    let a_size = array_a.len();
                    let b_size = array_b.len();
                    let (inc_a, inc_b) = if a_size == b_size {
                        (true, true)
                    } else if a_size == 1 {
                        (false, true)
                    } else {
                        (true, false)
                    };
                    let result_size = if a_size >= b_size { a_size } else { b_size };
                    let ghost sa = a@->Array_0;
                    let ghost sb = b@->Array_0;
                    let ghost n = sa.len();
                    let ghost m = sb.len();
                    let mut result_items: Vec<KnownData> = Vec::new();
                    let mut a_index: usize = 0;
                    let mut b_index: usize = 0;
                    let mut index: usize = 0;
                    while index < result_size
                        invariant
                            *a is Array,
                            a->Array_0 == *array_a,
                            spec_compute(a@, operator, b@) is Some,
                            a@ == KnownValue::Array(sa),
                            b@ == KnownValue::Array(sb),
                            n == a_size,
                            m == b_size,
                            n == sa.len(),
                            m == sb.len(),
                            sa.len() == array_a@.len(),
                            sb.len() == array_b@.len(),
                            forall|i: int| 0 <= i < sa.len() ==> sa[i] == known_value(#[trigger] array_a@[i]),
                            forall|i: int| 0 <= i < sb.len() ==> sb[i] == known_value(#[trigger] array_b@[i]),
                            lengths_combine(n, m),
                            result_size == combined_len(n, m),
                            inc_a == (n == m || n != 1),
                            inc_b == (n == m || n == 1),
                            index <= result_size,
                            index < result_size ==> a_index == first_index(n, m, index as int),
                            index < result_size ==> b_index == second_index(n, m, index as int),
                            result_items@.len() == index,
                            forall|k: int|
                                0 <= k < index ==> known_value(#[trigger] result_items@[k])
                                    == spec_compute(
                                    sa[first_index(n, m, k)],
                                    operator,
                                    sb[second_index(n, m, k)],
                                )->Some_0,
                        decreases result_size - index,
                    {
                        proof {
                            lemma_compute_arrays(a@, operator, b@);
                        }
                        assert(0 <= first_index(n, m, index as int) < n);
                        assert(0 <= second_index(n, m, index as int) < m);
                        assert(sa[first_index(n, m, index as int)] == known_value(array_a@[a_index as int]));
                        assert(sb[second_index(n, m, index as int)] == known_value(array_b@[b_index as int]));
                        proof {
                            assert(decreases_to!(*a => a->Array_0[a_index as int]));
                        }
                        let item = compute_binary_operation(&array_a[a_index], operator, &array_b[b_index]);
                        result_items.push(item);
                        if inc_a {
                            a_index = a_index + 1;
                        }
                        if inc_b {
                            b_index = b_index + 1;
                        }
                        index = index + 1;
                    }
                    proof {
                        let expected = spec_compute(a@, operator, b@)->Some_0;
                        lemma_array_value_eq(result_items, expected->Array_0);
                    }
                    KnownData::Array(result_items)
                },
                _ => {
                    let ghost sa = a@->Array_0;
                    let mut items: Vec<KnownData> = Vec::new();
                    let mut i: usize = 0;
                    while i < array_a.len()
                        invariant
                            spec_compute(a@, operator, b@) is Some,
                            a@ == KnownValue::Array(sa),
                            b@ !is Array,
                            sa.len() == array_a@.len(),
                            forall|k: int| 0 <= k < sa.len() ==> sa[k] == known_value(#[trigger] array_a@[k]),
                            i <= array_a@.len(),
                            items@.len() == i,
                            forall|k: int|
                                0 <= k < i ==> known_value(#[trigger] items@[k]) == spec_apply(sa[k], operator, b@)->Some_0,
                        decreases array_a@.len() - i,
                    {
                        assert(spec_apply(sa[i as int], operator, b@) is Some);
                        items.push(compute_binary_operation_impl(&array_a[i], operator, b));
                        i = i + 1;
                    }
                    proof {
                        lemma_array_value_eq(items, spec_compute(a@, operator, b@)->Some_0->Array_0);
                    }
                    KnownData::Array(items)
                },
            }
        },
        _ => match b {
            KnownData::Array(array_b) => {
                proof {
                    lemma_array_value(*array_b);
                }
                let ghost sb = b@->Array_0;
                let mut items: Vec<KnownData> = Vec::new();
                let mut i: usize = 0;
                while i < array_b.len()
                    invariant
                        spec_compute(a@, operator, b@) is Some,
                        a@ !is Array,
                        b@ == KnownValue::Array(sb),
                        sb.len() == array_b@.len(),
                        forall|k: int| 0 <= k < sb.len() ==> sb[k] == known_value(#[trigger] array_b@[k]),
                        i <= array_b@.len(),
                        items@.len() == i,
                        forall|k: int|
                            0 <= k < i ==> known_value(#[trigger] items@[k]) == spec_apply(a@, operator, sb[k])->Some_0,
                    decreases array_b@.len() - i,
                {
                    assert(spec_apply(a@, operator, sb[i as int]) is Some);
                    items.push(compute_binary_operation_impl(a, operator, &array_b[i]));
                    i = i + 1;
                }
                proof {
                    lemma_array_value_eq(items, spec_compute(a@, operator, b@)->Some_0->Array_0);
                }
                KnownData::Array(items)
            },
            _ => compute_binary_operation_impl(a, operator, b),
        },
    }
}


/// Whether every part of the value is known data that exists at run time.
pub open spec fn fully_known(v: KnownValue) -> bool
    decreases v,
{
    match v {
        KnownValue::Unknown | KnownValue::Void => false,
        KnownValue::Array(items) => forall|i: int| #![trigger items[i]] 0 <= i < items.len() ==> fully_known(items[i]),
        _ => true,
    }
}

/// The run-time version of compile-time data, or `Err` if some part of it
/// is unknown or void.
pub fn resolve_known_data(input: &KnownData) -> (r: Result<o::known_data::KnownData, ()>)
    ensures
        r is Ok <==> fully_known(input@),
        r matches Ok(d) ==> d@ == input@,
    decreases input,
{
    match input {
        KnownData::Bool(value) => Ok(o::known_data::KnownData::Bool(*value)),
        KnownData::Int(value) => Ok(o::known_data::KnownData::Int(*value)),
        KnownData::Float(value) => Ok(o::known_data::KnownData::Float(*value)),
        KnownData::Array(old_data) => {
            proof {
                lemma_array_value(*old_data);
            }
            let ghost s = input@->Array_0;
            let mut items: Vec<o::known_data::KnownData> = Vec::new();
            let mut i: usize = 0;
            while i < old_data.len()
                invariant
                    *input is Array,
                    input->Array_0 == *old_data,
                    input@ == KnownValue::Array(s),
                    s.len() == old_data@.len(),
                    forall|k: int| 0 <= k < s.len() ==> s[k] == known_value(#[trigger] old_data@[k]),
                    i <= old_data@.len(),
                    items@.len() == i,
                    forall|k: int| 0 <= k < i ==> fully_known(#[trigger] s[k]),
                    forall|k: int| 0 <= k < i ==> (#[trigger] items@[k])@ == s[k],
                decreases old_data@.len() - i,
            {
                proof {
                    assert(decreases_to!(*input => input->Array_0[i as int]));
                }
                match resolve_known_data(&old_data[i]) {
                    Ok(item) => items.push(item),
                    Err(()) => {
                        assert(!fully_known(s[i as int]));
                        assert(input@->Array_0[i as int] == s[i as int]);
                        assert(!fully_known(input@));
                        return Err(());
                    },
                }
                i = i + 1;
            }
            proof {
                o::known_data::lemma_resolved_array_value_eq(items, s);
            }
            Ok(o::known_data::KnownData::Array(items))
        },
        KnownData::Unknown | KnownData::Void => Err(()),
    }
}

/// The resolved operator a vague-phase operator becomes.
pub open spec fn spec_resolve_operator(operator: BinaryOperator) -> o::BinaryOperator {
    match operator {
        BinaryOperator::Add => o::BinaryOperator::Add,
        BinaryOperator::Subtract => o::BinaryOperator::Subtract,
        BinaryOperator::Multiply => o::BinaryOperator::Multiply,
        BinaryOperator::Divide => o::BinaryOperator::Divide,
        BinaryOperator::Modulo => o::BinaryOperator::Modulo,
        BinaryOperator::Power => o::BinaryOperator::Power,
        BinaryOperator::And => o::BinaryOperator::And,
        BinaryOperator::Or => o::BinaryOperator::Or,
        BinaryOperator::Xor => o::BinaryOperator::Xor,
        BinaryOperator::BAnd => o::BinaryOperator::BAnd,
        BinaryOperator::BOr => o::BinaryOperator::BOr,
        BinaryOperator::BXor => o::BinaryOperator::BXor,
        BinaryOperator::Equal => o::BinaryOperator::Equal,
        BinaryOperator::NotEqual => o::BinaryOperator::NotEqual,
        BinaryOperator::LessThan => o::BinaryOperator::LessThan,
        BinaryOperator::GreaterThan => o::BinaryOperator::GreaterThan,
        BinaryOperator::LessThanOrEqual => o::BinaryOperator::LessThanOrEqual,
        BinaryOperator::GreaterThanOrEqual => o::BinaryOperator::GreaterThanOrEqual,
    }
}

/// The resolved operator a vague-phase operator becomes.
pub fn resolve_operator(operator: BinaryOperator) -> (r: o::BinaryOperator)
    ensures
        r == spec_resolve_operator(operator),
{
    match operator {
        BinaryOperator::Add => o::BinaryOperator::Add,
        BinaryOperator::Subtract => o::BinaryOperator::Subtract,
        BinaryOperator::Multiply => o::BinaryOperator::Multiply,
        BinaryOperator::Divide => o::BinaryOperator::Divide,
        BinaryOperator::Modulo => o::BinaryOperator::Modulo,
        BinaryOperator::Power => o::BinaryOperator::Power,
        BinaryOperator::And => o::BinaryOperator::And,
        BinaryOperator::Or => o::BinaryOperator::Or,
        BinaryOperator::Xor => o::BinaryOperator::Xor,
        BinaryOperator::BAnd => o::BinaryOperator::BAnd,
        BinaryOperator::BOr => o::BinaryOperator::BOr,
        BinaryOperator::BXor => o::BinaryOperator::BXor,
        BinaryOperator::Equal => o::BinaryOperator::Equal,
        BinaryOperator::NotEqual => o::BinaryOperator::NotEqual,
        BinaryOperator::LessThan => o::BinaryOperator::LessThan,
        BinaryOperator::GreaterThan => o::BinaryOperator::GreaterThan,
        BinaryOperator::LessThanOrEqual => o::BinaryOperator::LessThanOrEqual,
        BinaryOperator::GreaterThanOrEqual => o::BinaryOperator::GreaterThanOrEqual,
    }
}

/// Law: distinct vague-phase operators resolve to distinct operators.
pub proof fn lemma_resolve_operator_injective(x: BinaryOperator, y: BinaryOperator)
    ensures
        spec_resolve_operator(x) == spec_resolve_operator(y) ==> x == y,
{
}

} // verus!
