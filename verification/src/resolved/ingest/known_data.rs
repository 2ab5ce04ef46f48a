//! Constant data as the resolver knows it at compile time, and the binary
//! operators it can apply to such data.
use vstd::prelude::*;

verus! {

/// Data whose value is known at compile time. A float is carried by its
/// bit pattern; the library moves floats around but does no float
/// arithmetic.
#[derive(Debug)]
pub enum KnownData {
    Bool(bool),
    Int(i64),
    Float(u64),
    Array(Vec<KnownData>),
    Unknown,
    Void,
}

/// The mathematical value of a [`KnownData`]: arrays are sequences.
pub enum KnownValue {
    Bool(bool),
    Int(i64),
    Float(u64),
    Array(Seq<KnownValue>),
    Unknown,
    Void,
}

pub open spec fn known_value(d: KnownData) -> KnownValue
    decreases d,
{
    match d {
        KnownData::Bool(v) => KnownValue::Bool(v),
        KnownData::Int(v) => KnownValue::Int(v),
        KnownData::Float(v) => KnownValue::Float(v),
        KnownData::Array(items) => KnownValue::Array(
            Seq::new(
                items@.len(),
                |i: int|
                    if 0 <= i < items@.len() {
                        known_value(items@[i])
                    } else {
                        KnownValue::Void
                    },
            ),
        ),
        KnownData::Unknown => KnownValue::Unknown,
        KnownData::Void => KnownValue::Void,
    }
}

impl View for KnownData {
    type V = KnownValue;

    open spec fn view(&self) -> KnownValue {
        known_value(*self)
    }
}

/// The value of an array is the sequence of the values of its items.
pub proof fn lemma_array_value(items: Vec<KnownData>)
    ensures
        known_value(KnownData::Array(items)) is Array,
        known_value(KnownData::Array(items))->Array_0.len() == items@.len(),
        forall|i: int|
            0 <= i < items@.len() ==> #[trigger] known_value(KnownData::Array(items))->Array_0[i]
                == known_value(items@[i]),
{
}

/// Two arrays have equal values when their items have.
pub proof fn lemma_array_value_eq(items: Vec<KnownData>, s: Seq<KnownValue>)
    requires
        s.len() == items@.len(),
        forall|i: int| 0 <= i < s.len() ==> s[i] == known_value(#[trigger] items@[i]),
    ensures
        known_value(KnownData::Array(items)) == KnownValue::Array(s),
{
    assert(known_value(KnownData::Array(items))->Array_0 =~= s);
}

/// Whether a float occurs anywhere in the value.
pub open spec fn contains_float(v: KnownValue) -> bool
    decreases v,
{
    match v {
        KnownValue::Float(..) => true,
        KnownValue::Array(items) => exists|i: int| 0 <= i < items.len() && contains_float(#[trigger] items[i]),
        _ => false,
    }
}

/// Binary operators of the vague phase.
#[derive(Clone, Copy, Debug, PartialEq, Eq, Structural)]
pub enum BinaryOperator {
    Add,
    Subtract,
    Multiply,
    Divide,
    Modulo,
    Power,
    And,
    Or,
    Xor,
    BAnd,
    BOr,
    BXor,
    Equal,
    NotEqual,
    LessThan,
    GreaterThan,
    LessThanOrEqual,
    GreaterThanOrEqual,
}

impl KnownData {
    /// A copy of the data.
    pub fn duplicate(&self) -> (r: KnownData)
        ensures
            r@ == self@,
        decreases self,
    {
        match self {
            KnownData::Bool(v) => KnownData::Bool(*v),
            KnownData::Int(v) => KnownData::Int(*v),
            KnownData::Float(v) => KnownData::Float(*v),
            KnownData::Unknown => KnownData::Unknown,
            KnownData::Void => KnownData::Void,
            KnownData::Array(items) => {
                let mut out: Vec<KnownData> = Vec::new();
                let mut i: usize = 0;
                while i < items.len()
                    invariant
                        *self is Array,
                        self->Array_0 == *items,
                        i <= items@.len(),
                        out@.len() == i,
                        forall|k: int| 0 <= k < i ==> known_value(#[trigger] out@[k]) == known_value(items@[k]),
                    decreases items@.len() - i,
                {
                    proof {
                        assert(decreases_to!(*self => self->Array_0[i as int]));
                    }
                    out.push(items[i].duplicate());
                    i = i + 1;
                }
                proof {
                    lemma_array_value(*items);
                    lemma_array_value_eq(out, self@->Array_0);
                }
                KnownData::Array(out)
            },
        }
    }

    /// Whether two pieces of data are equal, item by item for arrays.
    pub fn equals(&self, other: &KnownData) -> (r: bool)
        ensures
            r == (self@ == other@),
        decreases self,
    {
        match (self, other) {
            (KnownData::Bool(a), KnownData::Bool(b)) => *a == *b,
            (KnownData::Int(a), KnownData::Int(b)) => *a == *b,
            (KnownData::Float(a), KnownData::Float(b)) => *a == *b,
            (KnownData::Unknown, KnownData::Unknown) => true,
            (KnownData::Void, KnownData::Void) => true,
            (KnownData::Array(a), KnownData::Array(b)) => {
                proof {
                    lemma_array_value(*a);
                    lemma_array_value(*b);
                }
                if a.len() != b.len() {
                    return false;
                }
                let mut i: usize = 0;
                while i < a.len()
                    invariant
                        *self is Array,
                        self->Array_0 == *a,
                        *other is Array,
                        other->Array_0 == *b,
                        i <= a@.len(),
                        a@.len() == b@.len(),
                        forall|k: int| 0 <= k < i ==> known_value(#[trigger] a@[k]) == known_value(b@[k]),
                    decreases a@.len() - i,
                {
                    proof {
                        assert(decreases_to!(*self => self->Array_0[i as int]));
                    }
                    if !a[i].equals(&b[i]) {
                        proof {
                            lemma_array_value(*a);
                            lemma_array_value(*b);
                            assert(self@->Array_0[i as int] != other@->Array_0[i as int]);
                        }
                        return false;
                    }
                    i = i + 1;
                }
                proof {
                    lemma_array_value(*a);
                    lemma_array_value(*b);
                    assert(self@->Array_0 =~= other@->Array_0);
                }
                true
            },
            _ => false,
        }
    }
}

} // verus!
