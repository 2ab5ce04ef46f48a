//! Constant data that is available at run time.
use vstd::prelude::*;

use crate::resolved::ingest::known_data::KnownValue;

verus! {

/// Data available at run time. A float is carried by its bit pattern.
#[derive(Debug)]
pub enum KnownData {
    Bool(bool),
    Int(i64),
    Float(u64),
    Array(Vec<KnownData>),
}

/// The mathematical value of run-time data, in the same terms as
/// compile-time data.
pub open spec fn resolved_value(d: KnownData) -> KnownValue
    decreases d,
{
    match d {
        KnownData::Bool(v) => KnownValue::Bool(v),
        KnownData::Int(v) => KnownValue::Int(v),
        KnownData::Float(v) => KnownValue::Float(v),
        KnownData::Array(items) => KnownValue::Array(
            Seq::new(
                items@.len(),
                |i: int|
                    if 0 <= i < items@.len() {
                        resolved_value(items@[i])
                    } else {
                        KnownValue::Void
                    },
            ),
        ),
    }
}

impl View for KnownData {
    type V = KnownValue;

    open spec fn view(&self) -> KnownValue {
        resolved_value(*self)
    }
}

/// Two arrays have equal values when their items have.
pub proof fn lemma_resolved_array_value_eq(items: Vec<KnownData>, s: Seq<KnownValue>)
    requires
        s.len() == items@.len(),
        forall|i: int| 0 <= i < s.len() ==> s[i] == resolved_value(#[trigger] items@[i]),
    ensures
        resolved_value(KnownData::Array(items)) == KnownValue::Array(s),
{
    assert(resolved_value(KnownData::Array(items))->Array_0 =~= s);
}

} // verus!
