//! Constant data as the machine holds it.
use vstd::prelude::*;

use super::native_var::{NativeBaseType, NativeType};

verus! {

/// A scalar constant. A float is held by its single-precision bit pattern,
/// which is exactly what the machine code loads.
#[derive(Clone, Copy, Debug, PartialEq, Eq, Structural)]
pub enum NativeData {
    Int(i64),
    Float(u32),
    Bool(bool),
}

impl NativeData {
    pub open spec fn spec_base(self) -> NativeBaseType {
        match self {
            NativeData::Int(..) => NativeBaseType::I32,
            NativeData::Float(..) => NativeBaseType::F32,
            NativeData::Bool(..) => NativeBaseType::B8,
        }
    }

    /// The 32 bits the machine holds for this constant: an int is truncated
    /// to its low 32 bits, a bool is 1 or 0.
    pub open spec fn spec_binary_data(self) -> u32 {
        match self {
            NativeData::Bool(value) => if value { 1 } else { 0 },
            NativeData::Int(value) => value as u32,
            NativeData::Float(bits) => bits,
        }
    }

    pub fn get_type(&self) -> (r: NativeType)
        ensures
            r.base == self.spec_base(),
            r.dimensions@.len() == 0,
    {
        match self {
            NativeData::Int(..) => NativeType::int_scalar(),
            NativeData::Float(..) => NativeType::float_scalar(),
            NativeData::Bool(..) => NativeType::bool_scalar(),
        }
    }

    pub fn binary_data(&self) -> (r: u32)
        ensures
            r == self.spec_binary_data(),
    {
        match self {
            NativeData::Bool(value) => if *value { 1 } else { 0 },
            NativeData::Int(value) => *value as u32,
            NativeData::Float(bits) => *bits,
        }
    }
}

} // verus!
