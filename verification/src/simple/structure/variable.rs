//! Variables of the simple phase: each has a data type.
use vstd::prelude::*;

use super::{BaseType, DataType};

verus! {

/// A variable and its data type.
pub struct Variable {
    data_type: DataType,
}

impl Variable {
    pub closed spec fn spec_data_type(&self) -> DataType {
        self.data_type
    }

    pub fn new(data_type: DataType) -> (r: Variable)
        ensures
            r.spec_data_type() == data_type,
    {
        Variable { data_type }
    }

    /// A boolean scalar variable.
    pub fn bool() -> (r: Variable)
        ensures
            r.spec_data_type().base == BaseType::Bool,
            r.spec_data_type().dimensions@.len() == 0,
    {
        Self::new(DataType::scalar(BaseType::Bool))
    }

    /// An integer scalar variable.
    pub fn integer() -> (r: Variable)
        ensures
            r.spec_data_type().base == BaseType::Int,
            r.spec_data_type().dimensions@.len() == 0,
    {
        Self::new(DataType::scalar(BaseType::Int))
    }

    /// A float scalar variable.
    pub fn float() -> (r: Variable)
        ensures
            r.spec_data_type().base == BaseType::Float,
            r.spec_data_type().dimensions@.len() == 0,
    {
        Self::new(DataType::scalar(BaseType::Float))
    }

    pub fn borrow_data_type(&self) -> (r: &DataType)
        ensures
            *r == self.spec_data_type(),
    {
        &self.data_type
    }
}

} // verus!
