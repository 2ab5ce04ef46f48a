//! The data model of the simple phase, which shares its data types with
//! the resolved phase.
pub mod program;
pub mod variable;

pub use crate::resolved::structure::{BaseType, DataType};
pub use program::{ScopeId, VariableId};
pub use variable::Variable;
