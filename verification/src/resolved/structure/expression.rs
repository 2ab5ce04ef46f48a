//! Operators and proxy modes of resolved expressions.
use vstd::prelude::*;

verus! {

#[derive(Clone, Copy, Debug, PartialEq, Eq, Structural)]
pub enum UnaryOperator {
    Negate,
    Not,
    BNot,
    Reciprocal,
}

#[derive(Clone, Copy, Debug, PartialEq, Eq, Structural)]
pub enum BinaryOperator {
    Add,
    Subtract,
    Multiply,
    Divide,
    IntDiv,
    Modulo,
    Power,
    And,
    Or,
    Xor,
    BAnd,
    BOr,
    BXor,
    Equal,
    NotEqual,
    LessThan,
    GreaterThan,
    LessThanOrEqual,
    GreaterThanOrEqual,
}

/// How a unary operator is written in programs and listings.
pub open spec fn unary_symbol(op: UnaryOperator) -> Seq<char> {
    match op {
        UnaryOperator::Negate => "-"@,
        UnaryOperator::Not => "not"@,
        UnaryOperator::BNot => "bnot"@,
        UnaryOperator::Reciprocal => "reciprocal of"@,
    }
}

impl UnaryOperator {
    /// How the operator is written in programs and listings.
    pub fn symbol(&self) -> (r: &'static str)
        ensures
            r@ == unary_symbol(*self),
    {
        match self {
            UnaryOperator::Negate => "-",
            UnaryOperator::Not => "not",
            UnaryOperator::BNot => "bnot",
            UnaryOperator::Reciprocal => "reciprocal of",
        }
    }
}

/// How a binary operator is written in programs and listings.
pub open spec fn binary_symbol(op: BinaryOperator) -> Seq<char> {
    match op {
        BinaryOperator::Add => "+"@,
        BinaryOperator::Subtract => "-"@,
        BinaryOperator::Multiply => "*"@,
        BinaryOperator::Divide => "/"@,
        BinaryOperator::IntDiv => "//"@,
        BinaryOperator::Modulo => "%"@,
        BinaryOperator::Power => "**"@,
        BinaryOperator::And => "and"@,
        BinaryOperator::Or => "or"@,
        BinaryOperator::Xor => "xor"@,
        BinaryOperator::BAnd => "band"@,
        BinaryOperator::BOr => "bor"@,
        BinaryOperator::BXor => "bxor"@,
        BinaryOperator::Equal => "=="@,
        BinaryOperator::NotEqual => "!="@,
        BinaryOperator::LessThan => "<"@,
        BinaryOperator::GreaterThan => ">"@,
        BinaryOperator::LessThanOrEqual => "<="@,
        BinaryOperator::GreaterThanOrEqual => ">="@,
    }
}

impl BinaryOperator {
    /// How the operator is written in programs and listings.
    pub fn symbol(&self) -> (r: &'static str)
        ensures
            r@ == binary_symbol(*self),
    {
        match self {
            BinaryOperator::Add => "+",
            BinaryOperator::Subtract => "-",
            BinaryOperator::Multiply => "*",
            BinaryOperator::Divide => "/",
            BinaryOperator::IntDiv => "//",
            BinaryOperator::Modulo => "%",
            BinaryOperator::Power => "**",
            BinaryOperator::And => "and",
            BinaryOperator::Or => "or",
            BinaryOperator::Xor => "xor",
            BinaryOperator::BAnd => "band",
            BinaryOperator::BOr => "bor",
            BinaryOperator::BXor => "bxor",
            BinaryOperator::Equal => "==",
            BinaryOperator::NotEqual => "!=",
            BinaryOperator::LessThan => "<",
            BinaryOperator::GreaterThan => ">",
            BinaryOperator::LessThanOrEqual => "<=",
            BinaryOperator::GreaterThanOrEqual => ">=",
        }
    }
}

/// How a proxied dimension of an expression is read.
#[derive(Clone, Copy, Debug, PartialEq, Eq, Structural)]
pub enum ProxyMode {
    /// Use the original array's dimensions.
    Literal,
    /// Discard the index.
    Discard,
    /// No matter what, use index zero.
    Collapse,
}

} // verus!
