//! Logic operations that label the gates of the logic graph.

use vstd::prelude::*;

verus! {

/// A logic operation with a single operand.
#[derive(Clone, Copy, Debug, PartialEq, Eq, Structural)]
pub enum UnaryOp {
    Not,
}

/// A logic operation with two operands.
#[derive(Clone, Copy, Debug, PartialEq, Eq, Structural)]
pub enum BinaryOp {
    And,
    Or,
    Xor,
}

/// A logic operation without operands (a constant).
#[derive(Clone, Copy, Debug, PartialEq, Eq, Structural)]
pub enum ConstOp {
    Unit,
    Zero,
}

/// Any logic operation.
#[derive(Clone, Copy, Debug, PartialEq, Eq, Structural)]
pub enum AnyOp {
    Unary(UnaryOp),
    Binary(BinaryOp),
    Const(ConstOp),
    Mux,
}

impl AnyOp {
    /// The number of operands the operation takes.
    pub open spec fn arity(self) -> nat {
        match self {
            AnyOp::Unary(_) => 1,
            AnyOp::Binary(_) => 2,
            AnyOp::Const(_) => 0,
            AnyOp::Mux => 3,
        }
    }

    pub fn not() -> (r: Self)
        ensures
            r == AnyOp::Unary(UnaryOp::Not),
    {
        Self::from(UnaryOp::Not)
    }

    pub fn and() -> (r: Self)
        ensures
            r == AnyOp::Binary(BinaryOp::And),
    {
        Self::from(BinaryOp::And)
    }

    pub fn or() -> (r: Self)
        ensures
            r == AnyOp::Binary(BinaryOp::Or),
    {
        Self::from(BinaryOp::Or)
    }

    pub fn xor() -> (r: Self)
        ensures
            r == AnyOp::Binary(BinaryOp::Xor),
    {
        Self::from(BinaryOp::Xor)
    }

    pub fn unit() -> (r: Self)
        ensures
            r == AnyOp::Const(ConstOp::Unit),
    {
        Self::from(ConstOp::Unit)
    }

    pub fn zero() -> (r: Self)
        ensures
            r == AnyOp::Const(ConstOp::Zero),
    {
        Self::from(ConstOp::Zero)
    }

    pub fn mux() -> (r: Self)
        ensures
            r == AnyOp::Mux,
    {
        AnyOp::Mux
    }
}

impl From<UnaryOp> for AnyOp {
    fn from(op: UnaryOp) -> (r: Self) {
        AnyOp::Unary(op)
    }
}

impl vstd::std_specs::convert::FromSpecImpl<UnaryOp> for AnyOp {
    open spec fn obeys_from_spec() -> bool {
        true
    }

    open spec fn from_spec(op: UnaryOp) -> AnyOp {
        AnyOp::Unary(op)
    }
}

impl From<BinaryOp> for AnyOp {
    fn from(op: BinaryOp) -> (r: Self) {
        AnyOp::Binary(op)
    }
}

impl vstd::std_specs::convert::FromSpecImpl<BinaryOp> for AnyOp {
    open spec fn obeys_from_spec() -> bool {
        true
    }

    open spec fn from_spec(op: BinaryOp) -> AnyOp {
        AnyOp::Binary(op)
    }
}

impl From<ConstOp> for AnyOp {
    fn from(op: ConstOp) -> (r: Self) {
        AnyOp::Const(op)
    }
}

impl vstd::std_specs::convert::FromSpecImpl<ConstOp> for AnyOp {
    open spec fn obeys_from_spec() -> bool {
        true
    }

    open spec fn from_spec(op: ConstOp) -> AnyOp {
        AnyOp::Const(op)
    }
}

} // verus!
