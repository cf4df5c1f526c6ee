use vstd::prelude::*;
use crate::typing::{binary_result, AuroraType};

verus! {

/// The binary operators.
#[derive(Clone, Copy, Debug, PartialEq, Eq, Structural)]
pub enum BinaryOp {
    LessThan,
    Minus,
    Plus,
    Times,
    Equal,
}

/// The kinds of expression. Control flow is not part of the language yet.
#[derive(Debug)]
pub enum ExprType {
    Binary(BinaryOp, Box<Expr>, Box<Expr>),
    Call(String, Vec<Expr>),
    Boolean(bool),
    Integer(i64),
    /// A float literal, kept as its source text.
    Float(String),
    Let(String, Option<Box<Expr>>),
    Assign(String, Box<Expr>),
    Variable(String),
    Block(Vec<Expr>),
    Return(Option<Box<Expr>>),
}

/// An expression with its attached type.
#[derive(Debug)]
pub struct Expr {
    pub expr_type: ExprType,
    pub type_: AuroraType,
}

#[derive(Debug)]
pub struct Function {
    pub prototype: Prototype,
    pub body: Expr,
}

#[derive(Debug)]
pub struct Parameter {
    pub name: String,
    pub type_: AuroraType,
}

#[derive(Debug)]
pub struct Prototype {
    pub function_name: String,
    pub parameters: Vec<Parameter>,
    pub return_type: AuroraType,
}

/// Every node carries a type other than `Any`; a binary node carries the
/// type of its left operand, or `f64` when its operands are floats of two
/// widths; `let`, assignment and `return` carry the type
/// of the value they hold, and a `return` without one carries `Void`.
pub open spec fn typed(e: Expr) -> bool
    decreases e,
{
    e.type_ != AuroraType::Any && match e.expr_type {
        ExprType::Binary(_, l, r) => typed(*l) && typed(*r) && e.type_ == binary_result(
            l.type_,
            r.type_,
        ),
        ExprType::Call(_, args) => forall|i: int| 0 <= i < args.len() ==> typed(#[trigger] args[i]),
        ExprType::Let(_, Some(x)) => typed(*x) && e.type_ == x.type_,
        ExprType::Assign(_, x) => typed(*x) && e.type_ == x.type_,
        ExprType::Block(es) => forall|i: int| 0 <= i < es.len() ==> typed(#[trigger] es[i]),
        ExprType::Return(Some(x)) => typed(*x) && e.type_ == x.type_,
        ExprType::Return(None) => e.type_ == AuroraType::Void,
        _ => true,
    }
}

/// A parameter list with no name twice and no parameter of type `Any` or
/// `Void`.
pub open spec fn params_ok(ps: Seq<Parameter>) -> bool {
    &&& forall|i: int, j: int| 0 <= i < j < ps.len() ==> ps[i].name@ != ps[j].name@
    &&& forall|i: int|
        0 <= i < ps.len() ==> ps[i].type_ != AuroraType::Any && ps[i].type_ != AuroraType::Void
}

} // verus!
