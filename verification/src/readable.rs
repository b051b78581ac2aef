//! The surface tree of the prototype pipeline: programs read line by
//! line, with indentation giving each program its associated
//! subprograms.  The display layer that renders these trees is outside
//! the verified core.
use vstd::prelude::*;

verus! {

/// A function with its associated subprograms.
pub struct Program {
    pub output: Function,
    pub associated: Vec<Program>,
}

/// One surface line.
pub enum Line {
    Function(Function),
    Annotation(Annotation),
}

/// A named definition with annotated parameters and a body.
pub struct Function {
    pub fname: String,
    pub vars: Vec<Annotation>,
    pub body: Expression,
}

/// A name/type annotation.
pub struct Annotation {
    pub name: String,
    pub typ: Expression,
}

/// A head applied to arguments.
pub struct Expression {
    pub head: Box<HeadExpression>,
    pub tail: Vec<Expression>,
}

/// The head of a surface expression: a name, or a builtin.
pub enum HeadExpression {
    Name(String),
    VoidElim(Expression),
    Point,
    UnitElim(Expression),
    True,
    False,
    BoolElim(Expression),
    Pair(Expression, Expression),
    SigmaElim(Expression, Expression, Expression),
    Void,
    Unit,
    Bool,
    Sigma(String, Expression, Expression),
    Pi(String, Expression, Expression),
    Type,
    Fix(Expression),
}

} // verus!
