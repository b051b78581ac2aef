//! A later prototype calculus with explicit eliminator nodes: `if` with
//! an output family, pairs with an annotated second-component type,
//! projections and a fixpoint node.  Variables are de Bruijn indices
//! counted from the innermost binder.
use vstd::prelude::*;

verus! {

broadcast use vstd::group_vstd_default;

/// A term of the prototype calculus.
#[derive(PartialEq, Eq, Debug)]
pub enum Expression {
    Variable(usize),
    IntroPoint,
    IntroTT,
    IntroFF,
    ElimIf {
        condition: Box<Expression>,
        tt_branch: Box<Expression>,
        ff_branch: Box<Expression>,
        out_type: Box<Expression>,
    },
    IntroLambda { in_type: Box<Expression>, body: Box<Expression> },
    ElimApplication { function: Box<Expression>, argument: Box<Expression> },
    IntroPair { fst: Box<Expression>, snd: Box<Expression>, snd_type: Box<Expression> },
    ElimFst { pair: Box<Expression> },
    ElimSnd { pair: Box<Expression> },
    IntroType(Box<Type>),
    SpecialFix { generator: Box<Expression> },
}

/// A type former of the prototype calculus.
#[derive(PartialEq, Eq, Debug)]
pub enum Type {
    Void,
    Unit,
    Bool,
    Pi { domain: Box<Expression>, codomain: Box<Expression> },
    Sigma { fst_type: Box<Expression>, snd_type: Box<Expression> },
    Universe,
}

impl Clone for Expression {
    /// A deep copy equal to the original.
    fn clone(&self) -> (r: Expression)
        ensures
            r == *self,
        decreases *self,
    {
        match self {
            Expression::Variable(n) => Expression::Variable(*n),
            Expression::IntroPoint => Expression::IntroPoint,
            Expression::IntroTT => Expression::IntroTT,
            Expression::IntroFF => Expression::IntroFF,
            Expression::ElimIf { condition, tt_branch, ff_branch, out_type } => {
                (Expression::ElimIf {
                    condition: Box::new((**condition).clone()),
                    tt_branch: Box::new((**tt_branch).clone()),
                    ff_branch: Box::new((**ff_branch).clone()),
                    out_type: Box::new((**out_type).clone()),
                })
            },
            Expression::IntroLambda { in_type, body } => (Expression::IntroLambda {
                in_type: Box::new((**in_type).clone()),
                body: Box::new((**body).clone()),
            }),
            Expression::ElimApplication { function, argument } => (Expression::ElimApplication {
                function: Box::new((**function).clone()),
                argument: Box::new((**argument).clone()),
            }),
            Expression::IntroPair { fst, snd, snd_type } => (Expression::IntroPair {
                fst: Box::new((**fst).clone()),
                snd: Box::new((**snd).clone()),
                snd_type: Box::new((**snd_type).clone()),
            }),
            Expression::ElimFst { pair } => (Expression::ElimFst {
                pair: Box::new((**pair).clone()),
            }),
            Expression::ElimSnd { pair } => (Expression::ElimSnd {
                pair: Box::new((**pair).clone()),
            }),
            Expression::IntroType(t) => Expression::IntroType(Box::new((**t).clone())),
            Expression::SpecialFix { generator } => (Expression::SpecialFix {
                generator: Box::new((**generator).clone()),
            }),
        }
    }
}

impl Clone for Type {
    fn clone(&self) -> (r: Type)
        ensures
            r == *self,
        decreases *self,
    {
        match self {
            Type::Void => Type::Void,
            Type::Unit => Type::Unit,
            Type::Bool => Type::Bool,
            Type::Pi { domain, codomain } => (Type::Pi {
                domain: Box::new((**domain).clone()),
                codomain: Box::new((**codomain).clone()),
            }),
            Type::Sigma { fst_type, snd_type } => (Type::Sigma {
                fst_type: Box::new((**fst_type).clone()),
                snd_type: Box::new((**snd_type).clone()),
            }),
            Type::Universe => Type::Universe,
        }
    }
}

/// A variable, counted from the innermost binder.
pub fn var(n: usize) -> (r: Expression)
    ensures
        r == Expression::Variable(n),
{
    Expression::Variable(n)
}

/// The point of the unit type.
pub fn point() -> (r: Expression)
    ensures
        r == Expression::IntroPoint,
{
    Expression::IntroPoint
}

/// The true boolean.
pub fn tt() -> (r: Expression)
    ensures
        r == Expression::IntroTT,
{
    Expression::IntroTT
}

/// The false boolean.
pub fn ff() -> (r: Expression)
    ensures
        r == Expression::IntroFF,
{
    Expression::IntroFF
}

/// A boolean eliminator node with an explicit output type.
pub fn if_then_else(
    condition: Expression,
    tt_branch: Expression,
    ff_branch: Expression,
    out_type: Expression,
) -> (r: Expression)
    ensures
        r == (Expression::ElimIf {
            condition: Box::new(condition),
            tt_branch: Box::new(tt_branch),
            ff_branch: Box::new(ff_branch),
            out_type: Box::new(out_type),
        }),
{
    let condition = Box::new(condition);
    let tt_branch = Box::new(tt_branch);
    let ff_branch = Box::new(ff_branch);
    let out_type = Box::new(out_type);
    Expression::ElimIf { condition, tt_branch, ff_branch, out_type }
}

/// A lambda abstraction with an annotated domain.
pub fn lambda(in_type: Expression, body: Expression) -> (r: Expression)
    ensures
        r == (Expression::IntroLambda { in_type: Box::new(in_type), body: Box::new(body) }),
{
    let in_type = Box::new(in_type);
    let body = Box::new(body);
    Expression::IntroLambda { in_type, body }
}

/// An application node.
pub fn apply(function: Expression, argument: Expression) -> (r: Expression)
    ensures
        r == (Expression::ElimApplication {
            function: Box::new(function),
            argument: Box::new(argument),
        }),
{
    let function = Box::new(function);
    let argument = Box::new(argument);
    Expression::ElimApplication { function, argument }
}

/// A pair with an annotated second-component type.
pub fn pair(fst: Expression, snd: Expression, snd_type: Expression) -> (r: Expression)
    ensures
        r == (Expression::IntroPair {
            fst: Box::new(fst),
            snd: Box::new(snd),
            snd_type: Box::new(snd_type),
        }),
{
    let fst = Box::new(fst);
    let snd = Box::new(snd);
    let snd_type = Box::new(snd_type);
    Expression::IntroPair { fst, snd, snd_type }
}

/// First projection.
pub fn fst(pair: Expression) -> (r: Expression)
    ensures
        r == (Expression::ElimFst { pair: Box::new(pair) }),
{
    let pair = Box::new(pair);
    Expression::ElimFst { pair }
}

/// Second projection.
pub fn snd(pair: Expression) -> (r: Expression)
    ensures
        r == (Expression::ElimSnd { pair: Box::new(pair) }),
{
    let pair = Box::new(pair);
    Expression::ElimSnd { pair }
}

/// Wrap a type former as a term.
pub fn simple_type(typ: Type) -> (r: Expression)
    ensures
        r == Expression::IntroType(Box::new(typ)),
{
    let typ = Box::new(typ);
    Expression::IntroType(typ)
}

/// The fixpoint node.
pub fn fix(generator: Expression) -> (r: Expression)
    ensures
        r == (Expression::SpecialFix { generator: Box::new(generator) }),
{
    let generator = Box::new(generator);
    Expression::SpecialFix { generator }
}

/// The empty type.
pub fn void() -> (r: Expression)
    ensures
        r == Expression::IntroType(Box::new(Type::Void)),
{
    simple_type(Type::Void)
}

/// The unit type.
pub fn unit() -> (r: Expression)
    ensures
        r == Expression::IntroType(Box::new(Type::Unit)),
{
    simple_type(Type::Unit)
}

/// The type of booleans.
pub fn bool() -> (r: Expression)
    ensures
        r == Expression::IntroType(Box::new(Type::Bool)),
{
    simple_type(Type::Bool)
}

/// A dependent function type.
pub fn pi(domain: Expression, codomain: Expression) -> (r: Expression)
    ensures
        r == Expression::IntroType(
            Box::new((Type::Pi { domain: Box::new(domain), codomain: Box::new(codomain) })),
        ),
{
    let domain = Box::new(domain);
    let codomain = Box::new(codomain);
    let out = Type::Pi { domain, codomain };
    simple_type(out)
}

/// A dependent pair type.
pub fn sigma(fst_type: Expression, snd_type: Expression) -> (r: Expression)
    ensures
        r == Expression::IntroType(
            Box::new((Type::Sigma { fst_type: Box::new(fst_type), snd_type: Box::new(snd_type) })),
        ),
{
    let fst_type = Box::new(fst_type);
    let snd_type = Box::new(snd_type);
    let out = Type::Sigma { fst_type, snd_type };
    simple_type(out)
}

/// The universe.
pub fn universe() -> (r: Expression)
    ensures
        r == Expression::IntroType(Box::new(Type::Universe)),
{
    simple_type(Type::Universe)
}

} // verus!
