//! A variant of the annotated prototype calculus kept for its richer
//! eliminator annotations; only the term formers live here.
use vstd::prelude::*;

verus! {

broadcast use vstd::group_vstd_default;

/// A term with named variables and annotated eliminators.
#[derive(PartialEq, Eq, Debug)]
pub enum Expression {
    Variable { name: String },
    IntroLambda { var_name: String, var_type: Box<Expression>, body: Box<Expression> },
    ElimApplication { function: Box<Expression>, argument: Box<Expression> },
    ElimAbsurd { output_type: Box<Expression> },
    IntroPoint,
    ElimTrivial { predicate: Box<Expression> },
    IntroTT,
    IntroFF,
    ElimIf { out_type: Box<Expression> },
    IntroPair { fst_type: Box<Expression>, snd_type: Box<Expression> },
    ElimUncurry { fst_type: Box<Expression>, snd_type: Box<Expression> },
    IntroType(Box<Type>),
    SpecialFix { output_type: Box<Expression> },
}

/// A type former with named binders.
#[derive(PartialEq, Eq, Debug)]
pub enum Type {
    Void,
    Unit,
    Bool,
    Pi { var_name: String, domain: Box<Expression>, codomain: Box<Expression> },
    Sigma { var_name: String, fst_type: Box<Expression>, snd_type: Box<Expression> },
    Universe,
}

/// A named variable.
pub fn var(name: String) -> (r: Expression)
    ensures
        r == (Expression::Variable { name }),
{
    Expression::Variable { name }
}

/// A lambda abstraction with a named, typed parameter.
pub fn lambda(var_name: String, var_type: Expression, body: Expression) -> (r: Expression)
    ensures
        r == (Expression::IntroLambda {
            var_name,
            var_type: Box::new(var_type),
            body: Box::new(body),
        }),
{
    let var_type = Box::new(var_type);
    let body = Box::new(body);
    Expression::IntroLambda { var_name, var_type, body }
}

/// An application node.
pub fn apply(function: Expression, argument: Expression) -> (r: Expression)
    ensures
        r == (Expression::ElimApplication {
            function: Box::new(function),
            argument: Box::new(argument),
        }),
{
    let function = Box::new(function);
    let argument = Box::new(argument);
    Expression::ElimApplication { function, argument }
}

/// The empty-type eliminator applied to its scrutinee.
pub fn absurd(void: Expression, output_type: Expression) -> (r: Expression)
    ensures
        r == (Expression::ElimApplication {
            function: Box::new((Expression::ElimAbsurd { output_type: Box::new(output_type) })),
            argument: Box::new(void),
        }),
{
    apply(absurd_fn(output_type), void)
}

/// The empty-type eliminator.
pub fn absurd_fn(output_type: Expression) -> (r: Expression)
    ensures
        r == (Expression::ElimAbsurd { output_type: Box::new(output_type) }),
{
    let output_type = Box::new(output_type);
    Expression::ElimAbsurd { output_type }
}

/// The point of the unit type.
pub fn point() -> (r: Expression)
    ensures
        r == Expression::IntroPoint,
{
    Expression::IntroPoint
}

/// The unit-type eliminator applied to its case.
pub fn trivial(predicate: Expression, case: Expression) -> (r: Expression)
    ensures
        r == (Expression::ElimApplication {
            function: Box::new((Expression::ElimTrivial { predicate: Box::new(predicate) })),
            argument: Box::new(case),
        }),
{
    apply(trivial_fn(predicate), case)
}

/// The unit-type eliminator.
pub fn trivial_fn(predicate: Expression) -> (r: Expression)
    ensures
        r == (Expression::ElimTrivial { predicate: Box::new(predicate) }),
{
    let predicate = Box::new(predicate);
    Expression::ElimTrivial { predicate }
}

/// The true boolean.
pub fn tt() -> (r: Expression)
    ensures
        r == Expression::IntroTT,
{
    Expression::IntroTT
}

/// The false boolean.
pub fn ff() -> (r: Expression)
    ensures
        r == Expression::IntroFF,
{
    Expression::IntroFF
}

/// The boolean eliminator applied to both branches and the condition.
pub fn if_then_else(
    condition: Expression,
    tt_branch: Expression,
    ff_branch: Expression,
    out_type: Expression,
) -> (r: Expression)
    ensures
        r == (Expression::ElimApplication {
            function: Box::new(
                (Expression::ElimApplication {
                    function: Box::new(
                        (Expression::ElimApplication {
                            function: Box::new(
                                (Expression::ElimIf { out_type: Box::new(out_type) }),
                            ),
                            argument: Box::new(tt_branch),
                        }),
                    ),
                    argument: Box::new(ff_branch),
                }),
            ),
            argument: Box::new(condition),
        }),
{
    let result = if_then_else_fn(out_type);
    let result = apply(result, tt_branch);
    let result = apply(result, ff_branch);
    let result = apply(result, condition);
    result
}

/// The boolean eliminator with its output type.
pub fn if_then_else_fn(out_type: Expression) -> (r: Expression)
    ensures
        r == (Expression::ElimIf { out_type: Box::new(out_type) }),
{
    let out_type = Box::new(out_type);
    Expression::ElimIf { out_type }
}

/// A fully-applied pair introduction.
pub fn pair(fst: Expression, snd: Expression, fst_type: Expression, snd_type: Expression) -> (r:
    Expression)
    ensures
        r == (Expression::ElimApplication {
            function: Box::new(
                (Expression::ElimApplication {
                    function: Box::new(
                        (Expression::IntroPair {
                            fst_type: Box::new(fst_type),
                            snd_type: Box::new(snd_type),
                        }),
                    ),
                    argument: Box::new(fst),
                }),
            ),
            argument: Box::new(snd),
        }),
{
    let result = pair_fn(fst_type, snd_type);
    let result = apply(result, fst);
    let result = apply(result, snd);
    result
}

/// The pair introduction constant with its component types.
pub fn pair_fn(fst_type: Expression, snd_type: Expression) -> (r: Expression)
    ensures
        r == (Expression::IntroPair {
            fst_type: Box::new(fst_type),
            snd_type: Box::new(snd_type),
        }),
{
    let fst_type = Box::new(fst_type);
    let snd_type = Box::new(snd_type);
    Expression::IntroPair { fst_type, snd_type }
}

/// The dependent-pair eliminator applied to a pair.
pub fn uncurry(pair: Expression, fst_type: Expression, snd_type: Expression) -> (r: Expression)
    ensures
        r == (Expression::ElimApplication {
            function: Box::new(
                (Expression::ElimUncurry {
                    fst_type: Box::new(fst_type),
                    snd_type: Box::new(snd_type),
                }),
            ),
            argument: Box::new(pair),
        }),
{
    apply(uncurry_fn(fst_type, snd_type), pair)
}

/// The dependent-pair eliminator with its component types.
pub fn uncurry_fn(fst_type: Expression, snd_type: Expression) -> (r: Expression)
    ensures
        r == (Expression::ElimUncurry {
            fst_type: Box::new(fst_type),
            snd_type: Box::new(snd_type),
        }),
{
    let fst_type = Box::new(fst_type);
    let snd_type = Box::new(snd_type);
    Expression::ElimUncurry { fst_type, snd_type }
}

/// Wrap a type former as a term.
pub fn simple_type(typ: Type) -> (r: Expression)
    ensures
        r == Expression::IntroType(Box::new(typ)),
{
    let typ = Box::new(typ);
    Expression::IntroType(typ)
}

/// The fixpoint operator applied to a generator.
pub fn fix(output_type: Expression, generator: Expression) -> (r: Expression)
    ensures
        r == (Expression::ElimApplication {
            function: Box::new((Expression::SpecialFix { output_type: Box::new(output_type) })),
            argument: Box::new(generator),
        }),
{
    apply(fix_fn(output_type), generator)
}

/// The fixpoint operator.
pub fn fix_fn(output_type: Expression) -> (r: Expression)
    ensures
        r == (Expression::SpecialFix { output_type: Box::new(output_type) }),
{
    let output_type = Box::new(output_type);
    Expression::SpecialFix { output_type }
}

/// The empty type.
pub fn void() -> (r: Expression)
    ensures
        r == Expression::IntroType(Box::new(Type::Void)),
{
    simple_type(Type::Void)
}

/// The unit type.
pub fn unit() -> (r: Expression)
    ensures
        r == Expression::IntroType(Box::new(Type::Unit)),
{
    simple_type(Type::Unit)
}

/// The type of booleans.
pub fn bool() -> (r: Expression)
    ensures
        r == Expression::IntroType(Box::new(Type::Bool)),
{
    simple_type(Type::Bool)
}

/// A dependent function type with a named binder.
pub fn pi(var_name: String, domain: Expression, codomain: Expression) -> (r: Expression)
    ensures
        r == Expression::IntroType(
            Box::new(
                (Type::Pi { var_name, domain: Box::new(domain), codomain: Box::new(codomain) }),
            ),
        ),
{
    let domain = Box::new(domain);
    let codomain = Box::new(codomain);
    let out = Type::Pi { var_name, domain, codomain };
    simple_type(out)
}

/// A dependent pair type with a named binder.
pub fn sigma(var_name: String, fst_type: Expression, snd_type: Expression) -> (r: Expression)
    ensures
        r == Expression::IntroType(
            Box::new(
                (Type::Sigma {
                    var_name,
                    fst_type: Box::new(fst_type),
                    snd_type: Box::new(snd_type),
                }),
            ),
        ),
{
    let fst_type = Box::new(fst_type);
    let snd_type = Box::new(snd_type);
    let out = Type::Sigma { var_name, fst_type, snd_type };
    simple_type(out)
}

/// The universe.
pub fn universe() -> (r: Expression)
    ensures
        r == Expression::IntroType(Box::new(Type::Universe)),
{
    simple_type(Type::Universe)
}

} // verus!
