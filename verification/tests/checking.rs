//! Tests of the prototype bidirectional checker over the annotated
//! calculus.
use lofer_lang::type_system::{type_check, ErrorPath, TypeCheckError};
use lofer_lang::typed::{
    apply, bool, bool_elim_fn, ff, fix_fn, if_then_else, if_then_else_fn, lambda, pair, pair_fn,
    pi, point, sigma, tt, uncurry_fn, unit, var, void, Expression,
};
use lofer_lang::untyped;

fn s(x: &str) -> String {
    x.to_string()
}

fn checks_to(before: Expression, after: Expression) {
    let mut ctx = Vec::new();
    let result = type_check(&mut ctx, &before);
    assert_eq!(result, Ok(after.convert()));
    assert_eq!(ctx, vec![]);
}

fn fails_with(before: Expression, err: TypeCheckError) {
    let mut ctx = Vec::new();
    let result = type_check(&mut ctx, &before);
    assert_eq!(result, Err(err));
    assert_eq!(ctx, vec![]);
}

#[test]
fn discrete_type_checking() {
    checks_to(point(), unit());
    checks_to(tt(), bool());
    checks_to(ff(), bool());
    checks_to(
        if_then_else(tt(), point(), point(), unit()),
        apply(lambda(s("_"), bool(), unit()), tt()),
    );
    fails_with(
        if_then_else(point(), tt(), tt(), bool()),
        TypeCheckError {
            path: vec![ErrorPath::InArgument],
            expected: bool().convert(),
            actual: unit().convert(),
        },
    );
    fails_with(
        if_then_else(tt(), tt(), point(), bool()),
        TypeCheckError {
            path: vec![ErrorPath::InArgument, ErrorPath::InFunction],
            expected: apply(lambda(s("_"), bool(), bool()), ff()).convert(),
            actual: unit().convert(),
        },
    );
}

#[test]
fn function_type_checking() {
    checks_to(
        lambda(s("x"), unit(), var(s("x"))),
        pi(s("_"), unit(), unit()),
    );
    checks_to(apply(lambda(s("_"), bool(), point()), tt()), unit());
    fails_with(
        apply(lambda(s("_"), bool(), point()), point()),
        TypeCheckError {
            path: vec![ErrorPath::InArgument],
            expected: bool().convert(),
            actual: unit().convert(),
        },
    );
    fails_with(
        apply(point(), tt()),
        TypeCheckError {
            path: vec![ErrorPath::InFunction],
            expected: pi(s("_"), bool(), unit()).convert(),
            actual: unit().convert(),
        },
    );
}

#[test]
fn pair_type_checking() {
    checks_to(
        pair(point(), tt(), unit(), bool()),
        sigma(s("_"), unit(), bool()),
    );
    checks_to(
        uncurry_fn(void(), unit(), bool()),
        pi(
            s("_"),
            pi(s("_"), void(), pi(s("_"), unit(), bool())),
            pi(s("_"), sigma(s("_"), void(), unit()), bool()),
        ),
    );
}

/// This prototype synthesizes types for eliminator constants without
/// validating their annotations; these checks record that behaviour.
#[test]
fn annotation_checks() {
    // `()` is not a type, but the pair introduction constant still gets
    // a function type built from it
    let mut ctx = Vec::new();
    let r = type_check(&mut ctx, &pair_fn(point(), point()));
    assert!(r.is_ok());
    assert_eq!(ctx, vec![]);

    let mut ctx = Vec::new();
    let r = type_check(&mut ctx, &lambda(s("_"), point(), point()));
    assert_eq!(
        r,
        Ok(untyped::pi(untyped::point(), untyped::unit())),
    );
    assert_eq!(ctx, vec![]);

    let mut ctx = Vec::new();
    let r = type_check(&mut ctx, &if_then_else_fn(point()));
    assert!(r.is_ok());
    assert_eq!(ctx, vec![]);
}

/// The fixpoint operator types as `(a -> a) -> a`.
#[test]
fn inductive_types() {
    checks_to(
        fix_fn(bool()),
        pi(s("_"), pi(s("_"), bool(), bool()), bool()),
    );
}

/// Compiled reduction: a redex in the annotated calculus reduces to its
/// contractum.
#[test]
fn typed_reduction() {
    let redex = apply(lambda(s("x"), bool(), var(s("x"))), tt());
    assert!(redex.reduces_to(&tt()));
    assert!(!redex.reduces_to(&ff()));
}

/// The context is restored around every check, and bindings shadow
/// outer ones by name.
#[test]
fn variable_management() {
    let mut ctx = Vec::new();
    let _ = type_check(&mut ctx, &point());
    assert_eq!(ctx, vec![]);

    // \x: Unit -> \y: Bool -> <y, x>
    checks_to(
        lambda(
            s("x"),
            unit(),
            lambda(
                s("y"),
                bool(),
                pair(var(s("y")), var(s("x")), bool(), unit()),
            ),
        ),
        // Unit -> Bool -> Bool * Unit
        pi(s("_"), unit(), pi(s("_"), bool(), sigma(s("_"), bool(), unit()))),
    );
}

fn fam() -> Expression {
    lambda(s("b"), bool(), bool())
}

/// Value-dependent typing reachable in this prototype: the boolean
/// eliminator's result type is its output family applied to the
/// scrutinee.  Families that reference binders outside the annotation
/// are excluded: this checker compiles annotations in an empty scope.
#[test]
fn dependent_types() {
    // the type of the conditional is the family applied to the condition
    checks_to(
        if_then_else(tt(), tt(), ff(), bool()),
        apply(lambda(s("_"), bool(), bool()), tt()),
    );
    // the eliminator's general type mentions the scrutinized variable
    checks_to(
        bool_elim_fn(fam()),
        pi(
            s("_"),
            apply(fam(), tt()),
            pi(
                s("_"),
                apply(fam(), ff()),
                pi(s("b"), bool(), apply(fam(), var(s("b")))),
            ),
        ),
    );
}
