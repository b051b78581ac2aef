//! Tests of the core term model, substitution, evaluation, unification
//! and the elaboration driver.
use lofer_lang::ast;
use lofer_lang::check;
use lofer_lang::eval;
use lofer_lang::globals::{Globals, type_check_all, DEFAULT_FUEL};
use lofer_lang::term::{expr_eq, ElabError, Expr, Ident};
use lofer_lang::unify;

fn bare(h: Ident) -> Expr {
    Expr { arrow_params: vec![], head: h, tail: vec![] }
}

fn universe(l: usize) -> Expr {
    bare(Ident::Universe(l))
}

fn local(i: usize) -> Expr {
    bare(Ident::Local(i))
}

fn global(i: usize) -> Expr {
    bare(Ident::Global(i))
}

fn alg(head: &str, tail: Vec<ast::Expr>) -> ast::Expr {
    ast::Expr::Alg(ast::AlgExpr { head: head.to_string(), tail })
}

fn arrow(params: Vec<(Option<&str>, ast::Expr)>, output: ast::Expr) -> ast::Expr {
    ast::Expr::Arrow(ast::ArrowExpr {
        params: params
            .into_iter()
            .map(|(n, e)| (n.map(|s| s.to_string()), e))
            .collect(),
        output: Box::new(output),
    })
}

fn item(name: &str, is_post: bool, typ: ast::Expr, def: Option<(&str, Vec<&str>, ast::Expr)>) -> ast::Item {
    ast::Item {
        annotation: Some(ast::Annotation { is_post, name: name.to_string(), typ }),
        definition: def.map(|(fname, vars, body)| ast::Function {
            fname: fname.to_string(),
            vars: vars.into_iter().map(|v| v.to_string()).collect(),
            body,
        }),
        associated: vec![],
    }
}

/// Substituting an empty argument list with the window at the context
/// boundary reproduces the expression.
#[test]
fn substitution_identity() {
    // Pi x: U0, x applied to a local: well-scoped at size 2
    let e = Expr {
        arrow_params: vec![universe(0), local(2)],
        head: Ident::Local(1),
        tail: vec![local(0), local(3)],
    };
    let r = eval::subst(&e, 2, 2, &[], 2).unwrap();
    assert!(expr_eq(&r, &e));
}

/// Evaluating an evaluated expression changes nothing.
#[test]
fn evaluation_idempotent() {
    // g0 : postulate, g1 has def with one parameter returning its argument
    let defs = vec![
        lofer_lang::globals::Item { ty: universe(0), def: None },
        lofer_lang::globals::Item {
            ty: Expr { arrow_params: vec![global(0)], head: Ident::Global(0), tail: vec![] },
            def: Some((1, local(0))),
        },
    ];
    let e = Expr { arrow_params: vec![], head: Ident::Global(1), tail: vec![global(0)] };
    let once = eval::eval(&defs, &e, 0, 1000).unwrap();
    let twice = eval::eval(&defs, &once, 0, 1000).unwrap();
    assert!(expr_eq(&once, &twice));
    // the definition unfolded to its argument
    assert!(expr_eq(&once, &global(0)));
}

/// A metavariable-free expression unifies with itself without touching
/// the table.
#[test]
fn unification_reflexive() {
    let e = Expr {
        arrow_params: vec![universe(0), local(0)],
        head: Ident::Local(1),
        tail: vec![local(2), universe(3)],
    };
    let mut metas: Vec<unify::Meta> = Vec::new();
    let m = unify::meta(&mut metas);
    assert!(matches!(m.head, Ident::Meta(0, 0)));
    let before = metas.len();
    let r = unify::unify(&mut metas, e.clone(), e.clone(), 1000);
    assert!(r.is_ok());
    assert_eq!(metas.len(), before);
    assert!(metas[0].solution.is_none());
}

/// Unifying a fresh metavariable against an expression containing it
/// fails the occurs check.
#[test]
fn occurs_check() {
    let mut metas: Vec<unify::Meta> = Vec::new();
    let m = unify::meta(&mut metas);
    // an application whose argument mentions the same metavariable
    let e = Expr { arrow_params: vec![], head: Ident::Local(0), tail: vec![m.clone()] };
    let r = unify::unify(&mut metas, m, e, 1000);
    assert!(matches!(r, Err(ElabError::UnificationFailure)));

    // the same metavariable applied to arguments also contains it
    let mut metas2: Vec<unify::Meta> = Vec::new();
    let m2 = unify::meta(&mut metas2);
    let applied = Expr { arrow_params: vec![], head: m2.head, tail: vec![universe(0)] };
    let r2 = unify::unify(&mut metas2, m2, applied, 1000);
    assert!(matches!(r2, Err(ElabError::UnificationFailure)));

    // only the bare metavariable against itself holds trivially
    let mut metas3: Vec<unify::Meta> = Vec::new();
    let m3 = unify::meta(&mut metas3);
    let m3b = m3.clone();
    assert!(unify::unify(&mut metas3, m3, m3b, 1000).is_ok());
    assert!(metas3[0].solution.is_none());
}

/// An arrow-typed argument spliced into a head position that already
/// carries trailing arguments is rejected.
#[test]
fn arrow_into_applied_head() {
    let base = Expr { arrow_params: vec![], head: Ident::Local(0), tail: vec![local(5)] };
    let arrow_arg = Expr { arrow_params: vec![universe(0)], head: Ident::Universe(0), tail: vec![] };
    let r = eval::subst(&base, 0, 0, &[arrow_arg], 3);
    assert!(matches!(r, Err(ElabError::ArityMismatch)));
}

/// The identity function type-checks and is stored with its two
/// parameters and its body.
#[test]
fn scenario_identity() {
    let mut globals = Globals::new();
    let programs = vec![item(
        "identity",
        false,
        arrow(
            vec![(Some("A"), alg("U0", vec![])), (Some("x"), alg("A", vec![]))],
            alg("A", vec![]),
        ),
        Some(("identity", vec!["A", "x"], alg("x", vec![]))),
    )];
    type_check_all(&mut globals, programs).unwrap();
    assert_eq!(globals.names.len(), 1);
    let it = &globals.defs[0];
    // Pi A: U0, Pi x: A, A  with locals numbered by absolute position
    let expected_ty = Expr {
        arrow_params: vec![universe(0), local(0)],
        head: Ident::Local(0),
        tail: vec![],
    };
    assert!(expr_eq(&it.ty, &expected_ty));
    let (param_count, body) = it.def.as_ref().unwrap();
    assert_eq!(*param_count, 2);
    assert!(expr_eq(body, &local(1)));
}

/// Evaluating a fully-applied global definition unfolds it and
/// substitutes the argument.
#[test]
fn scenario_unfolds_global() {
    let mut globals = Globals::new();
    let programs = vec![
        item("Bool", true, alg("U0", vec![]), None),
        item("tt", true, alg("Bool", vec![]), None),
        item(
            "f",
            false,
            arrow(vec![(Some("x"), alg("Bool", vec![]))], alg("Bool", vec![])),
            Some(("f", vec!["x"], alg("x", vec![]))),
        ),
    ];
    type_check_all(&mut globals, programs).unwrap();
    // f tt
    let e = Expr { arrow_params: vec![], head: Ident::Global(2), tail: vec![global(1)] };
    let r = eval::eval(&globals.defs, &e, 0, 1000).unwrap();
    assert!(expr_eq(&r, &global(1)));
}

/// An overload group of two: the unique fitting candidate is chosen, and
/// an argument fitting neither fails.
#[test]
fn scenario_overloads() {
    let mut globals = Globals::new();
    let programs = vec![
        item("Bool", true, alg("U0", vec![]), None),
        item("Unit", true, alg("U0", vec![]), None),
        item("tt", true, alg("Bool", vec![]), None),
        item(
            "idBool",
            false,
            arrow(vec![(Some("x"), alg("Bool", vec![]))], alg("Bool", vec![])),
            Some(("id", vec!["x"], alg("x", vec![]))),
        ),
        item(
            "idUnit",
            false,
            arrow(vec![(Some("x"), alg("Unit", vec![]))], alg("Unit", vec![])),
            Some(("id", vec!["x"], alg("x", vec![]))),
        ),
        // uses the group: resolves uniquely to the Bool candidate
        item(
            "useIt",
            false,
            alg("Bool", vec![]),
            Some(("useIt", vec![], alg("id", vec![alg("tt", vec![])]))),
        ),
    ];
    type_check_all(&mut globals, programs).unwrap();
    let it = &globals.defs[5];
    let (_n, body) = it.def.as_ref().unwrap();
    // the overloaded head was rewritten to the concrete Bool candidate
    assert!(matches!(body.head, Ident::Global(3)));

    // an argument of a third type fits no candidate
    let mut globals2 = Globals::new();
    let programs2 = vec![
        item("Bool", true, alg("U0", vec![]), None),
        item("Unit", true, alg("U0", vec![]), None),
        item("Nat", true, alg("U0", vec![]), None),
        item("n0", true, alg("Nat", vec![]), None),
        item(
            "idBool",
            false,
            arrow(vec![(Some("x"), alg("Bool", vec![]))], alg("Bool", vec![])),
            Some(("id", vec!["x"], alg("x", vec![]))),
        ),
        item(
            "idUnit",
            false,
            arrow(vec![(Some("x"), alg("Unit", vec![]))], alg("Unit", vec![])),
            Some(("id", vec!["x"], alg("x", vec![]))),
        ),
        item(
            "bad",
            false,
            alg("Nat", vec![]),
            Some(("bad", vec![], alg("id", vec![alg("n0", vec![])]))),
        ),
    ];
    let r = type_check_all(&mut globals2, programs2);
    assert!(matches!(r, Err(ElabError::OverloadFailure)));
}

/// A placeholder is forced to a concrete solution, and the finalized
/// solution is substituted into what is stored.
#[test]
fn scenario_placeholder_solved() {
    let mut globals = Globals::new();
    let programs = vec![
        item("Bool", true, alg("U0", vec![]), None),
        item("tt", true, alg("Bool", vec![]), None),
        item(
            "identity",
            false,
            arrow(
                vec![(Some("A"), alg("U0", vec![])), (Some("x"), alg("A", vec![]))],
                alg("A", vec![]),
            ),
            Some(("identity", vec!["A", "x"], alg("x", vec![]))),
        ),
        // q : Bool;  q = identity _ tt  -- the placeholder must become Bool
        item(
            "q",
            false,
            alg("Bool", vec![]),
            Some(("q", vec![], alg("identity", vec![alg("_", vec![]), alg("tt", vec![])]))),
        ),
    ];
    type_check_all(&mut globals, programs).unwrap();
    let it = &globals.defs[3];
    let (_n, body) = it.def.as_ref().unwrap();
    // identity Bool tt, with the metavariable replaced by Bool
    assert!(matches!(body.head, Ident::Global(2)));
    assert_eq!(body.tail.len(), 2);
    assert!(expr_eq(&body.tail[0], &global(0)));
    assert!(expr_eq(&body.tail[1], &global(1)));
}

/// A declaration whose body does not fit its annotation is rejected with
/// the conflicting types.
#[test]
fn type_mismatch_reported() {
    let mut globals = Globals::new();
    let programs = vec![
        item("Bool", true, alg("U0", vec![]), None),
        item("Unit", true, alg("U0", vec![]), None),
        item("tt", true, alg("Bool", vec![]), None),
        item(
            "wrong",
            false,
            alg("Unit", vec![]),
            Some(("wrong", vec![], alg("tt", vec![]))),
        ),
    ];
    let r = type_check_all(&mut globals, programs);
    match r {
        Err(ElabError::TypeMismatch { expected, actual }) => {
            assert!(expr_eq(&expected, &global(1)));
            assert!(expr_eq(&actual, &global(0)));
        },
        other => panic!("expected a type mismatch, got {:?}", other.is_ok()),
    }
}

/// An unresolved name is reported as such.
#[test]
fn name_not_found() {
    let mut globals = Globals::new();
    let programs = vec![item("x", true, alg("Missing", vec![]), None)];
    let r = type_check_all(&mut globals, programs);
    assert!(matches!(r, Err(ElabError::NameNotFound)));
}

/// An annotation that is not a universe element is rejected.
#[test]
fn not_a_universe() {
    let mut globals = Globals::new();
    let programs = vec![
        item("Bool", true, alg("U0", vec![]), None),
        item("tt", true, alg("Bool", vec![]), None),
        // the annotation `tt` is a term, not a type
        item("bad", true, alg("tt", vec![]), None),
    ];
    let r = type_check_all(&mut globals, programs);
    assert!(matches!(r, Err(ElabError::NotAUniverse)));
}

/// Applying a universe to arguments is an arity error.
#[test]
fn universe_applied() {
    let mut globals = Globals::new();
    let programs = vec![item("bad", true, alg("U0", vec![alg("U0", vec![])]), None)];
    let r = type_check_all(&mut globals, programs);
    assert!(matches!(r, Err(ElabError::ArityMismatch)));
}

/// Running out of evaluation fuel reports the resource bound.
#[test]
fn fuel_runs_out() {
    let defs = vec![
        lofer_lang::globals::Item { ty: universe(0), def: None },
        lofer_lang::globals::Item {
            ty: Expr { arrow_params: vec![global(0)], head: Ident::Global(0), tail: vec![] },
            def: Some((1, local(0))),
        },
    ];
    let e = Expr { arrow_params: vec![], head: Ident::Global(1), tail: vec![global(0)] };
    let r = eval::eval(&defs, &e, 0, 0);
    assert!(matches!(r, Err(ElabError::Resource)));
}

/// A universe literal parses; anything else does not.
#[test]
fn universe_literals() {
    let mut globals = Globals::new();
    // U12 : U13 works as an annotation of a postulate
    let programs = vec![item("big", true, alg("U12", vec![]), None)];
    type_check_all(&mut globals, programs).unwrap();
    assert!(expr_eq(&globals.defs[0].ty, &universe(12)));
}

/// The default fuel covers ordinary programs.
#[test]
fn default_fuel_is_generous() {
    assert!(DEFAULT_FUEL > 1000);
    let mut globals = Globals::new();
    let programs = vec![item("T", true, alg("U0", vec![]), None)];
    assert!(type_check_all(&mut globals, programs).is_ok());
    let mut locals = Vec::new();
    let mut metas = Vec::new();
    let r = check::calculate_type(
        &globals.defs,
        &globals.overloads,
        &mut metas,
        &mut locals,
        &global(0),
        DEFAULT_FUEL,
    );
    let (ty, _elab) = r.unwrap();
    assert!(expr_eq(&ty, &universe(0)));
}

/// Structural equality of core terms distinguishes every head and both
/// lists.
#[test]
fn expr_equality() {
    assert!(expr_eq(&universe(0), &universe(0)));
    assert!(!expr_eq(&universe(0), &universe(1)));
    assert!(!expr_eq(&local(0), &global(0)));
    let a = Expr { arrow_params: vec![universe(0)], head: Ident::Local(0), tail: vec![] };
    let b = Expr { arrow_params: vec![universe(1)], head: Ident::Local(0), tail: vec![] };
    assert!(!expr_eq(&a, &b));
    assert!(expr_eq(&a, &a.clone()));
}

/// Splicing into an unapplied head merges telescopes and tails.
#[test]
fn insert_merges() {
    let mut node = Expr { arrow_params: vec![universe(0)], head: Ident::Local(9), tail: vec![] };
    let other = Expr {
        arrow_params: vec![universe(1)],
        head: Ident::Local(0),
        tail: vec![universe(2)],
    };
    node.insert(other).unwrap();
    assert!(expr_eq(
        &node,
        &Expr {
            arrow_params: vec![universe(0), universe(1)],
            head: Ident::Local(0),
            tail: vec![universe(2)],
        },
    ));
}
