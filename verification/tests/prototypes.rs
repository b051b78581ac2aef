//! Tests of the prototype calculi: term equality, substitution and
//! shifting.
use lofer_lang::expressions;
use lofer_lang::programs;
use lofer_lang::substitution::{deepen, substitute};
use lofer_lang::typed;
use lofer_lang::untyped;

fn s(x: &str) -> String {
    x.to_string()
}

#[test]
fn untyped_equality() {
    assert_eq!(untyped::var(0), untyped::var(0));
    assert_ne!(untyped::var(0), untyped::var(1));
    assert_eq!(untyped::lambda(untyped::var(0)), untyped::lambda(untyped::var(0)));
    assert_ne!(untyped::lambda(untyped::var(0)), untyped::var(0));
    assert_eq!(untyped::apply(untyped::tt(), untyped::ff()), untyped::apply(untyped::tt(), untyped::ff()));
    assert_ne!(untyped::apply(untyped::tt(), untyped::ff()), untyped::apply(untyped::ff(), untyped::tt()));
    assert_eq!(untyped::pi(untyped::bool(), untyped::unit()), untyped::pi(untyped::bool(), untyped::unit()));
    assert_ne!(untyped::pi(untyped::bool(), untyped::unit()), untyped::sigma(untyped::bool(), untyped::unit()));
    assert_eq!(untyped::point(), untyped::point());
    assert_ne!(untyped::tt(), untyped::ff());
    assert_eq!(untyped::universe(), untyped::universe());
}

#[test]
fn untyped_coinductive_equality() {
    // the fixpoint encoding is compared structurally, not by unfolding
    assert_eq!(untyped::fix(untyped::var(0)), untyped::fix(untyped::var(0)));
    assert_ne!(untyped::fix(untyped::var(0)), untyped::fix(untyped::var(1)));
    let unfolded = untyped::apply(untyped::fix(untyped::var(0)), untyped::point());
    assert_ne!(untyped::fix(untyped::var(0)), unfolded);
}

#[test]
fn typed_equality() {
    assert_eq!(typed::var(s("x")), typed::var(s("x")));
    assert_ne!(typed::var(s("x")), typed::var(s("y")));
    assert_eq!(
        typed::lambda(s("x"), typed::bool(), typed::var(s("x"))),
        typed::lambda(s("x"), typed::bool(), typed::var(s("x"))),
    );
    assert_ne!(
        typed::lambda(s("x"), typed::bool(), typed::var(s("x"))),
        typed::lambda(s("y"), typed::bool(), typed::var(s("x"))),
    );
    assert_eq!(typed::pi(s("_"), typed::unit(), typed::bool()), typed::pi(s("_"), typed::unit(), typed::bool()));
    assert_ne!(typed::tt(), typed::ff());
}

#[test]
fn typed_coinductive_equality() {
    assert_eq!(typed::fix_fn(typed::bool()), typed::fix_fn(typed::bool()));
    assert_ne!(typed::fix_fn(typed::bool()), typed::fix_fn(typed::unit()));
    assert_eq!(typed::fix(typed::bool(), typed::var(s("f"))), typed::fix(typed::bool(), typed::var(s("f"))));
}

#[test]
fn expressions_equality() {
    assert_eq!(expressions::var(s("a")), expressions::var(s("a")));
    assert_ne!(expressions::var(s("a")), expressions::var(s("b")));
    assert_eq!(
        expressions::pair(expressions::tt(), expressions::ff(), expressions::bool(), expressions::bool()),
        expressions::pair(expressions::tt(), expressions::ff(), expressions::bool(), expressions::bool()),
    );
    assert_ne!(
        expressions::pair(expressions::tt(), expressions::ff(), expressions::bool(), expressions::bool()),
        expressions::pair(expressions::ff(), expressions::tt(), expressions::bool(), expressions::bool()),
    );
    assert_eq!(expressions::uncurry_fn(expressions::bool(), expressions::unit()), expressions::uncurry_fn(expressions::bool(), expressions::unit()));
    assert_ne!(expressions::absurd_fn(expressions::bool()), expressions::trivial_fn(expressions::bool()));
}

#[test]
fn expressions_coinductive_equality() {
    assert_eq!(expressions::fix_fn(expressions::bool()), expressions::fix_fn(expressions::bool()));
    assert_ne!(expressions::fix_fn(expressions::bool()), expressions::fix_fn(expressions::void()));
    assert_eq!(
        expressions::fix(expressions::bool(), expressions::lambda(s("r"), expressions::bool(), expressions::var(s("r")))),
        expressions::fix(expressions::bool(), expressions::lambda(s("r"), expressions::bool(), expressions::var(s("r")))),
    );
}

#[test]
fn programs_equality() {
    assert_eq!(programs::var(3), programs::var(3));
    assert_ne!(programs::var(3), programs::var(4));
    assert_eq!(programs::pair(programs::tt(), programs::ff(), programs::bool()), programs::pair(programs::tt(), programs::ff(), programs::bool()));
    assert_ne!(programs::pair(programs::tt(), programs::ff(), programs::bool()), programs::pair(programs::ff(), programs::tt(), programs::bool()));
    assert_eq!(programs::fst(programs::var(0)), programs::fst(programs::var(0)));
    assert_ne!(programs::fst(programs::var(0)), programs::snd(programs::var(0)));
    assert_eq!(
        programs::if_then_else(programs::tt(), programs::point(), programs::point(), programs::unit()),
        programs::if_then_else(programs::tt(), programs::point(), programs::point(), programs::unit()),
    );
}

#[test]
fn programs_coinductive_equality() {
    assert_eq!(programs::fix(programs::lambda(programs::bool(), programs::var(0))), programs::fix(programs::lambda(programs::bool(), programs::var(0))));
    assert_ne!(programs::fix(programs::lambda(programs::bool(), programs::var(0))), programs::fix(programs::lambda(programs::bool(), programs::var(1))));
}

/// One substitution for each expression former of the prototype
/// calculus.
#[test]
fn basics() {
    // variables: below, at, and above the substituted index
    assert_eq!(substitute(&programs::var(0), 1, &programs::tt()), programs::var(0));
    assert_eq!(substitute(&programs::var(1), 1, &programs::tt()), programs::tt());
    assert_eq!(substitute(&programs::var(2), 1, &programs::tt()), programs::var(1));
    // constants
    assert_eq!(substitute(&programs::point(), 0, &programs::tt()), programs::point());
    assert_eq!(substitute(&programs::tt(), 0, &programs::ff()), programs::tt());
    assert_eq!(substitute(&programs::ff(), 0, &programs::tt()), programs::ff());
    // the conditional substitutes in all four components
    assert_eq!(
        substitute(&programs::if_then_else(programs::var(0), programs::var(0), programs::var(0), programs::var(0)), 0, &programs::tt()),
        programs::if_then_else(programs::tt(), programs::tt(), programs::tt(), programs::tt()),
    );
    // a lambda shifts the index under its binder
    assert_eq!(
        substitute(&programs::lambda(programs::bool(), programs::var(1)), 0, &programs::tt()),
        programs::lambda(programs::bool(), programs::tt()),
    );
    // application substitutes both sides
    assert_eq!(
        substitute(&programs::apply(programs::var(0), programs::var(0)), 0, &programs::tt()),
        programs::apply(programs::tt(), programs::tt()),
    );
    // pairs and projections
    assert_eq!(
        substitute(&programs::pair(programs::var(0), programs::var(1), programs::bool()), 0, &programs::tt()),
        programs::pair(programs::tt(), programs::var(0), programs::bool()),
    );
    assert_eq!(substitute(&programs::fst(programs::var(0)), 0, &programs::tt()), programs::fst(programs::tt()));
    assert_eq!(substitute(&programs::snd(programs::var(0)), 0, &programs::tt()), programs::snd(programs::tt()));
    // type formers: the second component of Pi and Sigma is under a binder
    assert_eq!(
        substitute(&programs::pi(programs::var(0), programs::var(1)), 0, &programs::bool()),
        programs::pi(programs::bool(), programs::bool()),
    );
    assert_eq!(
        substitute(&programs::sigma(programs::var(0), programs::var(1)), 0, &programs::bool()),
        programs::sigma(programs::bool(), programs::bool()),
    );
    assert_eq!(substitute(&programs::void(), 0, &programs::tt()), programs::void());
    assert_eq!(substitute(&programs::unit(), 0, &programs::tt()), programs::unit());
    assert_eq!(substitute(&programs::universe(), 0, &programs::tt()), programs::universe());
    // the fixpoint node
    assert_eq!(substitute(&programs::fix(programs::var(0)), 0, &programs::tt()), programs::fix(programs::tt()));
    // deepen shifts only the free variables
    assert_eq!(deepen(&programs::lambda(programs::bool(), programs::var(0)), 2, 0), programs::lambda(programs::bool(), programs::var(0)));
    assert_eq!(deepen(&programs::lambda(programs::bool(), programs::var(1)), 2, 0), programs::lambda(programs::bool(), programs::var(3)));
}

#[test]
fn closed_substitution() {
    assert_eq!(substitute(&programs::var(0), 0, &programs::tt()), programs::tt());
    assert_eq!(
        substitute(&programs::lambda(programs::bool(), programs::var(0)), 0, &programs::tt()),
        programs::lambda(programs::bool(), programs::var(0)),
    );
    assert_eq!(
        substitute(&programs::lambda(programs::bool(), programs::var(1)), 0, &programs::tt()),
        programs::lambda(programs::bool(), programs::tt()),
    );
    assert_eq!(
        substitute(&programs::pair(programs::var(0), programs::var(1), programs::bool()), 0, &programs::tt()),
        programs::pair(programs::tt(), programs::var(0), programs::bool()),
    );
}

#[test]
fn open_substitution() {
    assert_eq!(substitute(&programs::var(0), 0, &programs::var(0)), programs::var(0));
    assert_eq!(substitute(&programs::var(1), 1, &programs::var(0)), programs::var(1));
    assert_eq!(substitute(&programs::var(0), 0, &programs::var(1)), programs::var(1));
    assert_eq!(substitute(&programs::var(1), 1, &programs::var(1)), programs::var(2));
    assert_eq!(
        substitute(&programs::var(0), 0, &programs::lambda(programs::bool(), programs::var(0))),
        programs::lambda(programs::bool(), programs::var(0)),
    );
    assert_eq!(
        substitute(&programs::lambda(programs::bool(), programs::var(1)), 0, &programs::var(2)),
        programs::lambda(programs::bool(), programs::var(3)),
    );
}

/// Bounded beta reduction reaches the expected normal forms.
#[test]
fn untyped_reduction() {
    // (\\x -> x) tt reduces to tt
    let e = untyped::apply(untyped::lambda(untyped::var(0)), untyped::tt());
    assert!(e.reduces_to(&untyped::tt()));
    assert!(untyped::tt().reduces_to(&e));
    // distinct constants do not reduce to one another
    assert!(!untyped::tt().reduces_to(&untyped::ff()));
    // a type family applied to an argument
    let fam = untyped::apply(untyped::lambda(untyped::bool()), untyped::tt());
    assert!(fam.reduces_to(&untyped::bool()));
}
