//! The prototype bidirectional checker over the annotated calculus:
//! synthesizes an untyped type for an annotated term against a stack of
//! named, typed bindings.  Type comparison goes through bounded beta
//! reduction of the compiled forms.
use vstd::prelude::*;
use crate::typed;
use crate::untyped;

verus! {

broadcast use vstd::group_vstd_default;

/// Where inside an application an error was found; innermost first.
#[derive(PartialEq, Eq, Structural, Debug, Clone, Copy)]
pub enum ErrorPath {
    InFunction,
    InArgument,
}

/// A mismatch, carrying the path to the offending application and the
/// conflicting types.
#[derive(PartialEq, Eq, Debug)]
pub struct TypeCheckError {
    pub path: Vec<ErrorPath>,
    pub expected: untyped::Expression,
    pub actual: untyped::Expression,
}

/// The model of a `TypeCheckError`.
pub struct TcErrV {
    pub path: Seq<ErrorPath>,
    pub expected: untyped::Expression,
    pub actual: untyped::Expression,
}

/// The model of a reported mismatch.
pub open spec fn tc_err_view(e: TypeCheckError) -> TcErrV {
    (TcErrV { path: e.path@, expected: e.expected, actual: e.actual })
}

/// The mirror of `find_var`: the distance and type of the innermost
/// binding of `name`.
pub open spec fn spec_ctx_find(ctx: Seq<(String, untyped::Expression)>, name: Seq<char>) -> Option<
    (usize, untyped::Expression),
>
    decreases ctx,
{
    if ctx.len() == 0 {
        None
    } else if ctx.last().0@ == name {
        Some((0usize, ctx.last().1))
    } else {
        match spec_ctx_find(ctx.drop_last(), name) {
            Some((i, t)) => {
                if i + 1 > usize::MAX {
                    None
                } else {
                    Some(((i + 1) as usize, t))
                }
            },
            None => None,
        }
    }
}

/// A found distance always lies within the context.
pub proof fn lemma_ctx_find_bound(ctx: Seq<(String, untyped::Expression)>, name: Seq<char>)
    ensures
        spec_ctx_find(ctx, name) matches Some(p) ==> p.0 < ctx.len(),
    decreases ctx,
{
    if ctx.len() > 0 && !(ctx.last().0@ == name) {
        lemma_ctx_find_bound(ctx.drop_last(), name);
    }
}

/// The mirror of `assert_type`: the check succeeds when either side
/// reduces to the other side's bounded normal form.
pub open spec fn spec_assert_type(actual: untyped::Expression, expected: untyped::Expression) -> Result<
    (),
    TcErrV,
> {
    if untyped::spec_reduces_to(actual, expected) || untyped::spec_reduces_to(expected, actual) {
        Ok(())
    } else {
        Err((TcErrV { path: Seq::empty(), expected, actual }))
    }
}

/// The mirror of `type_check`.  `None` marks the inputs the checker
/// excludes: an unbound variable or annotation name, or an index pushed
/// past the machine limit.
pub open spec fn spec_type_check(
    ctx: Seq<(String, untyped::Expression)>,
    e: typed::Expression,
) -> Option<Result<untyped::Expression, TcErrV>>
    decreases e,
{
    match e {
        typed::Expression::Variable { name } => {
            match spec_ctx_find(ctx, name@) {
                None => None,
                Some((i, typ)) => {
                    match untyped::spec_shift(typ, i + 1, 0) {
                        None => None,
                        Some(t) => Some(Ok(t)),
                    }
                },
            }
        },
        typed::Expression::IntroLambda { var_name, var_type, body } => {
            match typed::spec_convert(*var_type, Seq::empty()) {
                None => None,
                Some(dom) => {
                    match spec_type_check(ctx.push((var_name, dom)), *body) {
                        None => None,
                        Some(Err(er)) => Some(Err(er)),
                        Some(Ok(cod)) => Some(
                            Ok(
                                untyped::Expression::IntroType(
                                    Box::new(
                                        (untyped::Type::Pi {
                                            domain: Box::new(dom),
                                            codomain: Box::new(cod),
                                        }),
                                    ),
                                ),
                            ),
                        ),
                    }
                },
            }
        },
        typed::Expression::ElimApplication { function, argument } => {
            match spec_type_check(ctx, *function) {
                None => None,
                Some(Err(er)) => Some(
                    Err((TcErrV { path: er.path.push(ErrorPath::InFunction), ..er })),
                ),
                Some(Ok(fun_type)) => {
                    match spec_type_check(ctx, *argument) {
                        None => None,
                        Some(Err(er)) => Some(
                            Err((TcErrV { path: er.path.push(ErrorPath::InArgument), ..er })),
                        ),
                        Some(Ok(arg_type)) => {
                            match spec_expect_pi(fun_type, arg_type) {
                                Err(er) => Some(
                                    Err(
                                        (TcErrV {
                                            path: er.path.push(ErrorPath::InFunction),
                                            ..er
                                        }),
                                    ),
                                ),
                                Ok((domain, codomain)) => {
                                    match spec_assert_type(arg_type, domain) {
                                        Err(er) => Some(
                                            Err(
                                                (TcErrV {
                                                    path: er.path.push(ErrorPath::InArgument),
                                                    ..er
                                                }),
                                            ),
                                        ),
                                        Ok(()) => {
                                            match typed::spec_convert(*argument, Seq::empty()) {
                                                None => None,
                                                Some(arg_val) => {
                                                    match untyped::spec_substitute(
                                                        codomain,
                                                        0,
                                                        arg_val,
                                                    ) {
                                                        None => None,
                                                        Some(result) => Some(Ok(result)),
                                                    }
                                                },
                                            }
                                        },
                                    }
                                },
                            }
                        },
                    }
                },
            }
        },
        typed::Expression::ElimAbsurd { output_type } => {
            match typed::spec_convert(*output_type, Seq::empty()) {
                None => None,
                Some(o) => Some(
                    Ok(
                        untyped::Expression::IntroType(
                            Box::new(
                                (untyped::Type::Pi {
                                    domain: Box::new(
                                        untyped::Expression::IntroType(
                                            Box::new(untyped::Type::Void),
                                        ),
                                    ),
                                    codomain: Box::new(o),
                                }),
                            ),
                        ),
                    ),
                ),
            }
        },
        typed::Expression::IntroPoint => Some(
            Ok(untyped::Expression::IntroType(Box::new(untyped::Type::Unit))),
        ),
        typed::Expression::ElimTrivial { predicate } => {
            match typed::spec_convert(*predicate, Seq::empty()) {
                None => None,
                Some(p) => Some(
                    Ok(
                        spec_pi(
                            untyped::spec_apply(p, untyped::Expression::IntroPoint),
                            spec_pi(
                                untyped::Expression::IntroType(Box::new(untyped::Type::Unit)),
                                untyped::spec_apply(p, untyped::Expression::Variable(0)),
                            ),
                        ),
                    ),
                ),
            }
        },
        typed::Expression::IntroTT => Some(
            Ok(untyped::Expression::IntroType(Box::new(untyped::Type::Bool))),
        ),
        typed::Expression::IntroFF => Some(
            Ok(untyped::Expression::IntroType(Box::new(untyped::Type::Bool))),
        ),
        typed::Expression::ElimIf { out_type } => {
            match typed::spec_convert(*out_type, Seq::empty()) {
                None => None,
                Some(o) => Some(
                    Ok(
                        spec_pi(
                            untyped::spec_apply(o, untyped::Expression::IntroTT),
                            spec_pi(
                                untyped::spec_apply(o, untyped::Expression::IntroFF),
                                spec_pi(
                                    untyped::Expression::IntroType(Box::new(untyped::Type::Bool)),
                                    untyped::spec_apply(o, untyped::Expression::Variable(0)),
                                ),
                            ),
                        ),
                    ),
                ),
            }
        },
        typed::Expression::IntroPair { fst_type, snd_type } => {
            match (typed::spec_convert(*fst_type, Seq::empty()), typed::spec_convert(
                *snd_type,
                Seq::empty(),
            )) {
                (Some(f), Some(s)) => Some(
                    Ok(spec_pi(f, spec_pi(s, spec_sigma(f, s)))),
                ),
                _ => None,
            }
        },
        typed::Expression::ElimUncurry { fst_type, snd_type, result_type } => {
            match (
                typed::spec_convert(*fst_type, Seq::empty()),
                typed::spec_convert(*snd_type, Seq::empty()),
                typed::spec_convert(*result_type, Seq::empty()),
            ) {
                (Some(f), Some(s), Some(rt)) => Some(
                    Ok(
                        spec_pi(
                            spec_pi(f, spec_pi(s, rt)),
                            spec_pi(spec_sigma(f, s), rt),
                        ),
                    ),
                ),
                _ => None,
            }
        },
        typed::Expression::IntroType(t) => Some(
            Ok(untyped::Expression::IntroType(Box::new(untyped::Type::Universe))),
        ),
        typed::Expression::SpecialFix { output_type } => {
            match typed::spec_convert(*output_type, Seq::empty()) {
                None => None,
                Some(o) => Some(Ok(spec_pi(spec_pi(o, o), o))),
            }
        },
    }
}

/// A non-dependent function type, in the untyped calculus.
pub open spec fn spec_pi(domain: untyped::Expression, codomain: untyped::Expression) -> untyped::Expression {
    untyped::Expression::IntroType(
        Box::new((untyped::Type::Pi { domain: Box::new(domain), codomain: Box::new(codomain) })),
    )
}

/// A non-dependent pair type, in the untyped calculus.
pub open spec fn spec_sigma(fst_type: untyped::Expression, snd_type: untyped::Expression) -> untyped::Expression {
    untyped::Expression::IntroType(
        Box::new(
            (untyped::Type::Sigma { fst_type: Box::new(fst_type), snd_type: Box::new(snd_type) }),
        ),
    )
}

/// The mirror of `expect_pi_type`.
pub open spec fn spec_expect_pi(
    fun_type: untyped::Expression,
    arg_type: untyped::Expression,
) -> Result<(untyped::Expression, untyped::Expression), TcErrV> {
    match fun_type {
        untyped::Expression::IntroType(t) => {
            match *t {
                untyped::Type::Pi { domain, codomain } => Ok((*domain, *codomain)),
                _ => Err(
                    (TcErrV {
                        path: Seq::empty(),
                        expected: spec_pi(
                            arg_type,
                            untyped::Expression::IntroType(Box::new(untyped::Type::Unit)),
                        ),
                        actual: fun_type,
                    }),
                ),
            }
        },
        _ => Err(
            (TcErrV {
                path: Seq::empty(),
                expected: spec_pi(
                    arg_type,
                    untyped::Expression::IntroType(Box::new(untyped::Type::Unit)),
                ),
                actual: fun_type,
            }),
        ),
    }
}

/// Look a name up in the typed context, innermost first.
fn find_var(ctx: &Vec<(String, untyped::Expression)>, name: &String) -> (r: Option<(
    usize,
    untyped::Expression,
)>)
    ensures
        match spec_ctx_find(ctx@, name@) {
            Some((i, t)) => r matches Some(p) && p.0 == i && p.1 == t,
            None => r is None,
        },
{
    let len = ctx.len();
    proof {
        assert(ctx@.take(len as int) =~= ctx@);
        lemma_ctx_find_bound(ctx@, name@);
    }
    let mut i: usize = 0;
    while i < len
        invariant
            0 <= i <= len,
            len == ctx@.len(),
            match spec_ctx_find(ctx@.take(len - i), name@) {
                Some((d, t)) => spec_ctx_find(ctx@, name@) == Some(((d + i) as usize, t)) && d + i
                    < len,
                None => spec_ctx_find(ctx@, name@) is None,
            },
        decreases len - i,
    {
        let idx = len - i - 1;
        proof {
            lemma_ctx_find_bound(ctx@.take(len - i), name@);
            lemma_ctx_find_bound(ctx@.take(len - (i + 1)), name@);
            assert(ctx@.take(len - i).last() == ctx@[idx as int]);
            assert(ctx@.take(len - i).drop_last() =~= ctx@.take(len - (i + 1)));
        }
        if ctx[idx].0.eq(name) {
            return Some((i, ctx[idx].1.clone()));
        }
        i = i + 1;
    }
    proof {
        assert(ctx@.take(0) =~= Seq::<(String, untyped::Expression)>::empty());
    }
    None
}

/// Compare an inferred type with an expected one, up to bounded beta
/// reduction on either side.
fn assert_type(actual: &untyped::Expression, expected: &untyped::Expression) -> (r: Result<
    (),
    TypeCheckError,
>)
    ensures
        match spec_assert_type(*actual, *expected) {
            Ok(()) => r is Ok,
            Err(e) => r matches Err(er) && tc_err_view(er) == e,
        },
{
    if actual.reduces_to(expected) || expected.reduces_to(actual) {
        Ok(())
    } else {
        Err(
            (TypeCheckError {
                path: Vec::new(),
                expected: expected.clone(),
                actual: actual.clone(),
            }),
        )
    }
}

/// Synthesize the untyped type of an annotated term.  The side
/// condition rules out unbound names and indices that cannot be
/// shifted within the machine limits.
pub fn type_check(
    ctx: &mut Vec<(String, untyped::Expression)>,
    expr: &typed::Expression,
) -> (r: Result<untyped::Expression, TypeCheckError>)
    requires
        spec_type_check(old(ctx)@, *expr) is Some,
    ensures
        final(ctx)@ == old(ctx)@,
        match spec_type_check(old(ctx)@, *expr) {
            Some(Ok(t)) => r matches Ok(rt) && rt == t,
            Some(Err(e)) => r matches Err(er) && tc_err_view(er) == e,
            None => false,
        },
    decreases *expr,
{
    match expr {
        typed::Expression::Variable { name } => {
            let (i, typ) = match find_var(ctx, name) {
                Some(p) => p,
                None => {
                    proof {
                        assert(false);
                    }
                    return Err(
                        (TypeCheckError {
                            path: Vec::new(),
                            expected: untyped::Expression::IntroPoint,
                            actual: untyped::Expression::IntroPoint,
                        }),
                    );
                },
            };
            let n = ctx.len();
            proof {
                lemma_ctx_find_bound(ctx@, name@);
                assert(i < n);
            }
            let shifted = match untyped::shift_free(&typ, i + 1, 0) {
                Some(t) => t,
                None => {
                    proof {
                        assert(false);
                    }
                    untyped::Expression::IntroPoint
                },
            };
            Ok(shifted)
        },
        typed::Expression::IntroLambda { var_name, var_type, body } => {
            let dom = var_type.convert();
            ctx.push((var_name.clone(), dom.clone()));
            let maybe_codomain = type_check(ctx, body);
            let popped = ctx.pop();
            proof {
                assert(ctx@ =~= old(ctx)@);
            }
            let domain = match popped {
                Some(p) => p.1,
                None => {
                    proof {
                        assert(false);
                    }
                    untyped::Expression::IntroPoint
                },
            };
            match maybe_codomain {
                Err(e) => Err(e),
                Ok(cod) => Ok(
                    untyped::Expression::IntroType(
                        Box::new(
                            (untyped::Type::Pi {
                                domain: Box::new(domain),
                                codomain: Box::new(cod),
                            }),
                        ),
                    ),
                ),
            }
        },
        typed::Expression::ElimApplication { function, argument } => {
            let fun_type = match type_check(ctx, function) {
                Ok(t) => t,
                Err(mut e) => {
                    e.path.push(ErrorPath::InFunction);
                    return Err(e);
                },
            };
            let arg_type = match type_check(ctx, argument) {
                Ok(t) => t,
                Err(mut e) => {
                    e.path.push(ErrorPath::InArgument);
                    return Err(e);
                },
            };
            let (domain, codomain) = match expect_pi_type(fun_type, &arg_type) {
                Ok(p) => p,
                Err(mut e) => {
                    e.path.push(ErrorPath::InFunction);
                    return Err(e);
                },
            };
            match assert_type(&arg_type, &domain) {
                Ok(()) => (),
                Err(mut e) => {
                    e.path.push(ErrorPath::InArgument);
                    return Err(e);
                },
            }
            let arg_val = argument.convert();
            let result = match untyped::subst_checked(&codomain, 0, &arg_val) {
                Some(t) => t,
                None => {
                    proof {
                        assert(false);
                    }
                    untyped::Expression::IntroPoint
                },
            };
            Ok(result)
        },
        typed::Expression::ElimAbsurd { output_type } => {
            let o = output_type.convert();
            Ok(
                untyped::Expression::IntroType(
                    Box::new(
                        (untyped::Type::Pi {
                            domain: Box::new(
                                untyped::Expression::IntroType(Box::new(untyped::Type::Void)),
                            ),
                            codomain: Box::new(o),
                        }),
                    ),
                ),
            )
        },
        typed::Expression::IntroPoint => Ok(
            untyped::Expression::IntroType(Box::new(untyped::Type::Unit)),
        ),
        typed::Expression::ElimTrivial { predicate } => {
            let p = predicate.convert();
            let inner = untyped::apply(p.clone(), untyped::var(0));
            let outer = untyped::apply(p, untyped::point());
            Ok(untyped::pi(outer, untyped::pi(untyped::unit(), inner)))
        },
        typed::Expression::IntroTT => Ok(
            untyped::Expression::IntroType(Box::new(untyped::Type::Bool)),
        ),
        typed::Expression::IntroFF => Ok(
            untyped::Expression::IntroType(Box::new(untyped::Type::Bool)),
        ),
        typed::Expression::ElimIf { out_type } => {
            let o = out_type.convert();
            let on_var = untyped::apply(o.clone(), untyped::var(0));
            let on_ff = untyped::apply(o.clone(), untyped::ff());
            let on_tt = untyped::apply(o, untyped::tt());
            Ok(untyped::pi(on_tt, untyped::pi(on_ff, untyped::pi(untyped::bool(), on_var))))
        },
        typed::Expression::IntroPair { fst_type, snd_type } => {
            let f = fst_type.convert();
            let s = snd_type.convert();
            let sig = untyped::sigma(f.clone(), s.clone());
            Ok(untyped::pi(f, untyped::pi(s, sig)))
        },
        typed::Expression::ElimUncurry { fst_type, snd_type, result_type } => {
            let f = fst_type.convert();
            let s = snd_type.convert();
            let rt = result_type.convert();
            let curried = untyped::pi(f.clone(), untyped::pi(s.clone(), rt.clone()));
            let uncurried = untyped::pi(untyped::sigma(f, s), rt);
            Ok(untyped::pi(curried, uncurried))
        },
        typed::Expression::IntroType(t) => Ok(
            untyped::Expression::IntroType(Box::new(untyped::Type::Universe)),
        ),
        typed::Expression::SpecialFix { output_type } => {
            let o = output_type.convert();
            Ok(untyped::pi(untyped::pi(o.clone(), o.clone()), o))
        },
    }
}

/// Split a function type into domain and codomain, or report that a
/// non-function stands in function position.
fn expect_pi_type(fun_type: untyped::Expression, arg_type: &untyped::Expression) -> (r: Result<
    (untyped::Expression, untyped::Expression),
    TypeCheckError,
>)
    ensures
        match spec_expect_pi(fun_type, *arg_type) {
            Ok((d, c)) => r matches Ok(p) && p.0 == d && p.1 == c,
            Err(e) => r matches Err(er) && tc_err_view(er) == e,
        },
{
    let is_pi = match &fun_type {
        untyped::Expression::IntroType(t) => match &**t {
            untyped::Type::Pi { .. } => true,
            _ => false,
        },
        _ => false,
    };
    if is_pi {
        match fun_type {
            untyped::Expression::IntroType(t) => match *t {
                untyped::Type::Pi { domain, codomain } => Ok((*domain, *codomain)),
                _ => {
                    proof {
                        assert(false);
                    }
                    Err(
                        (TypeCheckError {
                            path: Vec::new(),
                            expected: untyped::Expression::IntroPoint,
                            actual: untyped::Expression::IntroPoint,
                        }),
                    )
                },
            },
            _ => {
                proof {
                    assert(false);
                }
                Err(
                    (TypeCheckError {
                        path: Vec::new(),
                        expected: untyped::Expression::IntroPoint,
                        actual: untyped::Expression::IntroPoint,
                    }),
                )
            },
        }
    } else {
        Err(
            (TypeCheckError {
                path: Vec::new(),
                expected: untyped::pi(arg_type.clone(), untyped::unit()),
                actual: fun_type,
            }),
        )
    }
}

} // verus!
