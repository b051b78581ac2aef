//! Substitution and index shifting for the prototype calculus of
//! `programs`: beta-style substitution that removes the binder, with
//! exact spec-level mirrors.
use vstd::prelude::*;
use crate::programs::Expression;
use crate::programs::Type;

verus! {

broadcast use vstd::group_vstd_default;

/// The mirror of `deepen`: free variables (indices at or above
/// `current_offset`) move up by `extra_depth`; `None` when an index would
/// leave `usize`.
pub open spec fn spec_deepen(e: Expression, extra_depth: int, current_offset: int) -> Option<
    Expression,
>
    decreases e,
{
    match e {
        Expression::Variable(n) => {
            if n < current_offset {
                Some(Expression::Variable(n))
            } else if n + extra_depth > usize::MAX {
                None
            } else {
                Some(Expression::Variable((n + extra_depth) as usize))
            }
        },
        Expression::IntroPoint => Some(e),
        Expression::IntroTT => Some(e),
        Expression::IntroFF => Some(e),
        Expression::ElimIf { condition, tt_branch, ff_branch, out_type } => {
            match (
                spec_deepen(*condition, extra_depth, current_offset),
                spec_deepen(*tt_branch, extra_depth, current_offset),
                spec_deepen(*ff_branch, extra_depth, current_offset),
                spec_deepen(*out_type, extra_depth, current_offset),
            ) {
                (Some(c), Some(t), Some(f), Some(o)) => Some(
                    (Expression::ElimIf {
                        condition: Box::new(c),
                        tt_branch: Box::new(t),
                        ff_branch: Box::new(f),
                        out_type: Box::new(o),
                    }),
                ),
                _ => None,
            }
        },
        Expression::IntroLambda { in_type, body } => {
            match (
                spec_deepen(*in_type, extra_depth, current_offset),
                spec_deepen(*body, extra_depth, current_offset + 1),
            ) {
                (Some(t), Some(b)) => Some(
                    (Expression::IntroLambda { in_type: Box::new(t), body: Box::new(b) }),
                ),
                _ => None,
            }
        },
        Expression::ElimApplication { function, argument } => {
            match (
                spec_deepen(*function, extra_depth, current_offset),
                spec_deepen(*argument, extra_depth, current_offset),
            ) {
                (Some(f), Some(a)) => Some(
                    (Expression::ElimApplication { function: Box::new(f), argument: Box::new(a) }),
                ),
                _ => None,
            }
        },
        Expression::IntroPair { fst, snd, snd_type } => {
            match (
                spec_deepen(*fst, extra_depth, current_offset),
                spec_deepen(*snd, extra_depth, current_offset),
                spec_deepen(*snd_type, extra_depth, current_offset),
            ) {
                (Some(f), Some(s), Some(t)) => Some(
                    (Expression::IntroPair {
                        fst: Box::new(f),
                        snd: Box::new(s),
                        snd_type: Box::new(t),
                    }),
                ),
                _ => None,
            }
        },
        Expression::ElimFst { pair } => {
            match spec_deepen(*pair, extra_depth, current_offset) {
                Some(p) => Some(Expression::ElimFst { pair: Box::new(p) }),
                None => None,
            }
        },
        Expression::ElimSnd { pair } => {
            match spec_deepen(*pair, extra_depth, current_offset) {
                Some(p) => Some(Expression::ElimSnd { pair: Box::new(p) }),
                None => None,
            }
        },
        Expression::IntroType(t) => {
            match *t {
                Type::Pi { domain, codomain } => {
                    match (
                        spec_deepen(*domain, extra_depth, current_offset),
                        spec_deepen(*codomain, extra_depth, current_offset + 1),
                    ) {
                        (Some(d), Some(c)) => Some(
                            (Expression::IntroType(
                                Box::new(Type::Pi { domain: Box::new(d), codomain: Box::new(c) }),
                            )),
                        ),
                        _ => None,
                    }
                },
                Type::Sigma { fst_type, snd_type } => {
                    match (
                        spec_deepen(*fst_type, extra_depth, current_offset),
                        spec_deepen(*snd_type, extra_depth, current_offset + 1),
                    ) {
                        (Some(d), Some(c)) => Some(
                            (Expression::IntroType(
                                Box::new(
                                    Type::Sigma { fst_type: Box::new(d), snd_type: Box::new(c) },
                                ),
                            )),
                        ),
                        _ => None,
                    }
                },
                t2 => Some(Expression::IntroType(Box::new(t2))),
            }
        },
        Expression::SpecialFix { generator } => {
            match spec_deepen(*generator, extra_depth, current_offset) {
                Some(g) => Some(Expression::SpecialFix { generator: Box::new(g) }),
                None => None,
            }
        },
    }
}

/// The mirror of `substitute`: replace variable `i` by `value` (shifted
/// by `i`), decrement the variables above `i`, and leave the ones below.
pub open spec fn spec_substitute(e: Expression, i: int, value: Expression) -> Option<Expression>
    decreases e,
{
    match e {
        Expression::Variable(m) => {
            if m > i {
                Some(Expression::Variable((m - 1) as usize))
            } else if m == i {
                spec_deepen(value, i, 0)
            } else {
                Some(Expression::Variable(m))
            }
        },
        Expression::IntroPoint => Some(e),
        Expression::IntroTT => Some(e),
        Expression::IntroFF => Some(e),
        Expression::ElimIf { condition, tt_branch, ff_branch, out_type } => {
            match (
                spec_substitute(*condition, i, value),
                spec_substitute(*tt_branch, i, value),
                spec_substitute(*ff_branch, i, value),
                spec_substitute(*out_type, i, value),
            ) {
                (Some(c), Some(t), Some(f), Some(o)) => Some(
                    (Expression::ElimIf {
                        condition: Box::new(c),
                        tt_branch: Box::new(t),
                        ff_branch: Box::new(f),
                        out_type: Box::new(o),
                    }),
                ),
                _ => None,
            }
        },
        Expression::IntroLambda { in_type, body } => {
            if i + 1 > usize::MAX {
                None
            } else {
                match (spec_substitute(*in_type, i, value), spec_substitute(*body, i + 1, value)) {
                    (Some(t), Some(b)) => Some(
                        (Expression::IntroLambda { in_type: Box::new(t), body: Box::new(b) }),
                    ),
                    _ => None,
                }
            }
        },
        Expression::ElimApplication { function, argument } => {
            match (spec_substitute(*function, i, value), spec_substitute(*argument, i, value)) {
                (Some(f), Some(a)) => Some(
                    (Expression::ElimApplication { function: Box::new(f), argument: Box::new(a) }),
                ),
                _ => None,
            }
        },
        Expression::IntroPair { fst, snd, snd_type } => {
            match (
                spec_substitute(*fst, i, value),
                spec_substitute(*snd, i, value),
                spec_substitute(*snd_type, i, value),
            ) {
                (Some(f), Some(s), Some(t)) => Some(
                    (Expression::IntroPair {
                        fst: Box::new(f),
                        snd: Box::new(s),
                        snd_type: Box::new(t),
                    }),
                ),
                _ => None,
            }
        },
        Expression::ElimFst { pair } => {
            match spec_substitute(*pair, i, value) {
                Some(p) => Some(Expression::ElimFst { pair: Box::new(p) }),
                None => None,
            }
        },
        Expression::ElimSnd { pair } => {
            match spec_substitute(*pair, i, value) {
                Some(p) => Some(Expression::ElimSnd { pair: Box::new(p) }),
                None => None,
            }
        },
        Expression::IntroType(t) => {
            match *t {
                Type::Pi { domain, codomain } => {
                    if i + 1 > usize::MAX {
                        None
                    } else {
                        match (spec_substitute(*domain, i, value), spec_substitute(
                            *codomain,
                            i + 1,
                            value,
                        )) {
                            (Some(d), Some(c)) => Some(
                                (Expression::IntroType(
                                    Box::new(
                                        Type::Pi { domain: Box::new(d), codomain: Box::new(c) },
                                    ),
                                )),
                            ),
                            _ => None,
                        }
                    }
                },
                Type::Sigma { fst_type, snd_type } => {
                    if i + 1 > usize::MAX {
                        None
                    } else {
                        match (spec_substitute(*fst_type, i, value), spec_substitute(
                            *snd_type,
                            i + 1,
                            value,
                        )) {
                            (Some(d), Some(c)) => Some(
                                (Expression::IntroType(
                                    Box::new(
                                        Type::Sigma {
                                            fst_type: Box::new(d),
                                            snd_type: Box::new(c),
                                        },
                                    ),
                                )),
                            ),
                            _ => None,
                        }
                    }
                },
                t2 => Some(Expression::IntroType(Box::new(t2))),
            }
        },
        Expression::SpecialFix { generator } => {
            match spec_substitute(*generator, i, value) {
                Some(g) => Some(Expression::SpecialFix { generator: Box::new(g) }),
                None => None,
            }
        },
    }
}

/// Shift free variables, or report that an index would not fit.
pub fn deepen_checked(e: &Expression, extra_depth: usize, current_offset: usize) -> (r: Option<
    Expression,
>)
    ensures
        r == spec_deepen(*e, extra_depth as int, current_offset as int),
    decreases *e,
{
    match e {
        Expression::Variable(n) => {
            if *n < current_offset {
                Some(Expression::Variable(*n))
            } else if extra_depth > usize::MAX - *n {
                None
            } else {
                Some(Expression::Variable(n + extra_depth))
            }
        },
        Expression::IntroPoint => Some(Expression::IntroPoint),
        Expression::IntroTT => Some(Expression::IntroTT),
        Expression::IntroFF => Some(Expression::IntroFF),
        Expression::ElimIf { condition, tt_branch, ff_branch, out_type } => {
            match (
                deepen_checked(condition, extra_depth, current_offset),
                deepen_checked(tt_branch, extra_depth, current_offset),
                deepen_checked(ff_branch, extra_depth, current_offset),
                deepen_checked(out_type, extra_depth, current_offset),
            ) {
                (Some(c), Some(t), Some(f), Some(o)) => Some(
                    (Expression::ElimIf {
                        condition: Box::new(c),
                        tt_branch: Box::new(t),
                        ff_branch: Box::new(f),
                        out_type: Box::new(o),
                    }),
                ),
                _ => None,
            }
        },
        Expression::IntroLambda { in_type, body } => {
            if current_offset == usize::MAX {
                proof {
                    lemma_deepen_high_offset(*(*body), extra_depth as int, current_offset as int + 1);
                }
                let b = (**body).clone();
                match deepen_checked(in_type, extra_depth, current_offset) {
                    Some(t) => Some(
                        (Expression::IntroLambda { in_type: Box::new(t), body: Box::new(b) }),
                    ),
                    None => None,
                }
            } else {
                match (
                    deepen_checked(in_type, extra_depth, current_offset),
                    deepen_checked(body, extra_depth, current_offset + 1),
                ) {
                    (Some(t), Some(b)) => Some(
                        (Expression::IntroLambda { in_type: Box::new(t), body: Box::new(b) }),
                    ),
                    _ => None,
                }
            }
        },
        Expression::ElimApplication { function, argument } => {
            match (
                deepen_checked(function, extra_depth, current_offset),
                deepen_checked(argument, extra_depth, current_offset),
            ) {
                (Some(f), Some(a)) => Some(
                    (Expression::ElimApplication { function: Box::new(f), argument: Box::new(a) }),
                ),
                _ => None,
            }
        },
        Expression::IntroPair { fst, snd, snd_type } => {
            match (
                deepen_checked(fst, extra_depth, current_offset),
                deepen_checked(snd, extra_depth, current_offset),
                deepen_checked(snd_type, extra_depth, current_offset),
            ) {
                (Some(f), Some(s), Some(t)) => Some(
                    (Expression::IntroPair {
                        fst: Box::new(f),
                        snd: Box::new(s),
                        snd_type: Box::new(t),
                    }),
                ),
                _ => None,
            }
        },
        Expression::ElimFst { pair } => {
            match deepen_checked(pair, extra_depth, current_offset) {
                Some(p) => Some(Expression::ElimFst { pair: Box::new(p) }),
                None => None,
            }
        },
        Expression::ElimSnd { pair } => {
            match deepen_checked(pair, extra_depth, current_offset) {
                Some(p) => Some(Expression::ElimSnd { pair: Box::new(p) }),
                None => None,
            }
        },
        Expression::IntroType(t) => {
            match &**t {
                Type::Pi { domain, codomain } => {
                    if current_offset == usize::MAX {
                        proof {
                            lemma_deepen_high_offset(
                                *(*codomain),
                                extra_depth as int,
                                current_offset as int + 1,
                            );
                        }
                        let c = (**codomain).clone();
                        match deepen_checked(domain, extra_depth, current_offset) {
                            Some(d) => Some(
                                (Expression::IntroType(
                                    Box::new(
                                        Type::Pi { domain: Box::new(d), codomain: Box::new(c) },
                                    ),
                                )),
                            ),
                            None => None,
                        }
                    } else {
                        match (
                            deepen_checked(domain, extra_depth, current_offset),
                            deepen_checked(codomain, extra_depth, current_offset + 1),
                        ) {
                            (Some(d), Some(c)) => Some(
                                (Expression::IntroType(
                                    Box::new(
                                        Type::Pi { domain: Box::new(d), codomain: Box::new(c) },
                                    ),
                                )),
                            ),
                            _ => None,
                        }
                    }
                },
                Type::Sigma { fst_type, snd_type } => {
                    if current_offset == usize::MAX {
                        proof {
                            lemma_deepen_high_offset(
                                *(*snd_type),
                                extra_depth as int,
                                current_offset as int + 1,
                            );
                        }
                        let c = (**snd_type).clone();
                        match deepen_checked(fst_type, extra_depth, current_offset) {
                            Some(d) => Some(
                                (Expression::IntroType(
                                    Box::new(
                                        Type::Sigma {
                                            fst_type: Box::new(d),
                                            snd_type: Box::new(c),
                                        },
                                    ),
                                )),
                            ),
                            None => None,
                        }
                    } else {
                        match (
                            deepen_checked(fst_type, extra_depth, current_offset),
                            deepen_checked(snd_type, extra_depth, current_offset + 1),
                        ) {
                            (Some(d), Some(c)) => Some(
                                (Expression::IntroType(
                                    Box::new(
                                        Type::Sigma {
                                            fst_type: Box::new(d),
                                            snd_type: Box::new(c),
                                        },
                                    ),
                                )),
                            ),
                            _ => None,
                        }
                    }
                },
                Type::Void => Some(Expression::IntroType(Box::new(Type::Void))),
                Type::Unit => Some(Expression::IntroType(Box::new(Type::Unit))),
                Type::Bool => Some(Expression::IntroType(Box::new(Type::Bool))),
                Type::Universe => Some(Expression::IntroType(Box::new(Type::Universe))),
            }
        },
        Expression::SpecialFix { generator } => {
            match deepen_checked(generator, extra_depth, current_offset) {
                Some(g) => Some(Expression::SpecialFix { generator: Box::new(g) }),
                None => None,
            }
        },
    }
}

/// With the offset beyond every representable index, shifting touches
/// nothing.
proof fn lemma_deepen_high_offset(e: Expression, extra: int, offset: int)
    requires
        offset > usize::MAX,
    ensures
        spec_deepen(e, extra, offset) == Some(e),
    decreases e,
{
    match e {
        Expression::ElimIf { condition, tt_branch, ff_branch, out_type } => {
            lemma_deepen_high_offset(*condition, extra, offset);
            lemma_deepen_high_offset(*tt_branch, extra, offset);
            lemma_deepen_high_offset(*ff_branch, extra, offset);
            lemma_deepen_high_offset(*out_type, extra, offset);
        },
        Expression::IntroLambda { in_type, body } => {
            lemma_deepen_high_offset(*in_type, extra, offset);
            lemma_deepen_high_offset(*body, extra, offset + 1);
        },
        Expression::ElimApplication { function, argument } => {
            lemma_deepen_high_offset(*function, extra, offset);
            lemma_deepen_high_offset(*argument, extra, offset);
        },
        Expression::IntroPair { fst, snd, snd_type } => {
            lemma_deepen_high_offset(*fst, extra, offset);
            lemma_deepen_high_offset(*snd, extra, offset);
            lemma_deepen_high_offset(*snd_type, extra, offset);
        },
        Expression::ElimFst { pair } => {
            lemma_deepen_high_offset(*pair, extra, offset);
        },
        Expression::ElimSnd { pair } => {
            lemma_deepen_high_offset(*pair, extra, offset);
        },
        Expression::IntroType(t) => {
            match *t {
                Type::Pi { domain, codomain } => {
                    lemma_deepen_high_offset(*domain, extra, offset);
                    lemma_deepen_high_offset(*codomain, extra, offset + 1);
                },
                Type::Sigma { fst_type, snd_type } => {
                    lemma_deepen_high_offset(*fst_type, extra, offset);
                    lemma_deepen_high_offset(*snd_type, extra, offset + 1);
                },
                _ => {
                },
            }
        },
        Expression::SpecialFix { generator } => {
            lemma_deepen_high_offset(*generator, extra, offset);
        },
        _ => {
        },
    }
}

/// Substitute `value` for variable `i`, or report that an index would
/// not fit.
pub fn substitute_checked(e: &Expression, i: usize, value: &Expression) -> (r: Option<Expression>)
    ensures
        r == spec_substitute(*e, i as int, *value),
    decreases *e,
{
    match e {
        Expression::Variable(m) => {
            if *m > i {
                Some(Expression::Variable(m - 1))
            } else if *m == i {
                deepen_checked(value, i, 0)
            } else {
                Some(Expression::Variable(*m))
            }
        },
        Expression::IntroPoint => Some(Expression::IntroPoint),
        Expression::IntroTT => Some(Expression::IntroTT),
        Expression::IntroFF => Some(Expression::IntroFF),
        Expression::ElimIf { condition, tt_branch, ff_branch, out_type } => {
            match (
                substitute_checked(condition, i, value),
                substitute_checked(tt_branch, i, value),
                substitute_checked(ff_branch, i, value),
                substitute_checked(out_type, i, value),
            ) {
                (Some(c), Some(t), Some(f), Some(o)) => Some(
                    (Expression::ElimIf {
                        condition: Box::new(c),
                        tt_branch: Box::new(t),
                        ff_branch: Box::new(f),
                        out_type: Box::new(o),
                    }),
                ),
                _ => None,
            }
        },
        Expression::IntroLambda { in_type, body } => {
            if i == usize::MAX {
                return None;
            }
            match (substitute_checked(in_type, i, value), substitute_checked(body, i + 1, value)) {
                (Some(t), Some(b)) => Some(
                    (Expression::IntroLambda { in_type: Box::new(t), body: Box::new(b) }),
                ),
                _ => None,
            }
        },
        Expression::ElimApplication { function, argument } => {
            match (substitute_checked(function, i, value), substitute_checked(argument, i, value)) {
                (Some(f), Some(a)) => Some(
                    (Expression::ElimApplication { function: Box::new(f), argument: Box::new(a) }),
                ),
                _ => None,
            }
        },
        Expression::IntroPair { fst, snd, snd_type } => {
            match (
                substitute_checked(fst, i, value),
                substitute_checked(snd, i, value),
                substitute_checked(snd_type, i, value),
            ) {
                (Some(f), Some(s), Some(t)) => Some(
                    (Expression::IntroPair {
                        fst: Box::new(f),
                        snd: Box::new(s),
                        snd_type: Box::new(t),
                    }),
                ),
                _ => None,
            }
        },
        Expression::ElimFst { pair } => {
            match substitute_checked(pair, i, value) {
                Some(p) => Some(Expression::ElimFst { pair: Box::new(p) }),
                None => None,
            }
        },
        Expression::ElimSnd { pair } => {
            match substitute_checked(pair, i, value) {
                Some(p) => Some(Expression::ElimSnd { pair: Box::new(p) }),
                None => None,
            }
        },
        Expression::IntroType(t) => {
            match &**t {
                Type::Pi { domain, codomain } => {
                    if i == usize::MAX {
                        return None;
                    }
                    match (substitute_checked(domain, i, value), substitute_checked(
                        codomain,
                        i + 1,
                        value,
                    )) {
                        (Some(d), Some(c)) => Some(
                            (Expression::IntroType(
                                Box::new(Type::Pi { domain: Box::new(d), codomain: Box::new(c) }),
                            )),
                        ),
                        _ => None,
                    }
                },
                Type::Sigma { fst_type, snd_type } => {
                    if i == usize::MAX {
                        return None;
                    }
                    match (substitute_checked(fst_type, i, value), substitute_checked(
                        snd_type,
                        i + 1,
                        value,
                    )) {
                        (Some(d), Some(c)) => Some(
                            (Expression::IntroType(
                                Box::new(
                                    Type::Sigma { fst_type: Box::new(d), snd_type: Box::new(c) },
                                ),
                            )),
                        ),
                        _ => None,
                    }
                },
                Type::Void => Some(Expression::IntroType(Box::new(Type::Void))),
                Type::Unit => Some(Expression::IntroType(Box::new(Type::Unit))),
                Type::Bool => Some(Expression::IntroType(Box::new(Type::Bool))),
                Type::Universe => Some(Expression::IntroType(Box::new(Type::Universe))),
            }
        },
        Expression::SpecialFix { generator } => {
            match substitute_checked(generator, i, value) {
                Some(g) => Some(Expression::SpecialFix { generator: Box::new(g) }),
                None => None,
            }
        },
    }
}

/// Substitute `value` for variable `i` in `expr`.  The machine-limit
/// side condition asks that no shifted index leaves `usize`.
pub fn substitute(expr: &Expression, i: usize, value: &Expression) -> (r: Expression)
    requires
        spec_substitute(*expr, i as int, *value) is Some,
    ensures
        Some(r) == spec_substitute(*expr, i as int, *value),
{
    match substitute_checked(expr, i, value) {
        Some(r) => r,
        None => {
            proof {
                assert(false);
            }
            Expression::IntroPoint
        },
    }
}

/// Shift the free variables of `expr` (indices at or above
/// `current_offset`) up by `extra_depth`.  The machine-limit side
/// condition asks that no shifted index leaves `usize`.
pub fn deepen(expr: &Expression, extra_depth: usize, current_offset: usize) -> (r: Expression)
    requires
        spec_deepen(*expr, extra_depth as int, current_offset as int) is Some,
    ensures
        Some(r) == spec_deepen(*expr, extra_depth as int, current_offset as int),
{
    match deepen_checked(expr, extra_depth, current_offset) {
        Some(r) => r,
        None => {
            proof {
                assert(false);
            }
            Expression::IntroPoint
        },
    }
}

} // verus!
