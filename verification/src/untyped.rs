//! The earliest prototype calculus: an untyped lambda calculus with
//! constants for the point, booleans, pairs and their eliminators, plus a
//! fixpoint encoding.  Variables are de Bruijn indices counted from the
//! innermost binder.
use vstd::prelude::*;

verus! {

broadcast use vstd::group_vstd_default;

/// An untyped term.
#[derive(PartialEq, Eq, Debug)]
pub enum Expression {
    Variable(usize),
    IntroLambda { body: Box<Expression> },
    ElimApplication { function: Box<Expression>, argument: Box<Expression> },
    IntroPoint,
    IntroTT,
    IntroFF,
    ElimIf,
    IntroPair,
    ElimUncurry,
    IntroType(Box<Type>),
}

/// An untyped type former.
#[derive(PartialEq, Eq, Debug)]
pub enum Type {
    Void,
    Unit,
    Bool,
    Pi { domain: Box<Expression>, codomain: Box<Expression> },
    Sigma { fst_type: Box<Expression>, snd_type: Box<Expression> },
    Universe,
}

impl Clone for Expression {
    /// A deep copy equal to the original.
    fn clone(&self) -> (r: Expression)
        ensures
            r == *self,
        decreases *self,
    {
        match self {
            Expression::Variable(n) => Expression::Variable(*n),
            Expression::IntroLambda { body } => (Expression::IntroLambda {
                body: Box::new((**body).clone()),
            }),
            Expression::ElimApplication { function, argument } => (Expression::ElimApplication {
                function: Box::new((**function).clone()),
                argument: Box::new((**argument).clone()),
            }),
            Expression::IntroPoint => Expression::IntroPoint,
            Expression::IntroTT => Expression::IntroTT,
            Expression::IntroFF => Expression::IntroFF,
            Expression::ElimIf => Expression::ElimIf,
            Expression::IntroPair => Expression::IntroPair,
            Expression::ElimUncurry => Expression::ElimUncurry,
            Expression::IntroType(t) => Expression::IntroType(Box::new((**t).clone())),
        }
    }
}

impl Clone for Type {
    fn clone(&self) -> (r: Type)
        ensures
            r == *self,
        decreases *self,
    {
        match self {
            Type::Void => Type::Void,
            Type::Unit => Type::Unit,
            Type::Bool => Type::Bool,
            Type::Pi { domain, codomain } => (Type::Pi {
                domain: Box::new((**domain).clone()),
                codomain: Box::new((**codomain).clone()),
            }),
            Type::Sigma { fst_type, snd_type } => (Type::Sigma {
                fst_type: Box::new((**fst_type).clone()),
                snd_type: Box::new((**snd_type).clone()),
            }),
            Type::Universe => Type::Universe,
        }
    }
}

/// The mirror of shifting: free variables (indices at or above `offset`)
/// move up by `extra`; `None` when an index would leave `usize`.
pub open spec fn spec_shift(e: Expression, extra: int, offset: int) -> Option<Expression>
    decreases e,
{
    match e {
        Expression::Variable(n) => {
            if n < offset {
                Some(Expression::Variable(n))
            } else if n + extra > usize::MAX {
                None
            } else {
                Some(Expression::Variable((n + extra) as usize))
            }
        },
        Expression::IntroLambda { body } => {
            match spec_shift(*body, extra, offset + 1) {
                Some(b) => Some(Expression::IntroLambda { body: Box::new(b) }),
                None => None,
            }
        },
        Expression::ElimApplication { function, argument } => {
            match (spec_shift(*function, extra, offset), spec_shift(*argument, extra, offset)) {
                (Some(f), Some(a)) => Some(
                    (Expression::ElimApplication { function: Box::new(f), argument: Box::new(a) }),
                ),
                _ => None,
            }
        },
        Expression::IntroType(t) => {
            match *t {
                Type::Pi { domain, codomain } => {
                    match (spec_shift(*domain, extra, offset), spec_shift(
                        *codomain,
                        extra,
                        offset + 1,
                    )) {
                        (Some(d), Some(c)) => Some(
                            (Expression::IntroType(
                                Box::new(Type::Pi { domain: Box::new(d), codomain: Box::new(c) }),
                            )),
                        ),
                        _ => None,
                    }
                },
                Type::Sigma { fst_type, snd_type } => {
                    match (spec_shift(*fst_type, extra, offset), spec_shift(
                        *snd_type,
                        extra,
                        offset + 1,
                    )) {
                        (Some(d), Some(c)) => Some(
                            (Expression::IntroType(
                                Box::new(
                                    Type::Sigma { fst_type: Box::new(d), snd_type: Box::new(c) },
                                ),
                            )),
                        ),
                        _ => None,
                    }
                },
                t2 => Some(Expression::IntroType(Box::new(t2))),
            }
        },
        other => Some(other),
    }
}

/// The mirror of substitution: replace variable `i` by `value` (shifted
/// past `i` binders), decrement the variables above `i`, and leave the
/// ones below; `None` when a shifted index would leave `usize`.
pub open spec fn spec_substitute(e: Expression, i: int, value: Expression) -> Option<Expression>
    decreases e,
{
    match e {
        Expression::Variable(m) => {
            if m > i {
                Some(Expression::Variable((m - 1) as usize))
            } else if m == i {
                spec_shift(value, i, 0)
            } else {
                Some(Expression::Variable(m))
            }
        },
        Expression::IntroLambda { body } => {
            if i + 1 > usize::MAX {
                None
            } else {
                match spec_substitute(*body, i + 1, value) {
                    Some(b) => Some(Expression::IntroLambda { body: Box::new(b) }),
                    None => None,
                }
            }
        },
        Expression::ElimApplication { function, argument } => {
            match (spec_substitute(*function, i, value), spec_substitute(*argument, i, value)) {
                (Some(f), Some(a)) => Some(
                    (Expression::ElimApplication { function: Box::new(f), argument: Box::new(a) }),
                ),
                _ => None,
            }
        },
        Expression::IntroType(t) => {
            match *t {
                Type::Pi { domain, codomain } => {
                    if i + 1 > usize::MAX {
                        None
                    } else {
                        match (spec_substitute(*domain, i, value), spec_substitute(
                            *codomain,
                            i + 1,
                            value,
                        )) {
                            (Some(d), Some(c)) => Some(
                                (Expression::IntroType(
                                    Box::new(
                                        Type::Pi { domain: Box::new(d), codomain: Box::new(c) },
                                    ),
                                )),
                            ),
                            _ => None,
                        }
                    }
                },
                Type::Sigma { fst_type, snd_type } => {
                    if i + 1 > usize::MAX {
                        None
                    } else {
                        match (spec_substitute(*fst_type, i, value), spec_substitute(
                            *snd_type,
                            i + 1,
                            value,
                        )) {
                            (Some(d), Some(c)) => Some(
                                (Expression::IntroType(
                                    Box::new(
                                        Type::Sigma {
                                            fst_type: Box::new(d),
                                            snd_type: Box::new(c),
                                        },
                                    ),
                                )),
                            ),
                            _ => None,
                        }
                    }
                },
                t2 => Some(Expression::IntroType(Box::new(t2))),
            }
        },
        other => Some(other),
    }
}

/// Shift the free variables of `e` (indices at or above `offset`) up by
/// `extra`; reports the machine limit as `None`.
pub fn shift_free(e: &Expression, extra: usize, offset: usize) -> (r: Option<Expression>)
    ensures
        r == spec_shift(*e, extra as int, offset as int),
    decreases *e,
{
    match e {
        Expression::Variable(n) => {
            if *n < offset {
                Some(Expression::Variable(*n))
            } else if extra > usize::MAX - *n {
                None
            } else {
                Some(Expression::Variable(n + extra))
            }
        },
        Expression::IntroLambda { body } => {
            if offset == usize::MAX {
                // no variable index can reach past the largest context
                proof {
                    lemma_shift_high_offset(*(*body), extra as int, offset as int + 1);
                }
                match shift_all(body, extra) {
                    Some(b) => Some(Expression::IntroLambda { body: Box::new(b) }),
                    None => None,
                }
            } else {
                match shift_free(body, extra, offset + 1) {
                    Some(b) => Some(Expression::IntroLambda { body: Box::new(b) }),
                    None => None,
                }
            }
        },
        Expression::ElimApplication { function, argument } => {
            match (shift_free(function, extra, offset), shift_free(argument, extra, offset)) {
                (Some(f), Some(a)) => Some(
                    (Expression::ElimApplication { function: Box::new(f), argument: Box::new(a) }),
                ),
                _ => None,
            }
        },
        Expression::IntroType(t) => {
            match &**t {
                Type::Pi { domain, codomain } => {
                    if offset == usize::MAX {
                        proof {
                            lemma_shift_high_offset(*(*codomain), extra as int, offset as int + 1);
                        }
                        match (shift_free(domain, extra, offset), shift_all(codomain, extra)) {
                            (Some(d), Some(c)) => Some(
                                (Expression::IntroType(
                                    Box::new(
                                        Type::Pi { domain: Box::new(d), codomain: Box::new(c) },
                                    ),
                                )),
                            ),
                            _ => None,
                        }
                    } else {
                        match (shift_free(domain, extra, offset), shift_free(
                            codomain,
                            extra,
                            offset + 1,
                        )) {
                            (Some(d), Some(c)) => Some(
                                (Expression::IntroType(
                                    Box::new(
                                        Type::Pi { domain: Box::new(d), codomain: Box::new(c) },
                                    ),
                                )),
                            ),
                            _ => None,
                        }
                    }
                },
                Type::Sigma { fst_type, snd_type } => {
                    if offset == usize::MAX {
                        proof {
                            lemma_shift_high_offset(*(*snd_type), extra as int, offset as int + 1);
                        }
                        match (shift_free(fst_type, extra, offset), shift_all(snd_type, extra)) {
                            (Some(d), Some(c)) => Some(
                                (Expression::IntroType(
                                    Box::new(
                                        Type::Sigma {
                                            fst_type: Box::new(d),
                                            snd_type: Box::new(c),
                                        },
                                    ),
                                )),
                            ),
                            _ => None,
                        }
                    } else {
                        match (shift_free(fst_type, extra, offset), shift_free(
                            snd_type,
                            extra,
                            offset + 1,
                        )) {
                            (Some(d), Some(c)) => Some(
                                (Expression::IntroType(
                                    Box::new(
                                        Type::Sigma {
                                            fst_type: Box::new(d),
                                            snd_type: Box::new(c),
                                        },
                                    ),
                                )),
                            ),
                            _ => None,
                        }
                    }
                },
                Type::Void => Some(Expression::IntroType(Box::new(Type::Void))),
                Type::Unit => Some(Expression::IntroType(Box::new(Type::Unit))),
                Type::Bool => Some(Expression::IntroType(Box::new(Type::Bool))),
                Type::Universe => Some(Expression::IntroType(Box::new(Type::Universe))),
            }
        },
        Expression::IntroPoint => Some(Expression::IntroPoint),
        Expression::IntroTT => Some(Expression::IntroTT),
        Expression::IntroFF => Some(Expression::IntroFF),
        Expression::ElimIf => Some(Expression::ElimIf),
        Expression::IntroPair => Some(Expression::IntroPair),
        Expression::ElimUncurry => Some(Expression::ElimUncurry),
    }
}

/// With the offset beyond every representable index, shifting touches
/// nothing.
proof fn lemma_shift_high_offset(e: Expression, extra: int, offset: int)
    requires
        offset > usize::MAX,
    ensures
        spec_shift(e, extra, offset) == Some(e),
    decreases e,
{
    match e {
        Expression::IntroLambda { body } => {
            lemma_shift_high_offset(*body, extra, offset + 1);
        },
        Expression::ElimApplication { function, argument } => {
            lemma_shift_high_offset(*function, extra, offset);
            lemma_shift_high_offset(*argument, extra, offset);
        },
        Expression::IntroType(t) => {
            match *t {
                Type::Pi { domain, codomain } => {
                    lemma_shift_high_offset(*domain, extra, offset);
                    lemma_shift_high_offset(*codomain, extra, offset + 1);
                },
                Type::Sigma { fst_type, snd_type } => {
                    lemma_shift_high_offset(*fst_type, extra, offset);
                    lemma_shift_high_offset(*snd_type, extra, offset + 1);
                },
                _ => {
                },
            }
        },
        _ => {
        },
    }
}

/// A shift whose offset exceeds every index: the identity, used to close
/// the recursion at the largest representable binder depth.
fn shift_all(e: &Expression, extra: usize) -> (r: Option<Expression>)
    ensures
        r == Some(*e),
    decreases *e,
{
    Some((*e).clone())
}

/// Substitute `value` for variable `i` in `e`, or report that an index
/// would not fit.
pub fn subst_checked(e: &Expression, i: usize, value: &Expression) -> (r: Option<Expression>)
    ensures
        r == spec_substitute(*e, i as int, *value),
    decreases *e,
{
    match e {
        Expression::Variable(m) => {
            if *m > i {
                Some(Expression::Variable(m - 1))
            } else if *m == i {
                shift_free(value, i, 0)
            } else {
                Some(Expression::Variable(*m))
            }
        },
        Expression::IntroLambda { body } => {
            if i == usize::MAX {
                return None;
            }
            match subst_checked(body, i + 1, value) {
                Some(b) => Some(Expression::IntroLambda { body: Box::new(b) }),
                None => None,
            }
        },
        Expression::ElimApplication { function, argument } => {
            match (subst_checked(function, i, value), subst_checked(argument, i, value)) {
                (Some(f), Some(a)) => Some(
                    (Expression::ElimApplication { function: Box::new(f), argument: Box::new(a) }),
                ),
                _ => None,
            }
        },
        Expression::IntroType(t) => {
            match &**t {
                Type::Pi { domain, codomain } => {
                    if i == usize::MAX {
                        return None;
                    }
                    match (subst_checked(domain, i, value), subst_checked(codomain, i + 1, value)) {
                        (Some(d), Some(c)) => Some(
                            (Expression::IntroType(
                                Box::new(Type::Pi { domain: Box::new(d), codomain: Box::new(c) }),
                            )),
                        ),
                        _ => None,
                    }
                },
                Type::Sigma { fst_type, snd_type } => {
                    if i == usize::MAX {
                        return None;
                    }
                    match (subst_checked(fst_type, i, value), subst_checked(
                        snd_type,
                        i + 1,
                        value,
                    )) {
                        (Some(d), Some(c)) => Some(
                            (Expression::IntroType(
                                Box::new(
                                    Type::Sigma { fst_type: Box::new(d), snd_type: Box::new(c) },
                                ),
                            )),
                        ),
                        _ => None,
                    }
                },
                Type::Void => Some(Expression::IntroType(Box::new(Type::Void))),
                Type::Unit => Some(Expression::IntroType(Box::new(Type::Unit))),
                Type::Bool => Some(Expression::IntroType(Box::new(Type::Bool))),
                Type::Universe => Some(Expression::IntroType(Box::new(Type::Universe))),
            }
        },
        Expression::IntroPoint => Some(Expression::IntroPoint),
        Expression::IntroTT => Some(Expression::IntroTT),
        Expression::IntroFF => Some(Expression::IntroFF),
        Expression::ElimIf => Some(Expression::ElimIf),
        Expression::IntroPair => Some(Expression::IntroPair),
        Expression::ElimUncurry => Some(Expression::ElimUncurry),
    }
}

/// Structural equality of untyped terms.
pub fn expression_eq(a: &Expression, b: &Expression) -> (r: bool)
    ensures
        r == (*a == *b),
    decreases *a,
{
    match (a, b) {
        (Expression::Variable(n), Expression::Variable(m)) => n == m,
        (Expression::IntroLambda { body: b1 }, Expression::IntroLambda { body: b2 }) => {
            expression_eq(b1, b2)
        },
        (
            Expression::ElimApplication { function: f1, argument: a1 },
            Expression::ElimApplication { function: f2, argument: a2 },
        ) => expression_eq(f1, f2) && expression_eq(a1, a2),
        (Expression::IntroPoint, Expression::IntroPoint) => true,
        (Expression::IntroTT, Expression::IntroTT) => true,
        (Expression::IntroFF, Expression::IntroFF) => true,
        (Expression::ElimIf, Expression::ElimIf) => true,
        (Expression::IntroPair, Expression::IntroPair) => true,
        (Expression::ElimUncurry, Expression::ElimUncurry) => true,
        (Expression::IntroType(t1), Expression::IntroType(t2)) => type_eq(t1, t2),
        _ => false,
    }
}

/// Structural equality of untyped type formers.
pub fn type_eq(a: &Type, b: &Type) -> (r: bool)
    ensures
        r == (*a == *b),
    decreases *a,
{
    match (a, b) {
        (Type::Void, Type::Void) => true,
        (Type::Unit, Type::Unit) => true,
        (Type::Bool, Type::Bool) => true,
        (Type::Universe, Type::Universe) => true,
        (Type::Pi { domain: d1, codomain: c1 }, Type::Pi { domain: d2, codomain: c2 }) => {
            expression_eq(d1, d2) && expression_eq(c1, c2)
        },
        (
            Type::Sigma { fst_type: d1, snd_type: c1 },
            Type::Sigma { fst_type: d2, snd_type: c2 },
        ) => expression_eq(d1, d2) && expression_eq(c1, c2),
        _ => false,
    }
}

/// The mirror of bounded normalization: beta-reduce in normal order,
/// consuming one unit of fuel per beta step; `None` when fuel or an index
/// bound runs out.
pub open spec fn spec_reduce(e: Expression, fuel: nat) -> Option<Expression>
    decreases fuel, e,
{
    match e {
        Expression::IntroLambda { body } => {
            match spec_reduce(*body, fuel) {
                Some(b) => Some(Expression::IntroLambda { body: Box::new(b) }),
                None => None,
            }
        },
        Expression::ElimApplication { function, argument } => {
            match spec_reduce(*function, fuel) {
                None => None,
                Some(f) => {
                    if f is IntroLambda {
                        if fuel == 0 {
                            None
                        } else {
                            match spec_substitute(
                                *f->IntroLambda_body,
                                0,
                                *argument,
                            ) {
                                Some(b2) => spec_reduce(b2, (fuel - 1) as nat),
                                None => None,
                            }
                        }
                    } else {
                        match spec_reduce(*argument, fuel) {
                            Some(a) => Some(
                                (Expression::ElimApplication {
                                    function: Box::new(f),
                                    argument: Box::new(a),
                                }),
                            ),
                            None => None,
                        }
                    }
                },
            }
        },
        Expression::IntroType(t) => {
            match *t {
                Type::Pi { domain, codomain } => {
                    match (spec_reduce(*domain, fuel), spec_reduce(*codomain, fuel)) {
                        (Some(d), Some(c)) => Some(
                            (Expression::IntroType(
                                Box::new(Type::Pi { domain: Box::new(d), codomain: Box::new(c) }),
                            )),
                        ),
                        _ => None,
                    }
                },
                Type::Sigma { fst_type, snd_type } => {
                    match (spec_reduce(*fst_type, fuel), spec_reduce(*snd_type, fuel)) {
                        (Some(d), Some(c)) => Some(
                            (Expression::IntroType(
                                Box::new(
                                    Type::Sigma { fst_type: Box::new(d), snd_type: Box::new(c) },
                                ),
                            )),
                        ),
                        _ => None,
                    }
                },
                t2 => Some(Expression::IntroType(Box::new(t2))),
            }
        },
        other => Some(other),
    }
}

/// The fuel given to bounded normalization by `reduces_to`.
pub const REDUCE_FUEL: u64 = 4096;

/// Beta-normalize `e` as far as the given fuel allows.
pub fn reduce(e: &Expression, fuel: u64) -> (r: Option<Expression>)
    ensures
        r == spec_reduce(*e, fuel as nat),
    decreases fuel as nat, *e,
{
    match e {
        Expression::IntroLambda { body } => {
            match reduce(body, fuel) {
                Some(b) => Some(Expression::IntroLambda { body: Box::new(b) }),
                None => None,
            }
        },
        Expression::ElimApplication { function, argument } => {
            match reduce(function, fuel) {
                None => None,
                Some(f) => {
                    let is_lambda = match &f {
                        Expression::IntroLambda { .. } => true,
                        _ => false,
                    };
                    if is_lambda {
                        if fuel == 0 {
                            return None;
                        }
                        let body = match f {
                            Expression::IntroLambda { body } => body,
                            _ => {
                                proof {
                                    assert(false);
                                }
                                Box::new(Expression::IntroPoint)
                            },
                        };
                        match subst_checked(&body, 0, argument) {
                            Some(b2) => reduce(&b2, fuel - 1),
                            None => None,
                        }
                    } else {
                        match reduce(argument, fuel) {
                            Some(a) => Some(
                                (Expression::ElimApplication {
                                    function: Box::new(f),
                                    argument: Box::new(a),
                                }),
                            ),
                            None => None,
                        }
                    }
                },
            }
        },
        Expression::IntroType(t) => {
            match &**t {
                Type::Pi { domain, codomain } => {
                    match (reduce(domain, fuel), reduce(codomain, fuel)) {
                        (Some(d), Some(c)) => Some(
                            (Expression::IntroType(
                                Box::new(Type::Pi { domain: Box::new(d), codomain: Box::new(c) }),
                            )),
                        ),
                        _ => None,
                    }
                },
                Type::Sigma { fst_type, snd_type } => {
                    match (reduce(fst_type, fuel), reduce(snd_type, fuel)) {
                        (Some(d), Some(c)) => Some(
                            (Expression::IntroType(
                                Box::new(
                                    Type::Sigma { fst_type: Box::new(d), snd_type: Box::new(c) },
                                ),
                            )),
                        ),
                        _ => None,
                    }
                },
                Type::Void => Some(Expression::IntroType(Box::new(Type::Void))),
                Type::Unit => Some(Expression::IntroType(Box::new(Type::Unit))),
                Type::Bool => Some(Expression::IntroType(Box::new(Type::Bool))),
                Type::Universe => Some(Expression::IntroType(Box::new(Type::Universe))),
            }
        },
        Expression::Variable(n) => Some(Expression::Variable(*n)),
        Expression::IntroPoint => Some(Expression::IntroPoint),
        Expression::IntroTT => Some(Expression::IntroTT),
        Expression::IntroFF => Some(Expression::IntroFF),
        Expression::ElimIf => Some(Expression::ElimIf),
        Expression::IntroPair => Some(Expression::IntroPair),
        Expression::ElimUncurry => Some(Expression::ElimUncurry),
    }
}

/// Whether the two terms have a common bounded beta-normal form.
pub open spec fn spec_reduces_to(a: Expression, b: Expression) -> bool {
    match (spec_reduce(a, REDUCE_FUEL as nat), spec_reduce(b, REDUCE_FUEL as nat)) {
        (Some(na), Some(nb)) => na == nb,
        _ => false,
    }
}

impl Expression {
    /// Substitute `var` for the outermost variable.  The machine-limit
    /// side condition asks that no shifted index leaves `usize`.
    pub fn substitute(self: &Self, var: &Self) -> (r: Self)
        requires
            spec_substitute(*self, 0, *var) is Some,
        ensures
            Some(r) == spec_substitute(*self, 0, *var),
    {
        match subst_checked(self, 0, var) {
            Some(r) => r,
            None => {
                proof {
                    assert(false);
                }
                Expression::IntroPoint
            },
        }
    }

    /// Whether the two terms beta-reduce to one common normal form,
    /// within a fixed reduction budget.
    pub fn reduces_to(self: &Self, other: &Self) -> (r: bool)
        ensures
            r == spec_reduces_to(*self, *other),
    {
        let na = reduce(self, REDUCE_FUEL);
        let nb = reduce(other, REDUCE_FUEL);
        match (na, nb) {
            (Some(x), Some(y)) => expression_eq(&x, &y),
            _ => false,
        }
    }
}

/// A variable, counted from the innermost binder.
pub fn var(n: usize) -> (r: Expression)
    ensures
        r == Expression::Variable(n),
{
    Expression::Variable(n)
}

/// The eliminator of the empty type, as a function.
pub fn absurd() -> (r: Expression)
    ensures
        r == (Expression::IntroLambda { body: Box::new(Expression::Variable(0)) }),
{
    lambda(var(0))
}

/// The eliminator of the unit type, as a function.
pub fn trivial() -> (r: Expression)
    ensures
        r == (Expression::IntroLambda {
            body: Box::new(
                (Expression::IntroLambda { body: Box::new(Expression::Variable(1)) }),
            ),
        }),
{
    lambda(lambda(var(1)))
}

/// The point of the unit type.
pub fn point() -> (r: Expression)
    ensures
        r == Expression::IntroPoint,
{
    Expression::IntroPoint
}

/// The true boolean.
pub fn tt() -> (r: Expression)
    ensures
        r == Expression::IntroTT,
{
    Expression::IntroTT
}

/// The false boolean.
pub fn ff() -> (r: Expression)
    ensures
        r == Expression::IntroFF,
{
    Expression::IntroFF
}

/// The boolean eliminator applied to both branches and the condition.
pub fn if_then_else(condition: Expression, tt_branch: Expression, ff_branch: Expression) -> (r:
    Expression)
    ensures
        r == spec_apply(
            spec_apply(spec_apply(Expression::ElimIf, tt_branch), ff_branch),
            condition,
        ),
{
    let result = Expression::ElimIf;
    let result = apply(result, tt_branch);
    let result = apply(result, ff_branch);
    let result = apply(result, condition);
    result
}

/// A lambda abstraction.
pub fn lambda(body: Expression) -> (r: Expression)
    ensures
        r == (Expression::IntroLambda { body: Box::new(body) }),
{
    let body = Box::new(body);
    Expression::IntroLambda { body }
}

/// The model of `apply`.
pub open spec fn spec_apply(function: Expression, argument: Expression) -> Expression {
    (Expression::ElimApplication { function: Box::new(function), argument: Box::new(argument) })
}

/// An application node.
pub fn apply(function: Expression, argument: Expression) -> (r: Expression)
    ensures
        r == spec_apply(function, argument),
{
    let function = Box::new(function);
    let argument = Box::new(argument);
    Expression::ElimApplication { function, argument }
}

/// The pair introduction constant applied to both components.
pub fn pair(fst: Expression, snd: Expression) -> (r: Expression)
    ensures
        r == spec_apply(spec_apply(Expression::IntroPair, fst), snd),
{
    let result = Expression::IntroPair;
    let result = apply(result, fst);
    let result = apply(result, snd);
    result
}

/// The dependent-pair eliminator applied to a function.
pub fn uncurry(fun: Expression) -> (r: Expression)
    ensures
        r == spec_apply(Expression::ElimUncurry, fun),
{
    let result = Expression::ElimUncurry;
    let result = apply(result, fun);
    result
}

/// First projection, via `uncurry`.
pub fn fst(x: Expression) -> (r: Expression)
    ensures
        r == spec_apply(
            spec_apply(
                Expression::ElimUncurry,
                (Expression::IntroLambda {
                    body: Box::new(
                        (Expression::IntroLambda { body: Box::new(Expression::Variable(1)) }),
                    ),
                }),
            ),
            x,
        ),
{
    apply(uncurry(lambda(lambda(var(1)))), x)
}

/// Second projection, via `uncurry`.
pub fn snd(x: Expression) -> (r: Expression)
    ensures
        r == spec_apply(
            spec_apply(
                Expression::ElimUncurry,
                (Expression::IntroLambda {
                    body: Box::new(
                        (Expression::IntroLambda { body: Box::new(Expression::Variable(0)) }),
                    ),
                }),
            ),
            x,
        ),
{
    apply(uncurry(lambda(lambda(var(0)))), x)
}

/// Wrap a type former as a term.
pub fn simple_type(typ: Type) -> (r: Expression)
    ensures
        r == Expression::IntroType(Box::new(typ)),
{
    let typ = Box::new(typ);
    Expression::IntroType(typ)
}

/// The empty type.
pub fn void() -> (r: Expression)
    ensures
        r == Expression::IntroType(Box::new(Type::Void)),
{
    simple_type(Type::Void)
}

/// The unit type.
pub fn unit() -> (r: Expression)
    ensures
        r == Expression::IntroType(Box::new(Type::Unit)),
{
    simple_type(Type::Unit)
}

/// The type of booleans.
pub fn bool() -> (r: Expression)
    ensures
        r == Expression::IntroType(Box::new(Type::Bool)),
{
    simple_type(Type::Bool)
}

/// A dependent function type.
pub fn pi(domain: Expression, codomain: Expression) -> (r: Expression)
    ensures
        r == Expression::IntroType(
            Box::new((Type::Pi { domain: Box::new(domain), codomain: Box::new(codomain) })),
        ),
{
    let domain = Box::new(domain);
    let codomain = Box::new(codomain);
    let out = Type::Pi { domain, codomain };
    simple_type(out)
}

/// A dependent pair type.
pub fn sigma(fst_type: Expression, snd_type: Expression) -> (r: Expression)
    ensures
        r == Expression::IntroType(
            Box::new((Type::Sigma { fst_type: Box::new(fst_type), snd_type: Box::new(snd_type) })),
        ),
{
    let fst_type = Box::new(fst_type);
    let snd_type = Box::new(snd_type);
    let out = Type::Sigma { fst_type, snd_type };
    simple_type(out)
}

/// The universe.
pub fn universe() -> (r: Expression)
    ensures
        r == Expression::IntroType(Box::new(Type::Universe)),
{
    simple_type(Type::Universe)
}

/// The fixpoint encoding `(\\x -> x x) (\\x -> f (x x))`.
pub fn fix(x: Expression) -> (r: Expression)
    ensures
        r == spec_apply(
            (Expression::IntroLambda {
                body: Box::new(spec_apply(Expression::Variable(0), Expression::Variable(0))),
            }),
            (Expression::IntroLambda {
                body: Box::new(
                    spec_apply(x, spec_apply(Expression::Variable(0), Expression::Variable(0))),
                ),
            }),
        ),
{
    apply(lambda(apply(var(0), var(0))), lambda(apply(x, apply(var(0), var(0)))))
}

} // verus!
