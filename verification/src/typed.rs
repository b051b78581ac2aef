//! The simply-annotated prototype calculus: named variables and
//! explicitly-typed eliminators, compiled down to the untyped calculus.
use vstd::prelude::*;
use crate::untyped;

verus! {

broadcast use vstd::group_vstd_default;

/// A term with named variables and type annotations.
#[derive(PartialEq, Eq, Debug)]
pub enum Expression {
    Variable { name: String },
    IntroLambda { var_name: String, var_type: Box<Expression>, body: Box<Expression> },
    ElimApplication { function: Box<Expression>, argument: Box<Expression> },
    ElimAbsurd { output_type: Box<Expression> },
    IntroPoint,
    ElimTrivial { predicate: Box<Expression> },
    IntroTT,
    IntroFF,
    ElimIf { out_type: Box<Expression> },
    IntroPair { fst_type: Box<Expression>, snd_type: Box<Expression> },
    ElimUncurry { fst_type: Box<Expression>, snd_type: Box<Expression>, result_type: Box<Expression> },
    IntroType(Box<Type>),
    SpecialFix { output_type: Box<Expression> },
}

/// A type former with named binders.
#[derive(PartialEq, Eq, Debug)]
pub enum Type {
    Void,
    Unit,
    Bool,
    Pi { var_name: String, domain: Box<Expression>, codomain: Box<Expression> },
    Sigma { var_name: String, fst_type: Box<Expression>, snd_type: Box<Expression> },
    Universe,
}

/// The mirror of `find_var`: the de Bruijn distance of the innermost
/// binding of `name`.
pub open spec fn spec_find_var(ctx: Seq<String>, name: Seq<char>) -> Option<usize>
    decreases ctx,
{
    if ctx.len() == 0 {
        None
    } else if ctx.last()@ == name {
        Some(0usize)
    } else {
        match spec_find_var(ctx.drop_last(), name) {
            Some(i) => {
                if i + 1 > usize::MAX {
                    None
                } else {
                    Some((i + 1) as usize)
                }
            },
            None => None,
        }
    }
}

/// A found distance always lies within the context.
pub proof fn lemma_find_var_bound(ctx: Seq<String>, name: Seq<char>)
    ensures
        spec_find_var(ctx, name) matches Some(d) ==> d < ctx.len(),
    decreases ctx,
{
    if ctx.len() > 0 && !(ctx.last()@ == name) {
        lemma_find_var_bound(ctx.drop_last(), name);
    }
}

/// Find the de Bruijn distance of a name in the context.
pub fn find_var_checked(ctx: &Vec<String>, var: &String) -> (r: Option<usize>)
    ensures
        r == spec_find_var(ctx@, var@),
{
    let len = ctx.len();
    proof {
        assert(ctx@.take(len as int) =~= ctx@);
        lemma_find_var_bound(ctx@, var@);
    }
    let mut i: usize = 0;
    while i < len
        invariant
            0 <= i <= len,
            len == ctx@.len(),
            match spec_find_var(ctx@.take(len - i), var@) {
                Some(d) => spec_find_var(ctx@, var@) == Some((d + i) as usize) && d + i < len,
                None => spec_find_var(ctx@, var@) is None,
            },
        decreases len - i,
    {
        let idx = len - i - 1;
        proof {
            lemma_find_var_bound(ctx@.take(len - i), var@);
            lemma_find_var_bound(ctx@.take(len - (i + 1)), var@);
            assert(ctx@.take(len - i).last() == ctx@[idx as int]);
            assert(ctx@.take(len - i).drop_last() =~= ctx@.take(len - (i + 1)));
        }
        if ctx[idx].eq(var) {
            return Some(i);
        }
        i = i + 1;
    }
    proof {
        assert(ctx@.take(0) =~= Seq::<String>::empty());
    }
    None
}

/// The mirror of `convert_with`: compile to the untyped calculus against
/// a stack of bound names; `None` reports an unbound name.
pub open spec fn spec_convert(e: Expression, ctx: Seq<String>) -> Option<untyped::Expression>
    decreases e,
{
    match e {
        Expression::Variable { name } => {
            match spec_find_var(ctx, name@) {
                Some(i) => Some(untyped::Expression::Variable(i)),
                None => None,
            }
        },
        Expression::IntroLambda { var_name, var_type, body } => {
            match spec_convert(*body, ctx.push(var_name)) {
                Some(b) => Some(untyped::Expression::IntroLambda { body: Box::new(b) }),
                None => None,
            }
        },
        Expression::ElimApplication { function, argument } => {
            match (spec_convert(*function, ctx), spec_convert(*argument, ctx)) {
                (Some(f), Some(a)) => Some(
                    (untyped::Expression::ElimApplication {
                        function: Box::new(f),
                        argument: Box::new(a),
                    }),
                ),
                _ => None,
            }
        },
        Expression::ElimAbsurd { output_type } => Some(
            (untyped::Expression::IntroLambda {
                body: Box::new(untyped::Expression::Variable(0)),
            }),
        ),
        Expression::IntroPoint => Some(untyped::Expression::IntroPoint),
        Expression::ElimTrivial { predicate } => Some(
            (untyped::Expression::IntroLambda {
                body: Box::new(
                    (untyped::Expression::IntroLambda {
                        body: Box::new(untyped::Expression::Variable(1)),
                    }),
                ),
            }),
        ),
        Expression::IntroTT => Some(untyped::Expression::IntroTT),
        Expression::IntroFF => Some(untyped::Expression::IntroFF),
        Expression::ElimIf { out_type } => Some(untyped::Expression::ElimIf),
        Expression::IntroPair { fst_type, snd_type } => Some(untyped::Expression::IntroPair),
        Expression::ElimUncurry { fst_type, snd_type, result_type } => Some(
            untyped::Expression::ElimUncurry,
        ),
        Expression::IntroType(t) => {
            match *t {
                Type::Void => Some(untyped::Expression::IntroType(Box::new(untyped::Type::Void))),
                Type::Unit => Some(untyped::Expression::IntroType(Box::new(untyped::Type::Unit))),
                Type::Bool => Some(untyped::Expression::IntroType(Box::new(untyped::Type::Bool))),
                Type::Pi { var_name, domain, codomain } => {
                    match (spec_convert(*domain, ctx), spec_convert(
                        *codomain,
                        ctx.push(var_name),
                    )) {
                        (Some(d), Some(c)) => Some(
                            (untyped::Expression::IntroType(
                                Box::new(
                                    (untyped::Type::Pi {
                                        domain: Box::new(d),
                                        codomain: Box::new(c),
                                    }),
                                ),
                            )),
                        ),
                        _ => None,
                    }
                },
                Type::Sigma { var_name, fst_type, snd_type } => {
                    match (spec_convert(*fst_type, ctx), spec_convert(
                        *snd_type,
                        ctx.push(var_name),
                    )) {
                        (Some(d), Some(c)) => Some(
                            (untyped::Expression::IntroType(
                                Box::new(
                                    (untyped::Type::Sigma {
                                        fst_type: Box::new(d),
                                        snd_type: Box::new(c),
                                    }),
                                ),
                            )),
                        ),
                        _ => None,
                    }
                },
                Type::Universe => Some(
                    untyped::Expression::IntroType(Box::new(untyped::Type::Universe)),
                ),
            }
        },
        Expression::SpecialFix { output_type } => Some(
            (untyped::Expression::IntroLambda {
                body: Box::new(
                    (untyped::Expression::ElimApplication {
                        function: Box::new(
                            (untyped::Expression::IntroLambda {
                                body: Box::new(
                                    (untyped::Expression::ElimApplication {
                                        function: Box::new(untyped::Expression::Variable(0)),
                                        argument: Box::new(untyped::Expression::Variable(0)),
                                    }),
                                ),
                            }),
                        ),
                        argument: Box::new(
                            (untyped::Expression::IntroLambda {
                                body: Box::new(
                                    (untyped::Expression::ElimApplication {
                                        function: Box::new(untyped::Expression::Variable(1)),
                                        argument: Box::new(
                                            (untyped::Expression::ElimApplication {
                                                function: Box::new(
                                                    untyped::Expression::Variable(0),
                                                ),
                                                argument: Box::new(
                                                    untyped::Expression::Variable(0),
                                                ),
                                            }),
                                        ),
                                    }),
                                ),
                            }),
                        ),
                    }),
                ),
            }),
        ),
    }
}

impl Expression {
    /// Whether the compiled forms of the two terms beta-reduce to one
    /// common normal form, within a fixed reduction budget.
    pub fn reduces_to(self: &Self, other: &Self) -> (r: bool)
        requires
            spec_convert(*self, Seq::empty()) is Some,
            spec_convert(*other, Seq::empty()) is Some,
        ensures
            r == untyped::spec_reduces_to(
                spec_convert(*self, Seq::empty()).unwrap(),
                spec_convert(*other, Seq::empty()).unwrap(),
            ),
    {
        let a = self.convert();
        let b = other.convert();
        a.reduces_to(&b)
    }

    /// Compile to the untyped calculus in an empty context; every free
    /// name must be bound.
    pub fn convert(self: &Self) -> (r: untyped::Expression)
        requires
            spec_convert(*self, Seq::empty()) is Some,
        ensures
            Some(r) == spec_convert(*self, Seq::empty()),
    {
        let mut ctx: Vec<String> = Vec::new();
        proof {
            assert(ctx@ =~= Seq::<String>::empty());
        }
        self.convert_with(&mut ctx)
    }

    /// Compile to the untyped calculus against a stack of bound names.
    pub fn convert_with(self: &Self, ctx: &mut Vec<String>) -> (r: untyped::Expression)
        requires
            spec_convert(*self, old(ctx)@) is Some,
        ensures
            final(ctx)@ == old(ctx)@,
            Some(r) == spec_convert(*self, old(ctx)@),
        decreases *self,
    {
        match self {
            Expression::Variable { name } => {
                let i = match find_var_checked(ctx, name) {
                    Some(i) => i,
                    None => {
                        proof {
                            assert(false);
                        }
                        0
                    },
                };
                untyped::Expression::Variable(i)
            },
            Expression::IntroLambda { var_name, var_type, body } => {
                ctx.push(var_name.clone());
                let b = body.convert_with(ctx);
                let _popped = ctx.pop();
                proof {
                    assert(ctx@ =~= old(ctx)@);
                }
                untyped::Expression::IntroLambda { body: Box::new(b) }
            },
            Expression::ElimApplication { function, argument } => {
                let f = function.convert_with(ctx);
                let a = argument.convert_with(ctx);
                untyped::Expression::ElimApplication { function: Box::new(f), argument: Box::new(a) }
            },
            Expression::ElimAbsurd { .. } => (untyped::Expression::IntroLambda {
                body: Box::new(untyped::Expression::Variable(0)),
            }),
            Expression::IntroPoint => untyped::Expression::IntroPoint,
            Expression::ElimTrivial { .. } => (untyped::Expression::IntroLambda {
                body: Box::new(
                    (untyped::Expression::IntroLambda {
                        body: Box::new(untyped::Expression::Variable(1)),
                    }),
                ),
            }),
            Expression::IntroTT => untyped::Expression::IntroTT,
            Expression::IntroFF => untyped::Expression::IntroFF,
            Expression::ElimIf { .. } => untyped::Expression::ElimIf,
            Expression::IntroPair { .. } => untyped::Expression::IntroPair,
            Expression::ElimUncurry { .. } => untyped::Expression::ElimUncurry,
            Expression::IntroType(t) => {
                match &**t {
                    Type::Void => untyped::Expression::IntroType(Box::new(untyped::Type::Void)),
                    Type::Unit => untyped::Expression::IntroType(Box::new(untyped::Type::Unit)),
                    Type::Bool => untyped::Expression::IntroType(Box::new(untyped::Type::Bool)),
                    Type::Pi { var_name, domain, codomain } => {
                        let d = domain.convert_with(ctx);
                        ctx.push(var_name.clone());
                        let c = codomain.convert_with(ctx);
                        let _popped = ctx.pop();
                        proof {
                            assert(ctx@ =~= old(ctx)@);
                        }
                        untyped::Expression::IntroType(
                            Box::new(
                                (untyped::Type::Pi { domain: Box::new(d), codomain: Box::new(c) }),
                            ),
                        )
                    },
                    Type::Sigma { var_name, fst_type, snd_type } => {
                        let d = fst_type.convert_with(ctx);
                        ctx.push(var_name.clone());
                        let c = snd_type.convert_with(ctx);
                        let _popped = ctx.pop();
                        proof {
                            assert(ctx@ =~= old(ctx)@);
                        }
                        untyped::Expression::IntroType(
                            Box::new(
                                (untyped::Type::Sigma {
                                    fst_type: Box::new(d),
                                    snd_type: Box::new(c),
                                }),
                            ),
                        )
                    },
                    Type::Universe => untyped::Expression::IntroType(
                        Box::new(untyped::Type::Universe),
                    ),
                }
            },
            Expression::SpecialFix { .. } => {
                let self_apply = untyped::lambda(
                    untyped::apply(untyped::var(0), untyped::var(0)),
                );
                let f_self_apply = untyped::lambda(
                    untyped::apply(untyped::var(1), untyped::apply(untyped::var(0), untyped::var(0))),
                );
                untyped::lambda(untyped::apply(self_apply, f_self_apply))
            },
        }
    }
}

/// A named variable.
pub fn var(name: String) -> (r: Expression)
    ensures
        r == (Expression::Variable { name }),
{
    Expression::Variable { name }
}

/// A lambda abstraction with a named, typed parameter.
pub fn lambda(var_name: String, var_type: Expression, body: Expression) -> (r: Expression)
    ensures
        r == (Expression::IntroLambda {
            var_name,
            var_type: Box::new(var_type),
            body: Box::new(body),
        }),
{
    let var_type = Box::new(var_type);
    let body = Box::new(body);
    Expression::IntroLambda { var_name, var_type, body }
}

/// An application node.
pub fn apply(function: Expression, argument: Expression) -> (r: Expression)
    ensures
        r == (Expression::ElimApplication {
            function: Box::new(function),
            argument: Box::new(argument),
        }),
{
    let function = Box::new(function);
    let argument = Box::new(argument);
    Expression::ElimApplication { function, argument }
}

/// The empty-type eliminator applied to its scrutinee.
pub fn absurd(void: Expression, output_type: Expression) -> (r: Expression)
    ensures
        r == (Expression::ElimApplication {
            function: Box::new((Expression::ElimAbsurd { output_type: Box::new(output_type) })),
            argument: Box::new(void),
        }),
{
    apply(absurd_fn(output_type), void)
}

/// The empty-type eliminator.
pub fn absurd_fn(output_type: Expression) -> (r: Expression)
    ensures
        r == (Expression::ElimAbsurd { output_type: Box::new(output_type) }),
{
    let output_type = Box::new(output_type);
    Expression::ElimAbsurd { output_type }
}

/// The point of the unit type.
pub fn point() -> (r: Expression)
    ensures
        r == Expression::IntroPoint,
{
    Expression::IntroPoint
}

/// The unit-type eliminator applied to its case.
pub fn trivial(predicate: Expression, case: Expression) -> (r: Expression)
    ensures
        r == (Expression::ElimApplication {
            function: Box::new((Expression::ElimTrivial { predicate: Box::new(predicate) })),
            argument: Box::new(case),
        }),
{
    apply(trivial_fn(predicate), case)
}

/// The unit-type eliminator.
pub fn trivial_fn(predicate: Expression) -> (r: Expression)
    ensures
        r == (Expression::ElimTrivial { predicate: Box::new(predicate) }),
{
    let predicate = Box::new(predicate);
    Expression::ElimTrivial { predicate }
}

/// The true boolean.
pub fn tt() -> (r: Expression)
    ensures
        r == Expression::IntroTT,
{
    Expression::IntroTT
}

/// The false boolean.
pub fn ff() -> (r: Expression)
    ensures
        r == Expression::IntroFF,
{
    Expression::IntroFF
}

/// The model of `bool_elim`.
pub open spec fn spec_bool_elim(
    out_type: Expression,
    tt_branch: Expression,
    ff_branch: Expression,
    condition: Expression,
) -> Expression {
    (Expression::ElimApplication {
        function: Box::new(
            (Expression::ElimApplication {
                function: Box::new(
                    (Expression::ElimApplication {
                        function: Box::new((Expression::ElimIf { out_type: Box::new(out_type) })),
                        argument: Box::new(tt_branch),
                    }),
                ),
                argument: Box::new(ff_branch),
            }),
        ),
        argument: Box::new(condition),
    })
}

/// The boolean eliminator with a constant output type, applied to both
/// branches and the condition.
pub fn if_then_else(
    condition: Expression,
    tt_branch: Expression,
    ff_branch: Expression,
    out_type: Expression,
) -> (r: Expression)
    ensures
        r matches Expression::ElimApplication { function: f1, argument: c } && *c == condition
            && (*f1 matches Expression::ElimApplication { function: f2, argument: fb } && *fb
            == ff_branch && (*f2 matches Expression::ElimApplication { function: f3, argument: tb }
            && *tb == tt_branch && (*f3 matches Expression::ElimIf { out_type: o } && (*o
            matches Expression::IntroLambda { var_name, var_type, body } && var_name@
            == "_"@ && *var_type == Expression::IntroType(Box::new(Type::Bool)) && *body
            == out_type)))),
{
    let out_type_family = lambda(
        new_anonymous(),
        Expression::IntroType(Box::new(Type::Bool)),
        out_type,
    );
    bool_elim(out_type_family, tt_branch, ff_branch, condition)
}

/// The underscore name for an anonymous binder.
fn new_anonymous() -> (r: String)
    ensures
        r@ == "_"@,
{
    String::from_str("_")
}

/// The boolean eliminator with a constant output type.
pub fn if_then_else_fn(out_type: Expression) -> (r: Expression)
    ensures
        r matches Expression::ElimIf { out_type: o } && (*o matches Expression::IntroLambda {
            var_name,
            var_type,
            body,
        } && var_name@ == "_"@ && *var_type == Expression::IntroType(Box::new(Type::Bool)) && *body
            == out_type),
{
    let out_type_family = lambda(
        new_anonymous(),
        Expression::IntroType(Box::new(Type::Bool)),
        out_type,
    );
    bool_elim_fn(out_type_family)
}

/// The boolean eliminator applied to an output family, both branches and
/// the condition.
pub fn bool_elim(
    out_type: Expression,
    tt_branch: Expression,
    ff_branch: Expression,
    condition: Expression,
) -> (r: Expression)
    ensures
        r == spec_bool_elim(out_type, tt_branch, ff_branch, condition),
{
    let result = bool_elim_fn(out_type);
    let result = apply(result, tt_branch);
    let result = apply(result, ff_branch);
    let result = apply(result, condition);
    result
}

/// The boolean eliminator with its output family.
pub fn bool_elim_fn(out_type: Expression) -> (r: Expression)
    ensures
        r == (Expression::ElimIf { out_type: Box::new(out_type) }),
{
    let out_type = Box::new(out_type);
    Expression::ElimIf { out_type }
}

/// A fully-applied pair introduction.
pub fn pair(fst: Expression, snd: Expression, fst_type: Expression, snd_type: Expression) -> (r:
    Expression)
    ensures
        r == (Expression::ElimApplication {
            function: Box::new(
                (Expression::ElimApplication {
                    function: Box::new(
                        (Expression::IntroPair {
                            fst_type: Box::new(fst_type),
                            snd_type: Box::new(snd_type),
                        }),
                    ),
                    argument: Box::new(fst),
                }),
            ),
            argument: Box::new(snd),
        }),
{
    let result = pair_fn(fst_type, snd_type);
    let result = apply(result, fst);
    let result = apply(result, snd);
    result
}

/// The pair introduction constant with its component types.
pub fn pair_fn(fst_type: Expression, snd_type: Expression) -> (r: Expression)
    ensures
        r == (Expression::IntroPair {
            fst_type: Box::new(fst_type),
            snd_type: Box::new(snd_type),
        }),
{
    let fst_type = Box::new(fst_type);
    let snd_type = Box::new(snd_type);
    Expression::IntroPair { fst_type, snd_type }
}

/// The dependent-pair eliminator applied to a function.
pub fn uncurry(
    function: Expression,
    fst_type: Expression,
    snd_type: Expression,
    result_type: Expression,
) -> (r: Expression)
    ensures
        r == (Expression::ElimApplication {
            function: Box::new(
                (Expression::ElimUncurry {
                    fst_type: Box::new(fst_type),
                    snd_type: Box::new(snd_type),
                    result_type: Box::new(result_type),
                }),
            ),
            argument: Box::new(function),
        }),
{
    apply(uncurry_fn(fst_type, snd_type, result_type), function)
}

/// The dependent-pair eliminator with its annotations.
pub fn uncurry_fn(fst_type: Expression, snd_type: Expression, result_type: Expression) -> (r:
    Expression)
    ensures
        r == (Expression::ElimUncurry {
            fst_type: Box::new(fst_type),
            snd_type: Box::new(snd_type),
            result_type: Box::new(result_type),
        }),
{
    let fst_type = Box::new(fst_type);
    let snd_type = Box::new(snd_type);
    let result_type = Box::new(result_type);
    Expression::ElimUncurry { fst_type, snd_type, result_type }
}

/// Wrap a type former as a term.
pub fn simple_type(typ: Type) -> (r: Expression)
    ensures
        r == Expression::IntroType(Box::new(typ)),
{
    let typ = Box::new(typ);
    Expression::IntroType(typ)
}

/// The fixpoint operator applied to a generator.
pub fn fix(output_type: Expression, generator: Expression) -> (r: Expression)
    ensures
        r == (Expression::ElimApplication {
            function: Box::new((Expression::SpecialFix { output_type: Box::new(output_type) })),
            argument: Box::new(generator),
        }),
{
    apply(fix_fn(output_type), generator)
}

/// The fixpoint operator.
pub fn fix_fn(output_type: Expression) -> (r: Expression)
    ensures
        r == (Expression::SpecialFix { output_type: Box::new(output_type) }),
{
    let output_type = Box::new(output_type);
    Expression::SpecialFix { output_type }
}

/// The empty type.
pub fn void() -> (r: Expression)
    ensures
        r == Expression::IntroType(Box::new(Type::Void)),
{
    simple_type(Type::Void)
}

/// The unit type.
pub fn unit() -> (r: Expression)
    ensures
        r == Expression::IntroType(Box::new(Type::Unit)),
{
    simple_type(Type::Unit)
}

/// The type of booleans.
pub fn bool() -> (r: Expression)
    ensures
        r == Expression::IntroType(Box::new(Type::Bool)),
{
    simple_type(Type::Bool)
}

/// A dependent function type with a named binder.
pub fn pi(var_name: String, domain: Expression, codomain: Expression) -> (r: Expression)
    ensures
        r == Expression::IntroType(
            Box::new(
                (Type::Pi { var_name, domain: Box::new(domain), codomain: Box::new(codomain) }),
            ),
        ),
{
    let domain = Box::new(domain);
    let codomain = Box::new(codomain);
    let out = Type::Pi { var_name, domain, codomain };
    simple_type(out)
}

/// A dependent pair type with a named binder.
pub fn sigma(var_name: String, fst_type: Expression, snd_type: Expression) -> (r: Expression)
    ensures
        r == Expression::IntroType(
            Box::new(
                (Type::Sigma {
                    var_name,
                    fst_type: Box::new(fst_type),
                    snd_type: Box::new(snd_type),
                }),
            ),
        ),
{
    let fst_type = Box::new(fst_type);
    let snd_type = Box::new(snd_type);
    let out = Type::Sigma { var_name, fst_type, snd_type };
    simple_type(out)
}

/// The universe.
pub fn universe() -> (r: Expression)
    ensures
        r == Expression::IntroType(Box::new(Type::Universe)),
{
    simple_type(Type::Universe)
}

} // verus!
