//! The bidirectional type checker: synthesizes a type for every
//! expression, consuming arguments against the head's telescope, driving
//! evaluation, substitution and unification, and resolving overloaded
//! heads by trying each candidate.
use vstd::prelude::*;
use crate::eval;
use crate::eval::spec_eval;
use crate::eval::spec_subst;
use crate::globals::Item;
use crate::globals::ItemV;
use crate::globals::items_view;
use crate::globals::lemma_items_view_index;
use crate::globals::lemma_items_view_len;
use crate::term::ElabError;
use crate::term::ErrV;
use crate::term::Expr;
use crate::term::ExprV;
use crate::term::Ident;
use crate::term::expr_eq;
use crate::term::expr_view;
use crate::term::lemma_esize_seq_element;
use crate::term::lemma_view_seq_index;
use crate::term::lemma_view_seq_len;
use crate::term::lemma_view_seq_push;
use crate::term::spec_universe_level;
use crate::term::view_seq;
use crate::unify::Meta;
use crate::unify::MetaV;
use crate::unify::lemma_metas_view_len;
use crate::unify::metas_view;
use crate::unify::spec_unify;

verus! {

broadcast use
    vstd::group_vstd_default,
    lemma_view_seq_len,
    lemma_view_seq_index,
    lemma_esize_seq_element,
    lemma_items_view_len,
    lemma_items_view_index,
    lemma_metas_view_len;

/// Views of an overload table, in order.
pub open spec fn ols_view(s: Seq<Vec<usize>>) -> Seq<Seq<usize>>
    decreases s,
{
    if s.len() == 0 {
        Seq::empty()
    } else {
        ols_view(s.drop_last()).push(s.last()@)
    }
}

pub broadcast proof fn lemma_ols_view_len(s: Seq<Vec<usize>>)
    ensures
        (#[trigger] ols_view(s)).len() == s.len(),
    decreases s,
{
    if s.len() > 0 {
        lemma_ols_view_len(s.drop_last());
    }
}

pub broadcast proof fn lemma_ols_view_index(s: Seq<Vec<usize>>, i: int)
    requires
        0 <= i < s.len(),
    ensures
        #[trigger] ols_view(s)[i] == s[i]@,
    decreases s,
{
    lemma_ols_view_len(s);
    if i < s.len() - 1 {
        lemma_ols_view_index(s.drop_last(), i);
    }
}

pub proof fn lemma_ols_view_update(s: Seq<Vec<usize>>, i: int, v: Vec<usize>)
    requires
        0 <= i < s.len(),
    ensures
        ols_view(s.update(i, v)) =~= ols_view(s).update(i, v@),
{
    broadcast use lemma_ols_view_len, lemma_ols_view_index;

    assert forall|j: int| 0 <= j < s.len() implies ols_view(s.update(i, v))[j] == ols_view(
        s,
    ).update(i, v@)[j] by {
        lemma_ols_view_index(s.update(i, v), j);
    }
}

pub proof fn lemma_ols_view_push(s: Seq<Vec<usize>>, v: Vec<usize>)
    ensures
        ols_view(s.push(v)) == ols_view(s).push(v@),
{
    assert(s.push(v).drop_last() =~= s);
}

/// The type standing in head position for one candidate, and the context
/// size its type is valid in: a local's type is valid in the prefix that
/// precedes its binder; a global's or an overload candidate's type is
/// closed; a metavariable's type is the meta one offset up, read in the
/// full ambient context.
pub open spec fn spec_resolve_head(
    defs: Seq<ItemV>,
    ols: Seq<Seq<usize>>,
    loc: Seq<ExprV>,
    nloc: usize,
    head: Ident,
    ol_i: int,
) -> Result<(ExprV, usize), ErrV> {
    match head {
        Ident::Local(i) => {
            if i >= loc.len() {
                Err(ErrV::NameNotFound)
            } else {
                Ok((loc[i as int], i))
            }
        },
        Ident::Global(i) => {
            if i >= defs.len() {
                Err(ErrV::NameNotFound)
            } else {
                Ok((defs[i as int].ty, 0usize))
            }
        },
        Ident::Overload(i) => {
            if i >= ols.len() || ol_i < 0 || ol_i >= ols[i as int].len() {
                Err(ErrV::NameNotFound)
            } else {
                let g = ols[i as int][ol_i];
                if g >= defs.len() {
                    Err(ErrV::NameNotFound)
                } else {
                    Ok((defs[g as int].ty, 0usize))
                }
            }
        },
        Ident::Meta(i, n) => {
            if n == usize::MAX {
                Err(ErrV::Resource)
            } else {
                Ok(
                    (
                        (ExprV {
                            arrow_params: Seq::empty(),
                            head: Ident::Meta(i, (n + 1) as usize),
                            tail: Seq::empty(),
                        }),
                        nloc,
                    ),
                )
            }
        },
        Ident::Universe(l) => Err(ErrV::NameNotFound),
    }
}

/// One elaboration outcome: the synthesized type and the elaborated
/// expression.
pub open spec fn pair_view(r: Result<(Expr, Expr), ElabError>) -> Result<(ExprV, ExprV), ErrV> {
    match r {
        Ok((a, b)) => Ok((expr_view(a), expr_view(b))),
        Err(e) => Err(e@),
    }
}

/// The state the argument-consumption loop carries: the remaining head
/// type, the context size it is valid in, the window of arguments not
/// yet substituted into it, how many arguments were consumed, whether
/// the current overload candidate is still viable, the partially
/// elaborated argument tail, and the cache of argument types shared
/// across candidates.
pub struct ArgsStateV {
    pub actual: ExprV,
    pub ecs: usize,
    pub subbed: int,
    pub checked: int,
    pub valid: bool,
    pub tail: Seq<ExprV>,
    pub arg_tys: Seq<ExprV>,
}

/// The mirror of the argument-consumption loop of `type_check_expr`.
/// Each argument is checked against the head type's next telescope
/// parameter, instantiated with the already-consumed prefix; when the
/// telescope runs dry the consumed prefix is substituted in and the type
/// weak-evaluated, which must expose more parameters.  For an overload
/// candidate a failing argument merely marks the candidate invalid.
pub open spec fn spec_check_args(
    defs: Seq<ItemV>,
    ols: Seq<Seq<usize>>,
    ms: Seq<MetaV>,
    loc: Seq<ExprV>,
    nloc: usize,
    st: ArgsStateV,
    is_ol: bool,
    fuel: nat,
) -> (Result<ArgsStateV, ErrV>, Seq<MetaV>)
    decreases fuel, 0int, st.tail.len() - st.checked, via spec_check_args_dec
{
    if st.checked < 0 || st.checked >= st.tail.len() || st.subbed < 0 || st.subbed > st.checked {
        (Ok(st), ms)
    } else {
        let step1 = if st.actual.arrow_params.len() == 0 {
            match spec_subst(
                st.actual,
                st.ecs,
                0,
                st.tail.subrange(st.subbed, st.checked),
                nloc,
            ) {
                Err(er) => Err(er),
                Ok(a1) => match spec_eval(defs, a1, nloc, fuel) {
                    Err(er) => Err(er),
                    Ok(a2) => {
                        if a2.arrow_params.len() == 0 {
                            Err(ErrV::ArityMismatch)
                        } else {
                            Ok((a2, nloc, st.checked))
                        }
                    },
                },
            }
        } else {
            Ok((st.actual, st.ecs, st.subbed))
        };
        match step1 {
            Err(er) => (Err(er), ms),
            Ok((actual1, ecs1, subbed1)) => {
                let arg_expected_base = actual1.arrow_params[0];
                let actual_rest = ExprV {
                    arrow_params: actual1.arrow_params.drop_first(),
                    head: actual1.head,
                    tail: actual1.tail,
                };
                match spec_subst(
                    arg_expected_base,
                    ecs1,
                    0,
                    st.tail.subrange(subbed1, st.checked),
                    nloc,
                ) {
                    Err(er) => (Err(er), ms),
                    Ok(exp1) => match spec_eval(defs, exp1, nloc, fuel) {
                        Err(er) => (Err(er), ms),
                        Ok(arg_expected) => {
                            let cached = if st.checked >= st.arg_tys.len() {
                                let goal = if is_ol {
                                    None
                                } else {
                                    Some(arg_expected)
                                };
                                if fuel == 0 {
                                    Err((ErrV::Resource, ms))
                                } else {
                                    match spec_elab(
                                        defs,
                                        ols,
                                        ms,
                                        loc,
                                        nloc,
                                        st.tail[st.checked],
                                        goal,
                                        (fuel - 1) as nat,
                                    ) {
                                        (Err(er), ms1) => Err((er, ms1)),
                                        (Ok((aty, aelab)), ms1) => Ok(
                                            (
                                                st.tail.update(st.checked, aelab),
                                                st.arg_tys.push(aty),
                                                ms1,
                                            ),
                                        ),
                                    }
                                }
                            } else {
                                Ok((st.tail, st.arg_tys, ms))
                            };
                            match cached {
                                Err((er, ms1)) => (Err(er), ms1),
                                Ok((tail1, tys1, ms1)) => {
                                    if is_ol && tys1[st.checked] != arg_expected {
                                        (
                                            Ok(
                                                (ArgsStateV {
                                                    actual: actual_rest,
                                                    ecs: ecs1,
                                                    subbed: subbed1,
                                                    valid: false,
                                                    tail: tail1,
                                                    arg_tys: tys1,
                                                    ..st
                                                }),
                                            ),
                                            ms1,
                                        )
                                    } else {
                                        spec_check_args(
                                            defs,
                                            ols,
                                            ms1,
                                            loc,
                                            nloc,
                                            (ArgsStateV {
                                                actual: actual_rest,
                                                ecs: ecs1,
                                                subbed: subbed1,
                                                checked: st.checked + 1,
                                                valid: st.valid,
                                                tail: tail1,
                                                arg_tys: tys1,
                                            }),
                                            is_ol,
                                            fuel,
                                        )
                                    }
                                },
                            }
                        },
                    },
                }
            },
        }
    }
}

#[via_fn]
proof fn spec_check_args_dec(
    defs: Seq<ItemV>,
    ols: Seq<Seq<usize>>,
    ms: Seq<MetaV>,
    loc: Seq<ExprV>,
    nloc: usize,
    st: ArgsStateV,
    is_ol: bool,
    fuel: nat,
) {
}

/// The mirror of the overload-candidate loop: each candidate's head type
/// is tried against all the arguments and, where given, the expected
/// type; exactly one candidate must remain.  A singleton group was
/// already rewritten to its only member, so `num > 1` only for genuine
/// overloads.
pub open spec fn spec_candidates(
    defs: Seq<ItemV>,
    ols: Seq<Seq<usize>>,
    ms: Seq<MetaV>,
    loc: Seq<ExprV>,
    nloc: usize,
    head: Ident,
    tail: Seq<ExprV>,
    arg_tys: Seq<ExprV>,
    expected: Option<ExprV>,
    ol_i: int,
    num: int,
    sol: Option<ExprV>,
    new_head: Option<Ident>,
    fuel: nat,
) -> (Result<(ExprV, Seq<ExprV>, Ident), ErrV>, Seq<MetaV>)
    decreases fuel, 1int, num - ol_i, via spec_candidates_dec
{
    if ol_i < 0 || ol_i >= num {
        match sol {
            None => (Err(ErrV::OverloadFailure), ms),
            Some(ty) => {
                let final_head = match new_head {
                    Some(h) => h,
                    None => head,
                };
                (Ok((ty, tail, final_head)), ms)
            },
        }
    } else {
        match spec_resolve_head(defs, ols, loc, nloc, head, ol_i) {
            Err(er) => (Err(er), ms),
            Ok((cand_ty, ecs0)) => {
                let st0 = ArgsStateV {
                    actual: cand_ty,
                    ecs: ecs0,
                    subbed: 0,
                    checked: 0,
                    valid: true,
                    tail: tail,
                    arg_tys: arg_tys,
                };
                match spec_check_args(defs, ols, ms, loc, nloc, st0, head is Overload, fuel) {
                    (Err(er), ms1) => (Err(er), ms1),
                    (Ok(st1), ms1) => {
                        if st1.subbed < 0 || st1.subbed > st1.checked || st1.checked
                            > st1.tail.len() {
                            (Err(ErrV::Resource), ms1)
                        } else {
                        match spec_subst(
                            st1.actual,
                            st1.ecs,
                            0,
                            st1.tail.subrange(st1.subbed, st1.checked),
                            nloc,
                        ) {
                            Err(er) => (Err(er), ms1),
                            Ok(a1) => match spec_eval(defs, a1, nloc, fuel) {
                                Err(er) => (Err(er), ms1),
                                Ok(actual2) => {
                                    let after_exp = if expected is Some {
                                        if head is Overload {
                                            Ok((st1.valid && actual2 == expected->0, ms1))
                                        } else {
                                            let (ur, ms2) = spec_unify(
                                                ms1,
                                                None,
                                                actual2,
                                                expected->0,
                                                fuel,
                                            );
                                            match ur {
                                                Ok(()) => Ok((st1.valid, ms2)),
                                                Err(ErrV::UnificationFailure) => Err(
                                                    (
                                                        ErrV::TypeMismatch {
                                                            expected: expected->0,
                                                            actual: actual2,
                                                        },
                                                        ms2,
                                                    ),
                                                ),
                                                Err(er) => Err((er, ms2)),
                                            }
                                        }
                                    } else {
                                        Ok((st1.valid, ms1))
                                    };
                                    match after_exp {
                                        Err((er, ms2)) => (Err(er), ms2),
                                        Ok((valid2, ms2)) => {
                                            if valid2 {
                                                if sol is Some {
                                                    (Err(ErrV::OverloadFailure), ms2)
                                                } else {
                                                    let nh = match head {
                                                        Ident::Overload(i) => Some(
                                                            Ident::Global(ols[i as int][ol_i]),
                                                        ),
                                                        _ => None,
                                                    };
                                                    spec_candidates(
                                                        defs,
                                                        ols,
                                                        ms2,
                                                        loc,
                                                        nloc,
                                                        head,
                                                        st1.tail,
                                                        st1.arg_tys,
                                                        expected,
                                                        ol_i + 1,
                                                        num,
                                                        Some(actual2),
                                                        nh,
                                                        fuel,
                                                    )
                                                }
                                            } else {
                                                spec_candidates(
                                                    defs,
                                                    ols,
                                                    ms2,
                                                    loc,
                                                    nloc,
                                                    head,
                                                    st1.tail,
                                                    st1.arg_tys,
                                                    expected,
                                                    ol_i + 1,
                                                    num,
                                                    sol,
                                                    new_head,
                                                    fuel,
                                                )
                                            }
                                        },
                                    }
                                },
                            },
                        }
                        }
                    },
                }
            },
        }
    }
}

#[via_fn]
proof fn spec_candidates_dec(
    defs: Seq<ItemV>,
    ols: Seq<Seq<usize>>,
    ms: Seq<MetaV>,
    loc: Seq<ExprV>,
    nloc: usize,
    head: Ident,
    tail: Seq<ExprV>,
    arg_tys: Seq<ExprV>,
    expected: Option<ExprV>,
    ol_i: int,
    num: int,
    sol: Option<ExprV>,
    new_head: Option<Ident>,
    fuel: nat,
) {
}

/// The mirror of `type_check_expr`/`calculate_type`.  See the exec
/// function for the step-by-step account.
pub open spec fn spec_elab(
    defs: Seq<ItemV>,
    ols: Seq<Seq<usize>>,
    ms: Seq<MetaV>,
    loc: Seq<ExprV>,
    nloc: usize,
    e: ExprV,
    expected: Option<ExprV>,
    fuel: nat,
) -> (Result<(ExprV, ExprV), ErrV>, Seq<MetaV>)
    decreases fuel, 2int, 0int, via spec_elab_dec
{
    let head1 = match e.head {
        Ident::Overload(i) => {
            if i >= ols.len() {
                None
            } else if ols[i as int].len() == 1 {
                Some(Ident::Global(ols[i as int][0]))
            } else {
                Some(e.head)
            }
        },
        _ => Some(e.head),
    };
    match head1 {
        None => (Err(ErrV::NameNotFound), ms),
        Some(head1) => {
            match spec_elab_params(defs, ols, ms, loc, nloc, e.arrow_params, 0, fuel) {
                (Err(er), ms1) => (Err(er), ms1),
                (Ok(ps), ms1) => {
                    let loc2 = loc + ps;
                    let nloc2 = (nloc + ps.len()) as usize;
                    if nloc + e.arrow_params.len() > usize::MAX {
                        (Err(ErrV::Resource), ms1)
                    } else {
                        match head1 {
                            Ident::Universe(l) => {
                                if e.tail.len() > 0 {
                                    (Err(ErrV::ArityMismatch), ms1)
                                } else if l == usize::MAX {
                                    (Err(ErrV::Resource), ms1)
                                } else {
                                    (
                                        Ok(
                                            (
                                                (ExprV {
                                                    arrow_params: Seq::empty(),
                                                    head: Ident::Universe((l + 1) as usize),
                                                    tail: Seq::empty(),
                                                }),
                                                (ExprV {
                                                    arrow_params: ps,
                                                    head: head1,
                                                    tail: Seq::empty(),
                                                }),
                                            ),
                                        ),
                                        ms1,
                                    )
                                }
                            },
                            _ => {
                                let num = match head1 {
                                    Ident::Overload(i) => ols[i as int].len() as int,
                                    _ => 1,
                                };
                                match spec_candidates(
                                    defs,
                                    ols,
                                    ms1,
                                    loc2,
                                    nloc2,
                                    head1,
                                    e.tail,
                                    Seq::empty(),
                                    expected,
                                    0,
                                    num,
                                    None,
                                    None,
                                    fuel,
                                ) {
                                    (Err(er), ms2) => (Err(er), ms2),
                                    (Ok((ty, tail2, head2)), ms2) => {
                                        if ps.len() > 0 && spec_universe_level(ty) is None {
                                            (Err(ErrV::NotAUniverse), ms2)
                                        } else {
                                            (
                                                Ok(
                                                    (
                                                        ty,
                                                        (ExprV {
                                                            arrow_params: ps,
                                                            head: head2,
                                                            tail: tail2,
                                                        }),
                                                    ),
                                                ),
                                                ms2,
                                            )
                                        }
                                    },
                                }
                            },
                        }
                    }
                },
            }
        },
    }
}

#[via_fn]
proof fn spec_elab_dec(
    defs: Seq<ItemV>,
    ols: Seq<Seq<usize>>,
    ms: Seq<MetaV>,
    loc: Seq<ExprV>,
    nloc: usize,
    e: ExprV,
    expected: Option<ExprV>,
    fuel: nat,
) {
    assert(e.arrow_params.skip(0) =~= e.arrow_params);
}

/// Check the telescope parameters `s[k..]` as universe elements, each in
/// the context extended by those before it, collecting the elaborated
/// parameters.
pub open spec fn spec_elab_params(
    defs: Seq<ItemV>,
    ols: Seq<Seq<usize>>,
    ms: Seq<MetaV>,
    loc: Seq<ExprV>,
    nloc: usize,
    s: Seq<ExprV>,
    k: int,
    fuel: nat,
) -> (Result<Seq<ExprV>, ErrV>, Seq<MetaV>)
    decreases fuel, 1int, s.len() - k, via spec_elab_params_dec
{
    if k < 0 || k >= s.len() {
        (Ok(Seq::empty()), ms)
    } else if nloc == usize::MAX {
        (Err(ErrV::Resource), ms)
    } else {
        match spec_sort_check(defs, ols, ms, loc, nloc, s[k], fuel) {
            (Err(er), ms1) => (Err(er), ms1),
            (Ok((_l, p0)), ms1) => {
                match spec_elab_params(
                    defs,
                    ols,
                    ms1,
                    loc.push(p0),
                    (nloc + 1) as usize,
                    s,
                    k + 1,
                    fuel,
                ) {
                    (Err(er), ms2) => (Err(er), ms2),
                    (Ok(ps), ms2) => (Ok(seq![p0] + ps), ms2),
                }
            },
        }
    }
}

#[via_fn]
proof fn spec_elab_params_dec(
    defs: Seq<ItemV>,
    ols: Seq<Seq<usize>>,
    ms: Seq<MetaV>,
    loc: Seq<ExprV>,
    nloc: usize,
    s: Seq<ExprV>,
    k: int,
    fuel: nat,
) {
}

/// The mirror of `sort_check_expr`: the expression must synthesize a
/// bare universe.
pub open spec fn spec_sort_check(
    defs: Seq<ItemV>,
    ols: Seq<Seq<usize>>,
    ms: Seq<MetaV>,
    loc: Seq<ExprV>,
    nloc: usize,
    e: ExprV,
    fuel: nat,
) -> (Result<(usize, ExprV), ErrV>, Seq<MetaV>)
    decreases fuel, 0int, 0int,
{
    if fuel == 0 {
        (Err(ErrV::Resource), ms)
    } else {
        match spec_elab(defs, ols, ms, loc, nloc, e, None, (fuel - 1) as nat) {
            (Err(er), ms1) => (Err(er), ms1),
            (Ok((ty, elab)), ms1) => {
                match spec_universe_level(ty) {
                    Some(l) => (Ok((l, elab)), ms1),
                    None => (Err(ErrV::NotAUniverse), ms1),
                }
            },
        }
    }
}


/// The type standing in head position for one candidate; see
/// `spec_resolve_head`.
fn resolve_head(
    defs: &Vec<Item>,
    ols: &Vec<Vec<usize>>,
    locals: &Vec<Expr>,
    nloc: usize,
    head: Ident,
    ol_i: usize,
) -> (r: Result<(Expr, usize), ElabError>)
    ensures
        match spec_resolve_head(
            items_view(defs@),
            ols_view(ols@),
            view_seq(locals@),
            nloc,
            head,
            ol_i as int,
        ) {
            Ok((t, e)) => r matches Ok(p) && expr_view(p.0) == t && p.1 == e,
            Err(er) => r matches Err(x) && x@ == er,
        },
{
    proof {
        broadcast use lemma_ols_view_len, lemma_ols_view_index;

    }
    match head {
        Ident::Local(i) => {
            if i >= locals.len() {
                Err(ElabError::NameNotFound)
            } else {
                Ok((locals[i].clone(), i))
            }
        },
        Ident::Global(i) => {
            if i >= defs.len() {
                Err(ElabError::NameNotFound)
            } else {
                Ok((defs[i].ty.clone(), 0))
            }
        },
        Ident::Overload(i) => {
            if i >= ols.len() || ol_i >= ols[i].len() {
                Err(ElabError::NameNotFound)
            } else {
                let g = ols[i][ol_i];
                if g >= defs.len() {
                    Err(ElabError::NameNotFound)
                } else {
                    Ok((defs[g].ty.clone(), 0))
                }
            }
        },
        Ident::Meta(i, n) => {
            if n == usize::MAX {
                Err(ElabError::Resource)
            } else {
                Ok((Expr::ident(Ident::Meta(i, n + 1)), nloc))
            }
        },
        Ident::Universe(_l) => Err(ElabError::NameNotFound),
    }
}

/// Consume arguments against the head type's telescope; see
/// `spec_check_args`.
#[verifier::rlimit(50)]
fn check_args(
    defs: &Vec<Item>,
    ols: &Vec<Vec<usize>>,
    metas: &mut Vec<Meta>,
    locals: &mut Vec<Expr>,
    nloc: usize,
    tail: &mut Vec<Expr>,
    arg_tys: &mut Vec<Expr>,
    checked: usize,
    subbed: usize,
    actual: Expr,
    ecs: usize,
    valid: bool,
    is_ol: bool,
    fuel: u64,
) -> (r: Result<(Expr, usize, usize, usize, bool), ElabError>)
    requires
        nloc == old(locals)@.len(),
        checked <= old(arg_tys)@.len(),
    ensures
        final(locals)@ == old(locals)@,
        ({
            let st0 = ArgsStateV {
                actual: expr_view(actual),
                ecs: ecs,
                subbed: subbed as int,
                checked: checked as int,
                valid: valid,
                tail: view_seq(old(tail)@),
                arg_tys: view_seq(old(arg_tys)@),
            };
            let (res, ms2) = spec_check_args(
                items_view(defs@),
                ols_view(ols@),
                metas_view(old(metas)@),
                view_seq(old(locals)@),
                nloc,
                st0,
                is_ol,
                fuel as nat,
            );
            &&& metas_view(final(metas)@) == ms2
            &&& match res {
                Ok(st1) => r matches Ok(t) && expr_view(t.0) == st1.actual && t.1 == st1.ecs && t.2
                    == st1.subbed && t.3 == st1.checked && t.4 == st1.valid && view_seq(
                    final(tail)@,
                ) == st1.tail && view_seq(final(arg_tys)@) == st1.arg_tys,
                Err(e) => r matches Err(er) && er@ == e,
            }
        }),
    decreases fuel as nat, 0int, tail@.len() - checked,
{
    let ghost defsv = items_view(defs@);
    let ghost olsv = ols_view(ols@);
    let ghost st0 = ArgsStateV {
        actual: expr_view(actual),
        ecs: ecs,
        subbed: subbed as int,
        checked: checked as int,
        valid: valid,
        tail: view_seq(tail@),
        arg_tys: view_seq(arg_tys@),
    };
    if checked >= tail.len() || subbed > checked {
        return Ok((actual, ecs, subbed, checked, valid));
    }
    let mut actual1 = actual;
    let mut ecs1 = ecs;
    let mut subbed1 = subbed;
    if actual1.arrow_params.len() == 0 {
        let mut window: Vec<Expr> = Vec::new();
        let mut w: usize = subbed;
        while w < checked
            invariant
                subbed <= w <= checked,
                checked <= tail@.len(),
                window@.len() == w - subbed,
                forall|j: int|
                    0 <= j < window@.len() ==> expr_view(#[trigger] window@[j]) == expr_view(
                        tail@[subbed + j],
                    ),
            decreases checked - w,
        {
            window.push(tail[w].clone());
            w = w + 1;
        }
        proof {
            assert(view_seq(window@) =~= view_seq(tail@).subrange(subbed as int, checked as int));
        }
        let a1 = match eval::subst(&actual1, ecs1, 0, window.as_slice(), nloc) {
            Ok(v) => v,
            Err(e) => {
                return Err(e);
            },
        };
        let a2 = match eval::eval(defs, &a1, nloc, fuel) {
            Ok(v) => v,
            Err(e) => {
                return Err(e);
            },
        };
        if a2.arrow_params.len() == 0 {
            return Err(ElabError::ArityMismatch);
        }
        actual1 = a2;
        ecs1 = nloc;
        subbed1 = checked;
    }
    let mut actual1 = actual1;
    let ghost a1v = expr_view(actual1);
    let ghost op = actual1.arrow_params@;
    let arg_expected_base = actual1.arrow_params.remove(0);
    proof {
        assert(actual1.arrow_params@ =~= op.drop_first());
        assert forall|jj: int| 0 <= jj < actual1.arrow_params@.len() implies view_seq(
            actual1.arrow_params@,
        )[jj] == a1v.arrow_params.drop_first()[jj] by {
            lemma_view_seq_index(actual1.arrow_params@, jj);
            lemma_view_seq_index(op, jj + 1);
            assert(actual1.arrow_params@[jj] == op[jj + 1]);
        }
        lemma_view_seq_len(op);
        assert(a1v.arrow_params == view_seq(op));
        assert(view_seq(actual1.arrow_params@) =~= a1v.arrow_params.drop_first());
        lemma_view_seq_index(op, 0);
        assert(expr_view(arg_expected_base) == a1v.arrow_params[0]);
        assert(expr_view(actual1) == (ExprV {
            arrow_params: a1v.arrow_params.drop_first(),
            head: a1v.head,
            tail: a1v.tail,
        }));
    }
    let mut window2: Vec<Expr> = Vec::new();
    let mut w2: usize = subbed1;
    while w2 < checked
        invariant
            subbed1 <= w2 <= checked,
            checked <= tail@.len(),
            window2@.len() == w2 - subbed1,
            forall|j: int|
                0 <= j < window2@.len() ==> expr_view(#[trigger] window2@[j]) == expr_view(
                    tail@[subbed1 + j],
                ),
        decreases checked - w2,
    {
        window2.push(tail[w2].clone());
        w2 = w2 + 1;
    }
    proof {
        assert(view_seq(window2@) =~= view_seq(tail@).subrange(subbed1 as int, checked as int));
    }
    let exp1 = match eval::subst(&arg_expected_base, ecs1, 0, window2.as_slice(), nloc) {
        Ok(v) => v,
        Err(e) => {
            return Err(e);
        },
    };
    let arg_expected = match eval::eval(defs, &exp1, nloc, fuel) {
        Ok(v) => v,
        Err(e) => {
            return Err(e);
        },
    };
    if checked >= arg_tys.len() {
        if fuel == 0 {
            return Err(ElabError::Resource);
        }
        let goal = if is_ol {
            None
        } else {
            Some(&arg_expected)
        };
        let (aty, aelab) = match type_check_expr(
            defs,
            ols,
            metas,
            locals,
            &tail[checked],
            goal,
            fuel - 1,
        ) {
            Ok(p) => p,
            Err(e) => {
                return Err(e);
            },
        };
        let ghost tail_pre = tail@;
        let ghost tys_pre = arg_tys@;
        tail.set(checked, aelab);
        arg_tys.push(aty);
        proof {
            assert(view_seq(tail@) =~= view_seq(tail_pre).update(
                checked as int,
                expr_view(tail@[checked as int]),
            ));
            lemma_view_seq_push(tys_pre, arg_tys@.last());
        }
    }
    if is_ol {
        let same = expr_eq(&arg_tys[checked], &arg_expected);
        if !same {
            return Ok((actual1, ecs1, subbed1, checked, false));
        }
    }
    check_args(
        defs,
        ols,
        metas,
        locals,
        nloc,
        tail,
        arg_tys,
        checked + 1,
        subbed1,
        actual1,
        ecs1,
        valid,
        is_ol,
        fuel,
    )
}

/// Try each overload candidate in turn; see `spec_candidates`.
#[verifier::rlimit(100)]
fn try_candidates(
    defs: &Vec<Item>,
    ols: &Vec<Vec<usize>>,
    metas: &mut Vec<Meta>,
    locals: &mut Vec<Expr>,
    nloc: usize,
    head: Ident,
    tail: &mut Vec<Expr>,
    arg_tys: &mut Vec<Expr>,
    expected: Option<&Expr>,
    ol_i: usize,
    num: usize,
    sol: Option<Expr>,
    new_head: Option<Ident>,
    fuel: u64,
) -> (r: Result<(Expr, Ident), ElabError>)
    requires
        nloc == old(locals)@.len(),
    ensures
        final(locals)@ == old(locals)@,
        ({
            let (res, ms2) = spec_candidates(
                items_view(defs@),
                ols_view(ols@),
                metas_view(old(metas)@),
                view_seq(old(locals)@),
                nloc,
                head,
                view_seq(old(tail)@),
                view_seq(old(arg_tys)@),
                match expected {
                    Some(e) => Some(expr_view(*e)),
                    None => None,
                },
                ol_i as int,
                num as int,
                match sol {
                    Some(e) => Some(expr_view(e)),
                    None => None,
                },
                new_head,
                fuel as nat,
            );
            &&& metas_view(final(metas)@) == ms2
            &&& match res {
                Ok((ty, tail2, h2)) => r matches Ok(p) && expr_view(p.0) == ty && p.1 == h2
                    && view_seq(final(tail)@) == tail2,
                Err(e) => r matches Err(er) && er@ == e,
            }
        }),
    decreases fuel as nat, 1int, num - ol_i,
{
    let ghost defsv = items_view(defs@);
    let ghost olsv = ols_view(ols@);
    proof {
        broadcast use lemma_ols_view_len, lemma_ols_view_index;

    }
    if ol_i >= num {
        return match sol {
            None => Err(ElabError::OverloadFailure),
            Some(ty) => {
                let final_head = match new_head {
                    Some(h) => h,
                    None => head,
                };
                Ok((ty, final_head))
            },
        };
    }
    let (cand_ty, ecs0) = match resolve_head(defs, ols, locals, nloc, head, ol_i) {
        Ok(p) => p,
        Err(e) => {
            return Err(e);
        },
    };
    let is_ol = match head {
        Ident::Overload(_i) => true,
        _ => false,
    };
    let (actual_l, ecs_l, subbed_l, checked_l, valid_l) = match check_args(
        defs,
        ols,
        metas,
        locals,
        nloc,
        tail,
        arg_tys,
        0,
        0,
        cand_ty,
        ecs0,
        true,
        is_ol,
        fuel,
    ) {
        Ok(t) => t,
        Err(e) => {
            return Err(e);
        },
    };
    if subbed_l > checked_l || checked_l > tail.len() {
        return Err(ElabError::Resource);
    }
    let mut window: Vec<Expr> = Vec::new();
    let mut w: usize = subbed_l;
    while w < checked_l
        invariant
            subbed_l <= w <= checked_l,
            checked_l <= tail@.len(),
            window@.len() == w - subbed_l,
            forall|j: int|
                0 <= j < window@.len() ==> expr_view(#[trigger] window@[j]) == expr_view(
                    tail@[subbed_l + j],
                ),
        decreases checked_l - w,
    {
        window.push(tail[w].clone());
        w = w + 1;
    }
    proof {
        assert(view_seq(window@) =~= view_seq(tail@).subrange(subbed_l as int, checked_l as int));
    }
    let a1 = match eval::subst(&actual_l, ecs_l, 0, window.as_slice(), nloc) {
        Ok(v) => v,
        Err(e) => {
            return Err(e);
        },
    };
    let actual2 = match eval::eval(defs, &a1, nloc, fuel) {
        Ok(v) => v,
        Err(e) => {
            return Err(e);
        },
    };
    let mut valid2 = valid_l;
    if let Some(exp) = expected {
        if is_ol {
            valid2 = valid2 && expr_eq(&actual2, exp);
        } else {
            match crate::unify::unify(metas, actual2.clone(), exp.clone(), fuel) {
                Ok(()) => (),
                Err(ElabError::UnificationFailure) => {
                    return Err(
                        (ElabError::TypeMismatch { expected: exp.clone(), actual: actual2 }),
                    );
                },
                Err(e) => {
                    return Err(e);
                },
            }
        }
    }
    if valid2 {
        if sol.is_some() {
            return Err(ElabError::OverloadFailure);
        }
        let nh = match head {
            Ident::Overload(i) => Some(Ident::Global(ols[i][ol_i])),
            _ => None,
        };
        try_candidates(
            defs,
            ols,
            metas,
            locals,
            nloc,
            head,
            tail,
            arg_tys,
            expected,
            ol_i + 1,
            num,
            Some(actual2),
            nh,
            fuel,
        )
    } else {
        try_candidates(
            defs,
            ols,
            metas,
            locals,
            nloc,
            head,
            tail,
            arg_tys,
            expected,
            ol_i + 1,
            num,
            sol,
            new_head,
            fuel,
        )
    }
}

/// Synthesize a type for `expr` and, where a goal is given, require it to
/// unify with the goal; returns the type and the elaborated expression
/// (overloaded heads rewritten to their unique viable candidate).  See
/// `spec_elab` for the exact account.
#[verifier::rlimit(100)]
pub fn type_check_expr(
    defs: &Vec<Item>,
    overloads: &Vec<Vec<usize>>,
    metas: &mut Vec<Meta>,
    locals: &mut Vec<Expr>,
    expr: &Expr,
    expected: Option<&Expr>,
    fuel: u64,
) -> (r: Result<(Expr, Expr), ElabError>)
    ensures
        final(locals)@ == old(locals)@,
        ({
            let (res, ms2) = spec_elab(
                items_view(defs@),
                ols_view(overloads@),
                metas_view(old(metas)@),
                view_seq(old(locals)@),
                old(locals)@.len() as usize,
                expr_view(*expr),
                match expected {
                    Some(e) => Some(expr_view(*e)),
                    None => None,
                },
                fuel as nat,
            );
            &&& metas_view(final(metas)@) == ms2
            &&& pair_view(r) == res
        }),
    decreases fuel as nat, 2int, 0int,
{
    let ghost defsv = items_view(defs@);
    let ghost olsv = ols_view(overloads@);
    let ghost ev = expr_view(*expr);
    let ghost nloc0 = locals@.len() as usize;
    proof {
        broadcast use lemma_ols_view_len, lemma_ols_view_index;

        assert(ev.arrow_params.skip(0) =~= ev.arrow_params);
    }
    let head1 = match expr.head {
        Ident::Overload(i) => {
            if i >= overloads.len() {
                return Err(ElabError::NameNotFound);
            }
            if overloads[i].len() == 1 {
                Ident::Global(overloads[i][0])
            } else {
                expr.head
            }
        },
        h => h,
    };
    let base_len = locals.len();
    let ghost loc0 = view_seq(locals@);
    let mut converted: Vec<Expr> = Vec::new();
    let mut k: usize = 0;
    let ghost pv = ev.arrow_params;
    proof {
        lemma_view_seq_len(expr.arrow_params@);
        assert(pv == view_seq(expr.arrow_params@));
        assert(locals@.take(base_len as int) =~= locals@);
        assert(view_seq(locals@).take(base_len as int) =~= loc0);
        assert(loc0 + view_seq(converted@) =~= view_seq(locals@));
    }
    while k < expr.arrow_params.len()
        invariant
            0 <= k <= expr.arrow_params@.len(),
            pv == view_seq(expr.arrow_params@),
            pv == ev.arrow_params,
            ev == expr_view(*expr),
            pv.len() == expr.arrow_params@.len(),
            defsv == items_view(defs@),
            olsv == ols_view(overloads@),
            base_len == loc0.len(),
            base_len == old(locals)@.len(),
            loc0 == view_seq(old(locals)@),
            locals@.len() == base_len + k,
            locals@.take(base_len as int) == old(locals)@,
            view_seq(locals@).take(base_len as int) =~= loc0,
            view_seq(locals@) =~= loc0 + view_seq(converted@),
            converted@.len() == k,
            fuel as nat == fuel as nat,
            match spec_elab_params(defsv, olsv, metas_view(metas@), view_seq(locals@), (base_len
                + k) as usize, pv, k as int, fuel as nat) {
                (Ok(ps), mse) => spec_elab_params(defsv, olsv, metas_view(old(metas)@), loc0,
                    base_len as usize, pv, 0, fuel as nat) == (
                    Ok::<Seq<ExprV>, ErrV>(view_seq(converted@) + ps),
                    mse,
                ),
                (Err(er), mse) => spec_elab(defsv, olsv, metas_view(old(metas)@), loc0,
                    base_len as usize, ev, match expected {
                        Some(e) => Some(expr_view(*e)),
                        None => None,
                    }, fuel as nat) == (Err::<(ExprV, ExprV), _>(er), mse),
            },
        decreases expr.arrow_params@.len() - k,
    {
        if locals.len() == usize::MAX {
            locals.truncate(base_len);
            proof {
                assert(locals@ =~= old(locals)@);
            }
            return Err(ElabError::Resource);
        }
        let (_lvl, p0) = match sort_check_expr(
            defs,
            overloads,
            metas,
            locals,
            &expr.arrow_params[k],
            fuel,
        ) {
            Ok(p) => p,
            Err(e) => {
                locals.truncate(base_len);
                proof {
                    assert(locals@ =~= old(locals)@);
                }
                return Err(e);
            },
        };
        let ghost locs_pre = locals@;
        let ghost conv_pre = converted@;
        locals.push(p0.clone());
        converted.push(p0);
        proof {
            lemma_view_seq_push(locs_pre, locals@.last());
            lemma_view_seq_push(conv_pre, converted@.last());
            assert(locals@.take(base_len as int) =~= locs_pre.take(base_len as int));
            assert(view_seq(locals@).take(base_len as int) =~= view_seq(locs_pre).take(
                base_len as int,
            ));
            assert(view_seq(locals@) =~= loc0 + view_seq(converted@));
            if let (Ok(ps), mse) = spec_elab_params(defsv, olsv, metas_view(metas@), view_seq(
                locals@,
            ), (base_len + k + 1) as usize, pv, k as int + 1, fuel as nat) {
                assert(view_seq(conv_pre) + (seq![expr_view(converted@.last())] + ps) =~= view_seq(
                    converted@,
                ) + ps);
            }
        }
        k = k + 1;
    }
    proof {
        assert(view_seq(converted@) + Seq::<ExprV>::empty() =~= view_seq(converted@));
    }
    if expr.arrow_params.len() > usize::MAX - base_len {
        locals.truncate(base_len);
        proof {
            assert(locals@ =~= old(locals)@);
        }
        return Err(ElabError::Resource);
    }
    if let Ident::Universe(l) = head1 {
        locals.truncate(base_len);
        proof {
            assert(locals@ =~= old(locals)@);
        }
        if expr.tail.len() > 0 {
            return Err(ElabError::ArityMismatch);
        }
        if l == usize::MAX {
            return Err(ElabError::Resource);
        }
        let elaborated = Expr { arrow_params: converted, head: head1, tail: Vec::new() };
        proof {
            assert(view_seq(Seq::<Expr>::empty()) =~= Seq::<ExprV>::empty());
        }
        return Ok((Expr::universe(l + 1), elaborated));
    }
    let num = match head1 {
        Ident::Overload(i) => ols_len(overloads, i),
        _ => 1,
    };
    let mut tail2: Vec<Expr> = Vec::new();
    let mut t: usize = 0;
    while t < expr.tail.len()
        invariant
            0 <= t <= expr.tail@.len(),
            tail2@.len() == t,
            ev == expr_view(*expr),
            forall|j: int|
                0 <= j < tail2@.len() ==> expr_view(#[trigger] tail2@[j]) == expr_view(
                    expr.tail@[j],
                ),
        decreases expr.tail@.len() - t,
    {
        tail2.push(expr.tail[t].clone());
        t = t + 1;
    }
    proof {
        assert(view_seq(tail2@) =~= view_seq(expr.tail@));
    }
    let mut arg_tys: Vec<Expr> = Vec::new();
    proof {
        assert(view_seq(arg_tys@) =~= Seq::<ExprV>::empty());
    }
    let cand = try_candidates(
        defs,
        overloads,
        metas,
        locals,
        base_len + expr.arrow_params.len(),
        head1,
        &mut tail2,
        &mut arg_tys,
        expected,
        0,
        num,
        None,
        None,
        fuel,
    );
    locals.truncate(base_len);
    proof {
        assert(locals@ =~= old(locals)@);
    }
    let (ty, head2) = match cand {
        Ok(p) => p,
        Err(e) => {
            return Err(e);
        },
    };
    if converted.len() > 0 {
        let lvl = ty.universe_level();
        if lvl.is_none() {
            return Err(ElabError::NotAUniverse);
        }
    }
    Ok((ty, Expr { arrow_params: converted, head: head2, tail: tail2 }))
}

/// The length of one overload group.
fn ols_len(ols: &Vec<Vec<usize>>, i: usize) -> (r: usize)
    requires
        i < ols@.len(),
    ensures
        r == ols_view(ols@)[i as int].len(),
{
    proof {
        broadcast use lemma_ols_view_len, lemma_ols_view_index;

    }
    ols[i].len()
}

/// Synthesize a type with no goal; the expression's metavariables may be
/// solved along the way.
pub fn calculate_type(
    defs: &Vec<Item>,
    overloads: &Vec<Vec<usize>>,
    metas: &mut Vec<Meta>,
    locals: &mut Vec<Expr>,
    expr: &Expr,
    fuel: u64,
) -> (r: Result<(Expr, Expr), ElabError>)
    ensures
        final(locals)@ == old(locals)@,
        ({
            let (res, ms2) = spec_elab(
                items_view(defs@),
                ols_view(overloads@),
                metas_view(old(metas)@),
                view_seq(old(locals)@),
                old(locals)@.len() as usize,
                expr_view(*expr),
                None,
                fuel as nat,
            );
            &&& metas_view(final(metas)@) == ms2
            &&& pair_view(r) == res
        }),
{
    type_check_expr(defs, overloads, metas, locals, expr, None, fuel)
}

/// Require the expression to synthesize a bare universe; returns its
/// level and the elaborated expression.
pub fn sort_check_expr(
    defs: &Vec<Item>,
    overloads: &Vec<Vec<usize>>,
    metas: &mut Vec<Meta>,
    locals: &mut Vec<Expr>,
    expr: &Expr,
    fuel: u64,
) -> (r: Result<(usize, Expr), ElabError>)
    ensures
        final(locals)@ == old(locals)@,
        ({
            let (res, ms2) = spec_sort_check(
                items_view(defs@),
                ols_view(overloads@),
                metas_view(old(metas)@),
                view_seq(old(locals)@),
                old(locals)@.len() as usize,
                expr_view(*expr),
                fuel as nat,
            );
            &&& metas_view(final(metas)@) == ms2
            &&& match res {
                Ok((l, el)) => r matches Ok(p) && p.0 == l && expr_view(p.1) == el,
                Err(e) => r matches Err(er) && er@ == e,
            }
        }),
    decreases fuel as nat, 0int, 0int,
{
    if fuel == 0 {
        return Err(ElabError::Resource);
    }
    let (ty, elab) = match type_check_expr(defs, overloads, metas, locals, expr, None, fuel - 1) {
        Ok(p) => p,
        Err(e) => {
            return Err(e);
        },
    };
    match ty.universe_level() {
        Some(l) => Ok((l, elab)),
        None => Err(ElabError::NotAUniverse),
    }
}

} // verus!
