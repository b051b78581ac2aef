//! Metavariable unification: structural equality up to metavariable
//! instantiation, with an occurs check and deferred type constraints.
use vstd::prelude::*;
use crate::term::ElabError;
use crate::term::ErrV;
use crate::term::Expr;
use crate::term::ExprV;
use crate::term::Ident;
use crate::term::esize;
use crate::term::expr_eq;
use crate::term::expr_view;
use crate::term::has_meta;
use crate::term::lemma_esize_seq_element;
use crate::term::lemma_view_seq_index;
use crate::term::lemma_view_seq_len;
use crate::term::lemma_view_seq_push;
use crate::term::meta_free;
use crate::term::meta_free_seq;
use crate::term::has_meta_seq;
use crate::term::metas_lt;
use crate::term::metas_lt_seq;
use crate::term::view_seq;

verus! {

broadcast use
    vstd::group_vstd_default,
    lemma_view_seq_len,
    lemma_view_seq_index,
    lemma_esize_seq_element;

/// One metavariable: its solution once one is recorded, the set of
/// metavariables its solution transitively depends on, and type
/// constraints deferred until `link_solution`.
pub struct Meta {
    pub solution: Option<Expr>,
    pub dependencies: Vec<bool>,
    pub type_constraints: Vec<(usize, Expr)>,
}

/// The model of a `Meta`.
pub struct MetaV {
    pub solution: Option<ExprV>,
    pub dependencies: Seq<bool>,
    pub type_constraints: Seq<(usize, ExprV)>,
}

/// Models of deferred constraints, in order.
pub open spec fn tc_view(s: Seq<(usize, Expr)>) -> Seq<(usize, ExprV)>
    decreases s,
{
    if s.len() == 0 {
        Seq::empty()
    } else {
        tc_view(s.drop_last()).push((s.last().0, expr_view(s.last().1)))
    }
}

pub broadcast proof fn lemma_tc_view_len(s: Seq<(usize, Expr)>)
    ensures
        (#[trigger] tc_view(s)).len() == s.len(),
    decreases s,
{
    if s.len() > 0 {
        lemma_tc_view_len(s.drop_last());
    }
}

pub broadcast proof fn lemma_tc_view_index(s: Seq<(usize, Expr)>, i: int)
    requires
        0 <= i < s.len(),
    ensures
        #[trigger] tc_view(s)[i] == (s[i].0, expr_view(s[i].1)),
    decreases s,
{
    lemma_tc_view_len(s);
    if i < s.len() - 1 {
        lemma_tc_view_index(s.drop_last(), i);
    }
}

/// The model of one metavariable record.
pub open spec fn meta_view(m: Meta) -> MetaV {
    (MetaV {
        solution: match m.solution {
            Some(e) => Some(expr_view(e)),
            None => None,
        },
        dependencies: m.dependencies@,
        type_constraints: tc_view(m.type_constraints@),
    })
}

/// Models of the metavariable table, in order.
pub open spec fn metas_view(s: Seq<Meta>) -> Seq<MetaV>
    decreases s,
{
    if s.len() == 0 {
        Seq::empty()
    } else {
        metas_view(s.drop_last()).push(meta_view(s.last()))
    }
}

pub broadcast proof fn lemma_metas_view_len(s: Seq<Meta>)
    ensures
        (#[trigger] metas_view(s)).len() == s.len(),
    decreases s,
{
    if s.len() > 0 {
        lemma_metas_view_len(s.drop_last());
    }
}

pub broadcast proof fn lemma_metas_view_index(s: Seq<Meta>, i: int)
    requires
        0 <= i < s.len(),
    ensures
        #[trigger] metas_view(s)[i] == meta_view(s[i]),
    decreases s,
{
    lemma_metas_view_len(s);
    if i < s.len() - 1 {
        lemma_metas_view_index(s.drop_last(), i);
    }
}

pub proof fn lemma_metas_view_update(s: Seq<Meta>, i: int, m: Meta)
    requires
        0 <= i < s.len(),
    ensures
        metas_view(s.update(i, m)) =~= metas_view(s).update(i, meta_view(m)),
{
    broadcast use lemma_metas_view_len, lemma_metas_view_index;

    assert forall|j: int| 0 <= j < s.len() implies metas_view(s.update(i, m))[j] == metas_view(
        s,
    ).update(i, meta_view(m))[j] by {
        lemma_metas_view_index(s.update(i, m), j);
    }
}

/// A fresh, unsolved metavariable: appended to the table, and returned as
/// a bare head.
pub fn meta(metas: &mut Vec<Meta>) -> (r: Expr)
    ensures
        metas_view(final(metas)@) == metas_view(old(metas)@).push(
            (MetaV {
                solution: None,
                dependencies: Seq::empty(),
                type_constraints: Seq::empty(),
            }),
        ),
        expr_view(r) == (ExprV {
            arrow_params: Seq::empty(),
            head: Ident::Meta(old(metas)@.len() as usize, 0),
            tail: Seq::empty(),
        }),
        final(metas)@.len() == old(metas)@.len() + 1,
{
    let id = metas.len();
    let m = Meta { solution: None, dependencies: Vec::new(), type_constraints: Vec::new() };
    proof {
        assert(metas@.push(m).drop_last() =~= metas@);
    }
    metas.push(m);
    Expr { arrow_params: Vec::new(), head: Ident::Meta(id, 0), tail: Vec::new() }
}

/// The finalized value, type and universe level of one metavariable,
/// produced by `link_solution`.
pub struct MetaSolution {
    pub val: Expr,
    pub ty: Expr,
    pub level: usize,
}

/// The model of a `MetaSolution`.
pub struct MetaSolutionV {
    pub val: ExprV,
    pub ty: ExprV,
    pub level: usize,
}

/// The model of one finalized solution.
pub open spec fn sol_view(s: MetaSolution) -> MetaSolutionV {
    (MetaSolutionV { val: expr_view(s.val), ty: expr_view(s.ty), level: s.level })
}

/// Models of the finalized solutions, in order.
pub open spec fn sols_view(s: Seq<MetaSolution>) -> Seq<MetaSolutionV>
    decreases s,
{
    if s.len() == 0 {
        Seq::empty()
    } else {
        sols_view(s.drop_last()).push(sol_view(s.last()))
    }
}

pub broadcast proof fn lemma_sols_view_len(s: Seq<MetaSolution>)
    ensures
        (#[trigger] sols_view(s)).len() == s.len(),
    decreases s,
{
    if s.len() > 0 {
        lemma_sols_view_len(s.drop_last());
    }
}

pub broadcast proof fn lemma_sols_view_index(s: Seq<MetaSolution>, i: int)
    requires
        0 <= i < s.len(),
    ensures
        #[trigger] sols_view(s)[i] == sol_view(s[i]),
    decreases s,
{
    lemma_sols_view_len(s);
    if i < s.len() - 1 {
        lemma_sols_view_index(s.drop_last(), i);
    }
}

/// Drop the first telescope parameter of a model term.
pub open spec fn drop_param(e: ExprV) -> ExprV {
    (ExprV { arrow_params: e.arrow_params.drop_first(), head: e.head, tail: e.tail })
}

/// Drop the last tail argument of a model term.
pub open spec fn drop_arg(e: ExprV) -> ExprV {
    (ExprV { arrow_params: e.arrow_params, head: e.head, tail: e.tail.drop_last() })
}

/// The mirror of `check_deps`: mark every metavariable of `sol` in
/// `deps`, together with each one's already-recorded dependency set.
/// `None` reports a metavariable beyond the table or a dependency record
/// longer than `deps`.
pub open spec fn spec_check_deps(ms: Seq<MetaV>, deps: Seq<bool>, sol: ExprV) -> Option<Seq<bool>>
    decreases esize(sol), 0int, via spec_check_deps_dec
{
    match spec_check_deps_from(ms, deps, sol.arrow_params, 0) {
        None => None,
        Some(d1) => match spec_check_deps_from(ms, d1, sol.tail, 0) {
            None => None,
            Some(d2) => match sol.head {
                Ident::Meta(i, off) => {
                    if i >= ms.len() || i >= d2.len() {
                        None
                    } else if ms[i as int].dependencies.len() > d2.len() {
                        None
                    } else {
                        Some(
                            Seq::new(
                                d2.len(),
                                |j: int|
                                    if j == i {
                                        true
                                    } else if j < ms[i as int].dependencies.len() {
                                        d2[j] || ms[i as int].dependencies[j]
                                    } else {
                                        d2[j]
                                    },
                            ),
                        )
                    }
                },
                _ => Some(d2),
            },
        },
    }
}

#[via_fn]
proof fn spec_check_deps_dec(ms: Seq<MetaV>, deps: Seq<bool>, sol: ExprV) {
    assert(sol.arrow_params.skip(0) =~= sol.arrow_params);
    assert(sol.tail.skip(0) =~= sol.tail);
}

pub open spec fn spec_check_deps_from(
    ms: Seq<MetaV>,
    deps: Seq<bool>,
    s: Seq<ExprV>,
    k: int,
) -> Option<Seq<bool>>
    decreases crate::term::esize_seq(s.skip(k)), 1int, via spec_check_deps_from_dec
{
    if k < 0 || k >= s.len() {
        Some(deps)
    } else {
        match spec_check_deps(ms, deps, s[k]) {
            None => None,
            Some(d) => spec_check_deps_from(ms, d, s, k + 1),
        }
    }
}

#[via_fn]
proof fn spec_check_deps_from_dec(ms: Seq<MetaV>, deps: Seq<bool>, s: Seq<ExprV>, k: int) {
    if 0 <= k < s.len() {
        crate::eval::lemma_esize_skip(s, k);
    }
}

/// A successful dependency walk never changes the width of the set.
pub proof fn lemma_check_deps_len(ms: Seq<MetaV>, deps: Seq<bool>, sol: ExprV)
    ensures
        spec_check_deps(ms, deps, sol) matches Some(d) ==> d.len() == deps.len(),
    decreases esize(sol), 0int,
{
    assert(sol.arrow_params.skip(0) =~= sol.arrow_params);
    assert(sol.tail.skip(0) =~= sol.tail);
    lemma_check_deps_from_len(ms, deps, sol.arrow_params, 0);
    if let Some(d1) = spec_check_deps_from(ms, deps, sol.arrow_params, 0) {
        lemma_check_deps_from_len(ms, d1, sol.tail, 0);
    }
}

pub proof fn lemma_check_deps_from_len(ms: Seq<MetaV>, deps: Seq<bool>, s: Seq<ExprV>, k: int)
    ensures
        spec_check_deps_from(ms, deps, s, k) matches Some(d) ==> d.len() == deps.len(),
    decreases crate::term::esize_seq(s.skip(k)), 1int,
{
    if 0 <= k < s.len() {
        crate::eval::lemma_esize_skip(s, k);
        crate::eval::lemma_esize_pos(s[k]);
        lemma_check_deps_len(ms, deps, s[k]);
        if let Some(d) = spec_check_deps(ms, deps, s[k]) {
            lemma_check_deps_from_len(ms, d, s, k + 1);
        }
    }
}

/// Walk a candidate solution and union the dependency sets of every
/// metavariable it mentions into `deps`.
pub fn check_deps(metas: &Vec<Meta>, deps: &mut Vec<bool>, sol: &Expr) -> (r: Result<
    (),
    ElabError,
>)
    ensures
        match spec_check_deps(metas_view(metas@), old(deps)@, expr_view(*sol)) {
            Some(d) => r is Ok && final(deps)@ == d,
            None => (r matches Err(e) && e@ == ErrV::NameNotFound),
        },
    decreases esize(expr_view(*sol)), 0int,
{
    let ghost msv = metas_view(metas@);
    let ghost d0 = deps@;
    proof {
        assert(expr_view(*sol).arrow_params.skip(0) =~= expr_view(*sol).arrow_params);
        assert(expr_view(*sol).tail.skip(0) =~= expr_view(*sol).tail);
        broadcast use lemma_metas_view_len, lemma_metas_view_index;

    }
    match check_deps_all(metas, deps, &sol.arrow_params) {
        Ok(()) => (),
        Err(e) => {
            return Err(e);
        },
    }
    let ghost d1 = deps@;
    match check_deps_all(metas, deps, &sol.tail) {
        Ok(()) => (),
        Err(e) => {
            return Err(e);
        },
    }
    match sol.head {
        Ident::Meta(i, _off) => {
            if i >= metas.len() || i >= deps.len() {
                return Err(ElabError::NameNotFound);
            }
            if metas[i].dependencies.len() > deps.len() {
                return Err(ElabError::NameNotFound);
            }
            let ghost dpre = deps@;
            deps.set(i, true);
            let mut j: usize = 0;
            while j < metas[i].dependencies.len()
                invariant
                    i < metas@.len(),
                    i < dpre.len(),
                    metas@[i as int].dependencies@.len() <= dpre.len(),
                    deps@.len() == dpre.len(),
                    0 <= j <= metas@[i as int].dependencies@.len(),
                    forall|t: int|
                        0 <= t < dpre.len() ==> #[trigger] deps@[t] == (if t == i {
                            true
                        } else if t < j {
                            dpre[t] || metas@[i as int].dependencies@[t]
                        } else {
                            dpre[t]
                        }),
                decreases metas@[i as int].dependencies@.len() - j,
            {
                if j != i {
                    let b = deps[j] || metas[i].dependencies[j];
                    deps.set(j, b);
                } else {
                    deps.set(j, true);
                }
                j = j + 1;
            }
            proof {
                lemma_metas_view_index(metas@, i as int);
                let solv = expr_view(*sol);
                assert(spec_check_deps_from(msv, d0, solv.arrow_params, 0) == Some(d1));
                assert(spec_check_deps_from(msv, d1, solv.tail, 0) == Some(dpre));
                let d = Seq::new(
                    dpre.len(),
                    |j: int|
                        if j == i {
                            true
                        } else if j < msv[i as int].dependencies.len() {
                            dpre[j] || msv[i as int].dependencies[j]
                        } else {
                            dpre[j]
                        },
                );
                assert(spec_check_deps(msv, d0, solv) == Some(d));
                assert(deps@ =~= d);
            }
            Ok(())
        },
        _ => {
            proof {
                let solv = expr_view(*sol);
                assert(spec_check_deps_from(msv, d0, solv.arrow_params, 0) == Some(d1));
                assert(spec_check_deps_from(msv, d1, solv.tail, 0) == Some(deps@));
                assert(spec_check_deps(msv, d0, solv) == Some(deps@));
            }
            Ok(())
        },
    }
}

/// Walk every element of a vector of subterms.
fn check_deps_all(metas: &Vec<Meta>, deps: &mut Vec<bool>, v: &Vec<Expr>) -> (r: Result<
    (),
    ElabError,
>)
    ensures
        match spec_check_deps_from(metas_view(metas@), old(deps)@, view_seq(v@), 0) {
            Some(d) => r is Ok && final(deps)@ == d,
            None => (r matches Err(e) && e@ == ErrV::NameNotFound),
        },
    decreases crate::term::esize_seq(view_seq(v@)), 1int,
{
    let ghost msv = metas_view(metas@);
    let ghost sv = view_seq(v@);
    let ghost d0 = deps@;
    let mut k: usize = 0;
    while k < v.len()
        invariant
            msv == metas_view(metas@),
            sv == view_seq(v@),
            sv.len() == v@.len(),
            d0 == old(deps)@,
            0 <= k <= v.len(),
            match spec_check_deps_from(msv, deps@, sv, k as int) {
                Some(d) => spec_check_deps_from(msv, d0, sv, 0) == Some(d),
                None => spec_check_deps_from(msv, d0, sv, 0) is None,
            },
        decreases v.len() - k,
    {
        proof {
            crate::eval::lemma_esize_skip(sv, k as int);
        }
        let ghost dpre = deps@;
        match check_deps(metas, deps, &v[k]) {
            Ok(()) => (),
            Err(e) => {
                proof {
                    assert(spec_check_deps(msv, dpre, sv[k as int]) is None);
                    assert(spec_check_deps_from(msv, dpre, sv, k as int) is None);
                    assert(spec_check_deps_from(msv, d0, sv, 0) is None);
                }
                return Err(e);
            },
        }
        k = k + 1;
    }
    Ok(())
}

/// The mirror of `check_solution`.  A non-zero offset defers the equation
/// as a type constraint; offset zero records the solution and its
/// dependency set, and reports a cycle (the occurs check) after
/// recording.
pub open spec fn spec_check_solution(ms: Seq<MetaV>, i: usize, n: usize, sol: ExprV) -> (Result<
    (),
    ErrV,
>, Seq<MetaV>) {
    if i >= ms.len() {
        (Err(ErrV::NameNotFound), ms)
    } else if n != 0 {
        let m0 = ms[i as int];
        let m1 = MetaV { type_constraints: m0.type_constraints.push((n, sol)), ..m0 };
        (Ok(()), ms.update(i as int, m1))
    } else {
        let zeros = Seq::new(ms.len(), |j: int| false);
        match spec_check_deps(ms, zeros, sol) {
            None => (Err(ErrV::NameNotFound), ms),
            Some(deps) => {
                let cyclic = deps[i as int];
                let m0 = ms[i as int];
                let m1 = MetaV { solution: Some(sol), dependencies: deps, ..m0 };
                let ms1 = ms.update(i as int, m1);
                if cyclic {
                    (Err(ErrV::UnificationFailure), ms1)
                } else {
                    (Ok(()), ms1)
                }
            },
        }
    }
}

/// Record a candidate solution for metavariable `i` at type offset `n`,
/// or defer it; fails on an occurs-check cycle, leaving the recorded
/// solution in place.
pub fn check_solution(metas: &mut Vec<Meta>, i: usize, n: usize, sol: Expr) -> (r: Result<
    (),
    ElabError,
>)
    ensures
        ({
            let (res, ms1) = spec_check_solution(
                metas_view(old(metas)@),
                i,
                n,
                expr_view(sol),
            );
            &&& metas_view(final(metas)@) == ms1
            &&& (r is Ok <==> res is Ok)
            &&& (r matches Err(e) ==> (res matches Err(ev) && e@ == ev))
        }),
{
    let ghost ms0 = metas_view(metas@);
    proof {
        broadcast use lemma_metas_view_len, lemma_metas_view_index;

    }
    if i >= metas.len() {
        return Err(ElabError::NameNotFound);
    }
    if n != 0 {
        let mut mi = metas.remove(i);
        let ghost mi_tc = mi.type_constraints@;
        mi.type_constraints.push((n, sol));
        proof {
            assert(tc_view(mi_tc.push((n, sol))) == tc_view(mi_tc).push(
                (n, expr_view(sol)),
            )) by {
                assert(mi_tc.push((n, sol)).drop_last() =~= mi_tc);
            }
        }
        metas.insert(i, mi);
        proof {
            assert(metas@ =~= old(metas)@.update(i as int, metas@[i as int]));
            lemma_metas_view_update(old(metas)@, i as int, metas@[i as int]);
            let (res, ms1) = spec_check_solution(ms0, i, n, expr_view(sol));
            assert(metas_view(metas@) =~= ms1);
        }
        return Ok(());
    }
    let mut deps: Vec<bool> = Vec::new();
    let mut z: usize = 0;
    let n_metas = metas.len();
    while z < n_metas
        invariant
            0 <= z <= n_metas,
            deps@.len() == z,
            forall|t: int| 0 <= t < z ==> !(#[trigger] deps@[t]),
        decreases n_metas - z,
    {
        deps.push(false);
        z = z + 1;
    }
    proof {
        assert(deps@ =~= Seq::new(ms0.len(), |j: int| false));
    }
    let ghost zeros = deps@;
    let cd = check_deps(metas, &mut deps, &sol);
    match cd {
        Err(e) => {
            return Err(e);
        },
        Ok(()) => (),
    }
    proof {
        lemma_check_deps_len(metas_view(metas@), zeros, expr_view(sol));
        assert(deps@.len() == ms0.len());
    }
    let cyclic: bool = deps[i];
    let mut mi = metas.remove(i);
    mi.dependencies = deps;
    mi.solution = Some(sol);
    metas.insert(i, mi);
    proof {
        assert(metas@ =~= old(metas)@.update(i as int, metas@[i as int]));
        lemma_metas_view_update(old(metas)@, i as int, metas@[i as int]);
        let (res, ms1) = spec_check_solution(ms0, i, n, expr_view(sol));
        assert(metas_view(metas@) =~= ms1);
    }
    if cyclic {
        Err(ElabError::UnificationFailure)
    } else {
        Ok(())
    }
}

/// The mirror of `unify`.  `lv` carries the last unsolved metavariable
/// the left side resolved to (a bare head, possibly after dereferencing)
/// while solved metavariables are dereferenced; `fuel` bounds the
/// dereference chains.
pub open spec fn spec_unify(
    ms: Seq<MetaV>,
    lv: Option<usize>,
    lhs: ExprV,
    rhs: ExprV,
    fuel: nat,
) -> (Result<(), ErrV>, Seq<MetaV>)
    decreases fuel, esize(lhs) + esize(rhs), 2int, via spec_unify_dec
{
    match lhs.head {
        Ident::Meta(i, off) => {
            if off != 0 {
                spec_unify_right(ms, lv, lhs, rhs, fuel)
            } else if i >= ms.len() {
                (Err(ErrV::NameNotFound), ms)
            } else {
                match ms[i as int].solution {
                    Some(x) => {
                        if fuel == 0 {
                            (Err(ErrV::Resource), ms)
                        } else {
                            spec_unify(ms, Some(i), x, rhs, (fuel - 1) as nat)
                        }
                    },
                    None => {
                        if lhs.arrow_params.len() == 0 && lhs.tail.len() == 0 {
                            spec_unify_right(ms, Some(i), lhs, rhs, fuel)
                        } else {
                            spec_unify_right(ms, lv, lhs, rhs, fuel)
                        }
                    },
                }
            }
        },
        _ => spec_unify_right(ms, lv, lhs, rhs, fuel),
    }
}

#[via_fn]
proof fn spec_unify_dec(ms: Seq<MetaV>, lv: Option<usize>, lhs: ExprV, rhs: ExprV, fuel: nat) {
}

/// The right-hand side of one dereference round: a solved metavariable
/// head on the right is dereferenced; when both sides are the same bare
/// unsolved metavariable the equation holds trivially and records
/// nothing.  A side merely headed by that metavariable is not the
/// metavariable: it still faces the occurs check.
pub open spec fn spec_unify_right(
    ms: Seq<MetaV>,
    lv2: Option<usize>,
    lhs: ExprV,
    rhs: ExprV,
    fuel: nat,
) -> (Result<(), ErrV>, Seq<MetaV>)
    decreases fuel, esize(lhs) + esize(rhs), 1int, via spec_unify_right_dec
{
    match rhs.head {
        Ident::Meta(j, off) => {
            if off != 0 {
                spec_unify_heads(ms, lhs, rhs, fuel)
            } else if lv2 == Some(j) && rhs.arrow_params.len() == 0 && rhs.tail.len() == 0 {
                (Ok(()), ms)
            } else if j >= ms.len() {
                (Err(ErrV::NameNotFound), ms)
            } else {
                match ms[j as int].solution {
                    Some(x) => {
                        if fuel == 0 {
                            (Err(ErrV::Resource), ms)
                        } else {
                            spec_unify(ms, lv2, lhs, x, (fuel - 1) as nat)
                        }
                    },
                    None => spec_unify_heads(ms, lhs, rhs, fuel),
                }
            }
        },
        _ => spec_unify_heads(ms, lhs, rhs, fuel),
    }
}

#[via_fn]
proof fn spec_unify_right_dec(
    ms: Seq<MetaV>,
    lv2: Option<usize>,
    lhs: ExprV,
    rhs: ExprV,
    fuel: nat,
) {
}

/// The structural round: a remaining metavariable head records or defers
/// a solution; telescopes are matched front to back, argument tails back
/// to front; what remains must be equal.
pub open spec fn spec_unify_heads(
    ms: Seq<MetaV>,
    lhs: ExprV,
    rhs: ExprV,
    fuel: nat,
) -> (Result<(), ErrV>, Seq<MetaV>)
    decreases fuel, esize(lhs) + esize(rhs), 0int, via spec_unify_heads_dec
{
    match lhs.head {
        Ident::Meta(i, n) => spec_check_solution(ms, i, n, rhs),
        _ => match rhs.head {
            Ident::Meta(i, n) => spec_check_solution(ms, i, n, lhs),
            _ => {
                if lhs.arrow_params.len() > 0 && rhs.arrow_params.len() > 0 {
                    let r1 = spec_unify(ms, None, lhs.arrow_params[0], rhs.arrow_params[0], fuel);
                    if r1.0 is Err {
                        r1
                    } else {
                        spec_unify(r1.1, None, drop_param(lhs), drop_param(rhs), fuel)
                    }
                } else if lhs.arrow_params.len() > 0 || rhs.arrow_params.len() > 0 {
                    (Err(ErrV::UnificationFailure), ms)
                } else if lhs.tail.len() > 0 && rhs.tail.len() > 0 {
                    let r1 = spec_unify(ms, None, lhs.tail.last(), rhs.tail.last(), fuel);
                    if r1.0 is Err {
                        r1
                    } else {
                        spec_unify(r1.1, None, drop_arg(lhs), drop_arg(rhs), fuel)
                    }
                } else if lhs != rhs {
                    (Err(ErrV::UnificationFailure), ms)
                } else {
                    (Ok(()), ms)
                }
            },
        },
    }
}

#[via_fn]
proof fn spec_unify_heads_dec(ms: Seq<MetaV>, lhs: ExprV, rhs: ExprV, fuel: nat) {
    crate::eval::lemma_esize_pos(lhs);
    crate::eval::lemma_esize_pos(rhs);
    if lhs.arrow_params.len() > 0 && rhs.arrow_params.len() > 0 {
        lemma_esize_drop_param(lhs);
        lemma_esize_drop_param(rhs);
    }
    if lhs.tail.len() > 0 && rhs.tail.len() > 0 {
        lemma_esize_drop_arg(lhs);
        lemma_esize_drop_arg(rhs);
    }
}

/// Removing the first parameter shrinks a term by exactly that
/// parameter's size.
pub proof fn lemma_esize_drop_param(e: ExprV)
    requires
        e.arrow_params.len() > 0,
    ensures
        esize(drop_param(e)) + esize(e.arrow_params[0]) == esize(e),
        esize(e.arrow_params[0]) >= 1,
        esize(drop_param(e)) >= 1,
{
    lemma_esize_seq_first(e.arrow_params);
    crate::eval::lemma_esize_pos(e.arrow_params[0]);
    crate::eval::lemma_esize_pos(drop_param(e));
}

/// Removing the last argument shrinks a term by exactly that argument's
/// size.
pub proof fn lemma_esize_drop_arg(e: ExprV)
    requires
        e.tail.len() > 0,
    ensures
        esize(drop_arg(e)) + esize(e.tail.last()) == esize(e),
        esize(e.tail.last()) >= 1,
        esize(drop_arg(e)) >= 1,
{
    crate::eval::lemma_esize_pos(e.tail.last());
    crate::eval::lemma_esize_pos(drop_arg(e));
}

/// `esize_seq` decomposes at the front.
proof fn lemma_esize_seq_first(s: Seq<ExprV>)
    requires
        s.len() > 0,
    ensures
        crate::term::esize_seq(s) == esize(s[0]) + crate::term::esize_seq(s.drop_first()),
{
    crate::eval::lemma_esize_skip(s, 0);
    assert(s.skip(0) =~= s);
    assert(s.skip(1) =~= s.drop_first());
}

/// Structural unification up to metavariable instantiation.  Solved
/// metavariables in head position are dereferenced (bounded by `fuel`);
/// the same bare unsolved metavariable on both sides holds trivially; a
/// remaining metavariable head records or defers a solution for its
/// metavariable; otherwise telescopes are matched front to back,
/// argument tails back to front, and what remains must be equal.
pub fn unify(metas: &mut Vec<Meta>, lhs: Expr, rhs: Expr, fuel: u64) -> (r: Result<(), ElabError>)
    ensures
        ({
            let (res, ms1) = spec_unify(
                metas_view(old(metas)@),
                None,
                expr_view(lhs),
                expr_view(rhs),
                fuel as nat,
            );
            &&& metas_view(final(metas)@) == ms1
            &&& (r is Ok <==> res is Ok)
            &&& (r matches Err(e) ==> (res matches Err(ev) && e@ == ev))
        }),
{
    unify_rec(metas, None, lhs, rhs, fuel)
}

fn unify_rec(
    metas: &mut Vec<Meta>,
    lv: Option<usize>,
    lhs: Expr,
    rhs: Expr,
    fuel: u64,
) -> (r: Result<(), ElabError>)
    ensures
        ({
            let (res, ms1) = spec_unify(
                metas_view(old(metas)@),
                lv,
                expr_view(lhs),
                expr_view(rhs),
                fuel as nat,
            );
            &&& metas_view(final(metas)@) == ms1
            &&& (r is Ok <==> res is Ok)
            &&& (r matches Err(e) ==> (res matches Err(ev) && e@ == ev))
        }),
    decreases fuel as nat, esize(expr_view(lhs)) + esize(expr_view(rhs)), 2int,
{
    proof {
        broadcast use lemma_metas_view_len, lemma_metas_view_index;

    }
    let lv2 = match lhs.head {
        Ident::Meta(i, 0) => {
            if lhs.arrow_params.len() == 0 && lhs.tail.len() == 0 {
                Some(i)
            } else {
                lv
            }
        },
        _ => lv,
    };
    if let Ident::Meta(i, 0) = lhs.head {
        if i >= metas.len() {
            return Err(ElabError::NameNotFound);
        }
        let solved = match &metas[i].solution {
            Some(x) => Some(x.clone()),
            None => None,
        };
        if let Some(x) = solved {
            if fuel == 0 {
                return Err(ElabError::Resource);
            }
            return unify_rec(metas, Some(i), x, rhs, fuel - 1);
        }
    }
    unify_right(metas, lv2, lhs, rhs, fuel)
}

fn unify_right(
    metas: &mut Vec<Meta>,
    lv2: Option<usize>,
    lhs: Expr,
    rhs: Expr,
    fuel: u64,
) -> (r: Result<(), ElabError>)
    ensures
        ({
            let (res, ms1) = spec_unify_right(
                metas_view(old(metas)@),
                lv2,
                expr_view(lhs),
                expr_view(rhs),
                fuel as nat,
            );
            &&& metas_view(final(metas)@) == ms1
            &&& (r is Ok <==> res is Ok)
            &&& (r matches Err(e) ==> (res matches Err(ev) && e@ == ev))
        }),
    decreases fuel as nat, esize(expr_view(lhs)) + esize(expr_view(rhs)), 1int,
{
    proof {
        broadcast use lemma_metas_view_len, lemma_metas_view_index;

    }
    if let Ident::Meta(j, 0) = rhs.head {
        let trivially = match lv2 {
            Some(v) => v == j && rhs.arrow_params.len() == 0 && rhs.tail.len() == 0,
            None => false,
        };
        if trivially {
            return Ok(());
        }
        if j >= metas.len() {
            return Err(ElabError::NameNotFound);
        }
        let solved = match &metas[j].solution {
            Some(x) => Some(x.clone()),
            None => None,
        };
        if let Some(x) = solved {
            if fuel == 0 {
                return Err(ElabError::Resource);
            }
            return unify_rec(metas, lv2, lhs, x, fuel - 1);
        }
    }
    unify_heads(metas, lhs, rhs, fuel)
}

fn unify_heads(metas: &mut Vec<Meta>, lhs: Expr, rhs: Expr, fuel: u64) -> (r: Result<
    (),
    ElabError,
>)
    ensures
        ({
            let (res, ms1) = spec_unify_heads(
                metas_view(old(metas)@),
                expr_view(lhs),
                expr_view(rhs),
                fuel as nat,
            );
            &&& metas_view(final(metas)@) == ms1
            &&& (r is Ok <==> res is Ok)
            &&& (r matches Err(e) ==> (res matches Err(ev) && e@ == ev))
        }),
    decreases fuel as nat, esize(expr_view(lhs)) + esize(expr_view(rhs)), 0int,
{
    proof {
        broadcast use lemma_metas_view_len, lemma_metas_view_index;

    }
    let mut lhs = lhs;
    let mut rhs = rhs;
    if let Ident::Meta(i, n) = lhs.head {
        return check_solution(metas, i, n, rhs);
    }
    if let Ident::Meta(i, n) = rhs.head {
        return check_solution(metas, i, n, lhs);
    }
    if lhs.arrow_params.len() > 0 && rhs.arrow_params.len() > 0 {
        let ghost lv_pre = expr_view(lhs);
        let ghost rv_pre = expr_view(rhs);
        let ghost opl = lhs.arrow_params@;
        let ghost opr = rhs.arrow_params@;
        let pl = lhs.arrow_params.remove(0);
        let pr = rhs.arrow_params.remove(0);
        proof {
            lemma_esize_drop_param(lv_pre);
            lemma_esize_drop_param(rv_pre);
            assert(lhs.arrow_params@ =~= opl.drop_first());
            assert(rhs.arrow_params@ =~= opr.drop_first());
            lemma_view_seq_len(opl);
            lemma_view_seq_len(opr);
            lemma_view_seq_len(lhs.arrow_params@);
            lemma_view_seq_len(rhs.arrow_params@);
            assert forall|jj: int| 0 <= jj < lhs.arrow_params@.len() implies view_seq(
                lhs.arrow_params@,
            )[jj] == lv_pre.arrow_params.drop_first()[jj] by {
                lemma_view_seq_index(lhs.arrow_params@, jj);
                lemma_view_seq_index(opl, jj + 1);
                assert(lhs.arrow_params@[jj] == opl[jj + 1]);
            }
            assert forall|jj: int| 0 <= jj < rhs.arrow_params@.len() implies view_seq(
                rhs.arrow_params@,
            )[jj] == rv_pre.arrow_params.drop_first()[jj] by {
                lemma_view_seq_index(rhs.arrow_params@, jj);
                lemma_view_seq_index(opr, jj + 1);
                assert(rhs.arrow_params@[jj] == opr[jj + 1]);
            }
            assert(view_seq(lhs.arrow_params@) =~= lv_pre.arrow_params.drop_first());
            assert(view_seq(rhs.arrow_params@) =~= rv_pre.arrow_params.drop_first());
            assert(expr_view(lhs) == drop_param(lv_pre));
            assert(expr_view(rhs) == drop_param(rv_pre));
            assert(expr_view(pl) == lv_pre.arrow_params[0]);
            assert(expr_view(pr) == rv_pre.arrow_params[0]);
        }
        match unify_rec(metas, None, pl, pr, fuel) {
            Ok(()) => (),
            Err(e) => {
                return Err(e);
            },
        }
        return unify_rec(metas, None, lhs, rhs, fuel);
    }
    if lhs.arrow_params.len() > 0 || rhs.arrow_params.len() > 0 {
        return Err(ElabError::UnificationFailure);
    }
    if lhs.tail.len() > 0 && rhs.tail.len() > 0 {
        let ghost lv_pre = expr_view(lhs);
        let ghost rv_pre = expr_view(rhs);
        let al = match lhs.tail.pop() {
            Some(a) => a,
            None => {
                proof {
                    assert(false);
                }
                Expr::universe(0)
            },
        };
        let ar = match rhs.tail.pop() {
            Some(a) => a,
            None => {
                proof {
                    assert(false);
                }
                Expr::universe(0)
            },
        };
        proof {
            lemma_esize_drop_arg(lv_pre);
            lemma_esize_drop_arg(rv_pre);
            assert(view_seq(lhs.tail@) =~= lv_pre.tail.drop_last());
            assert(view_seq(rhs.tail@) =~= rv_pre.tail.drop_last());
            assert(expr_view(lhs) == drop_arg(lv_pre));
            assert(expr_view(rhs) == drop_arg(rv_pre));
            assert(expr_view(al) == lv_pre.tail.last());
            assert(expr_view(ar) == rv_pre.tail.last());
        }
        match unify_rec(metas, None, al, ar, fuel) {
            Ok(()) => (),
            Err(e) => {
                return Err(e);
            },
        }
        return unify_rec(metas, None, lhs, rhs, fuel);
    }
    if !expr_eq(&lhs, &rhs) {
        return Err(ElabError::UnificationFailure);
    }
    Ok(())
}


/// Front decomposition of metavariable-freedom over a sequence.
pub proof fn lemma_meta_free_skip(s: Seq<ExprV>, k: int)
    requires
        0 <= k < s.len(),
    ensures
        meta_free_seq(s.skip(k)) == (meta_free(s[k]) && meta_free_seq(s.skip(k + 1))),
    decreases s,
{
    if k == s.len() - 1 {
        assert(s.skip(k) =~= seq![s[k]]);
        assert(s.skip(k + 1) =~= Seq::<ExprV>::empty());
        assert(s.skip(k).drop_last() =~= Seq::<ExprV>::empty());
        assert(s.skip(k).last() == s[k]);
    } else {
        let d = s.drop_last();
        lemma_meta_free_skip(d, k);
        assert(s.skip(k).drop_last() =~= d.skip(k));
        assert(s.skip(k).last() == s.last());
        assert(s.skip(k + 1).drop_last() =~= d.skip(k + 1));
        assert(s.skip(k + 1).last() == s.last());
    }
}

/// Front decomposition of metavariable occurrence over a sequence.
pub proof fn lemma_has_meta_skip(s: Seq<ExprV>, k: int, m: int)
    requires
        0 <= k < s.len(),
    ensures
        has_meta_seq(s.skip(k), m) == (has_meta(s[k], m) || has_meta_seq(s.skip(k + 1), m)),
    decreases s,
{
    if k == s.len() - 1 {
        assert(s.skip(k) =~= seq![s[k]]);
        assert(s.skip(k + 1) =~= Seq::<ExprV>::empty());
        assert(s.skip(k).drop_last() =~= Seq::<ExprV>::empty());
        assert(s.skip(k).last() == s[k]);
    } else {
        let d = s.drop_last();
        lemma_has_meta_skip(d, k, m);
        assert(s.skip(k).drop_last() =~= d.skip(k));
        assert(s.skip(k).last() == s.last());
        assert(s.skip(k + 1).drop_last() =~= d.skip(k + 1));
        assert(s.skip(k + 1).last() == s.last());
    }
}

/// Front decomposition of the metavariable bound over a sequence.
pub proof fn lemma_metas_lt_skip(s: Seq<ExprV>, k: int, n: int)
    requires
        0 <= k < s.len(),
    ensures
        metas_lt_seq(s.skip(k), n) == (metas_lt(s[k], n) && metas_lt_seq(s.skip(k + 1), n)),
    decreases s,
{
    if k == s.len() - 1 {
        assert(s.skip(k) =~= seq![s[k]]);
        assert(s.skip(k + 1) =~= Seq::<ExprV>::empty());
        assert(s.skip(k).drop_last() =~= Seq::<ExprV>::empty());
        assert(s.skip(k).last() == s[k]);
    } else {
        let d = s.drop_last();
        lemma_metas_lt_skip(d, k, n);
        assert(s.skip(k).drop_last() =~= d.skip(k));
        assert(s.skip(k).last() == s.last());
        assert(s.skip(k + 1).drop_last() =~= d.skip(k + 1));
        assert(s.skip(k + 1).last() == s.last());
    }
}

/// Unification reflexivity: a metavariable-free term unifies with itself
/// without touching the table.
pub proof fn lemma_unify_reflexive(ms: Seq<MetaV>, e: ExprV, fuel: nat)
    requires
        meta_free(e),
    ensures
        spec_unify(ms, None, e, e, fuel) == (Ok::<(), ErrV>(()), ms),
    decreases esize(e),
{
    assert(e.arrow_params.skip(0) =~= e.arrow_params);
    assert(e.tail.skip(0) =~= e.tail);
    assert(!(e.head is Meta));
    assert(spec_unify(ms, None, e, e, fuel) == spec_unify_right(ms, None, e, e, fuel));
    assert(spec_unify_right(ms, None, e, e, fuel) == spec_unify_heads(ms, e, e, fuel));
    if e.arrow_params.len() > 0 {
        lemma_meta_free_skip(e.arrow_params, 0);
        lemma_esize_drop_param(e);
        assert(e.arrow_params.skip(1) =~= e.arrow_params.drop_first());
        let e2 = drop_param(e);
        assert(meta_free(e2));
        lemma_unify_reflexive(ms, e.arrow_params[0], fuel);
        lemma_unify_reflexive(ms, e2, fuel);
        assert(spec_unify(ms, None, e.arrow_params[0], e.arrow_params[0], fuel) == (
            Ok::<(), ErrV>(()),
            ms,
        ));
        assert(spec_unify_heads(ms, e, e, fuel) == spec_unify(ms, None, e2, e2, fuel));
    } else if e.tail.len() > 0 {
        let e2 = drop_arg(e);
        lemma_esize_drop_arg(e);
        assert(meta_free_seq(e.tail.drop_last()) && meta_free(e.tail.last()));
        assert(meta_free(e2));
        lemma_unify_reflexive(ms, e.tail.last(), fuel);
        lemma_unify_reflexive(ms, e2, fuel);
        assert(spec_unify(ms, None, e.tail.last(), e.tail.last(), fuel) == (
            Ok::<(), ErrV>(()),
            ms,
        ));
        assert(spec_unify_heads(ms, e, e, fuel) == spec_unify(ms, None, e2, e2, fuel));
    } else {
        assert(spec_unify_heads(ms, e, e, fuel) == (Ok::<(), ErrV>(()), ms));
    }
}

/// Every recorded dependency set indexes within the table.
pub open spec fn deps_wf(ms: Seq<MetaV>) -> bool {
    forall|k: int| 0 <= k < ms.len() ==> (#[trigger] ms[k].dependencies).len() <= ms.len()
}

/// A dependency walk over a term whose metavariables stay inside the
/// table succeeds, only ever adds marks, and marks every metavariable the
/// term mentions.
pub proof fn lemma_check_deps_marks(ms: Seq<MetaV>, deps: Seq<bool>, e: ExprV, m: int)
    requires
        metas_lt(e, ms.len() as int),
        deps.len() == ms.len(),
        deps_wf(ms),
    ensures
        ({
            let r = spec_check_deps(ms, deps, e);
            &&& r is Some
            &&& r matches Some(d) ==> ({
                &&& d.len() == deps.len()
                &&& (forall|j: int| 0 <= j < deps.len() && deps[j] ==> d[j])
                &&& (has_meta(e, m) && 0 <= m < deps.len() ==> d[m])
            })
        }),
    decreases esize(e), 0int,
{
    assert(e.arrow_params.skip(0) =~= e.arrow_params);
    assert(e.tail.skip(0) =~= e.tail);
    lemma_check_deps_marks_from(ms, deps, e.arrow_params, 0, m);
    let d1 = spec_check_deps_from(ms, deps, e.arrow_params, 0)->0;
    lemma_check_deps_marks_from(ms, d1, e.tail, 0, m);
}

pub proof fn lemma_check_deps_marks_from(
    ms: Seq<MetaV>,
    deps: Seq<bool>,
    s: Seq<ExprV>,
    k: int,
    m: int,
)
    requires
        0 <= k <= s.len(),
        metas_lt_seq(s.skip(k), ms.len() as int),
        deps.len() == ms.len(),
        deps_wf(ms),
    ensures
        ({
            let r = spec_check_deps_from(ms, deps, s, k);
            &&& r is Some
            &&& r matches Some(d) ==> ({
                &&& d.len() == deps.len()
                &&& (forall|j: int| 0 <= j < deps.len() && deps[j] ==> d[j])
                &&& (has_meta_seq(s.skip(k), m) && 0 <= m < deps.len() ==> d[m])
            })
        }),
    decreases crate::term::esize_seq(s.skip(k)), 1int,
{
    if k >= s.len() {
        assert(s.skip(k) =~= Seq::<ExprV>::empty());
    } else {
        crate::eval::lemma_esize_skip(s, k);
        crate::eval::lemma_esize_pos(s[k]);
        lemma_metas_lt_skip(s, k, ms.len() as int);
        lemma_has_meta_skip(s, k, m);
        lemma_check_deps_marks(ms, deps, s[k], m);
        let d = spec_check_deps(ms, deps, s[k])->0;
        lemma_check_deps_marks_from(ms, d, s, k + 1, m);
    }
}

/// The occurs check: unifying a fresh metavariable `m` against any
/// expression structurally containing `m` fails — except the bare
/// metavariable itself, where the equation holds trivially.  Where the
/// expression's own head is a different, already-solved metavariable,
/// dereferencing replaces the expression before the check, so the law
/// speaks only of unsolved heads.
pub proof fn lemma_occurs_check(ms: Seq<MetaV>, m: usize, e: ExprV, fuel: nat)
    requires
        m < ms.len(),
        ms[m as int].solution is None,
        has_meta(e, m as int),
        !(e.arrow_params.len() == 0 && e.tail.len() == 0 && e.head == Ident::Meta(m, 0usize)),
        metas_lt(e, ms.len() as int),
        deps_wf(ms),
        match e.head {
            Ident::Meta(j, off) => (off == 0 && j != m) ==> ms[j as int].solution is None,
            _ => true,
        },
    ensures
        ({
            let lhs = ExprV { arrow_params: Seq::empty(), head: Ident::Meta(m, 0), tail: Seq::empty() };
            spec_unify(ms, None, lhs, e, fuel).0 is Err
        }),
{
    let lhs = ExprV { arrow_params: Seq::empty(), head: Ident::Meta(m, 0), tail: Seq::empty() };
    let zeros = Seq::new(ms.len(), |j: int| false);
    lemma_check_deps_marks(ms, zeros, e, m as int);
    assert(spec_unify(ms, None, lhs, e, fuel) == spec_unify_right(ms, Some(m), lhs, e, fuel));
    assert(spec_unify_right(ms, Some(m), lhs, e, fuel) == spec_unify_heads(ms, lhs, e, fuel));
    assert(spec_unify_heads(ms, lhs, e, fuel) == spec_check_solution(ms, m, 0, e));
    match spec_check_deps(ms, zeros, e) {
        Some(d) => {
            assert(d[m as int]);
        },
        None => {
            assert(false);
        },
    }
}


/// The first unsolved metavariable, scanning from `k`, whose recorded
/// dependencies are all finalized.
pub open spec fn spec_find_ready(ms: Seq<MetaV>, solved: Seq<bool>, k: int) -> Option<int>
    decreases ms.len() - k,
{
    if k < 0 || k >= ms.len() {
        None
    } else if k < solved.len() && !solved[k] && deps_all_solved(ms[k].dependencies, solved, 0) {
        Some(k)
    } else {
        spec_find_ready(ms, solved, k + 1)
    }
}

/// Whether every marked dependency from `j` on is already finalized.
pub open spec fn deps_all_solved(deps: Seq<bool>, solved: Seq<bool>, j: int) -> bool
    decreases deps.len() - j,
{
    if j < 0 || j >= deps.len() {
        true
    } else {
        (deps[j] ==> (j < solved.len() && solved[j])) && deps_all_solved(deps, solved, j + 1)
    }
}

/// One finalization round of `link_solution`; `remaining` counts the
/// metavariables not yet finalized.
pub open spec fn spec_link_loop(
    defs: Seq<crate::globals::ItemV>,
    ols: Seq<Seq<usize>>,
    loc: Seq<ExprV>,
    nloc: usize,
    ms: Seq<MetaV>,
    solution: Seq<MetaSolutionV>,
    solved: Seq<bool>,
    remaining: nat,
    fuel: nat,
) -> Result<Seq<MetaSolutionV>, ErrV>
    decreases remaining,
{
    if remaining == 0 {
        Ok(solution)
    } else {
        match spec_find_ready(ms, solved, 0) {
            None => Err(ErrV::UnificationFailure),
            Some(i) => {
                match ms[i].solution {
                    None => Err(ErrV::UnificationFailure),
                    Some(sol_i) => {
                        match crate::eval::spec_subst_metas(sol_i, 0, 0, solution, 0) {
                            Err(er) => Err(er),
                            Ok(new_sol) => {
                                let (tr, _msx) = crate::check::spec_elab(
                                    defs,
                                    ols,
                                    Seq::empty(),
                                    loc,
                                    nloc,
                                    new_sol,
                                    None,
                                    fuel,
                                );
                                match tr {
                                    Err(er) => Err(er),
                                    Ok((ty, _elab)) => {
                                        let s1 = solution.update(
                                            i,
                                            (MetaSolutionV {
                                                val: new_sol,
                                                ty: ty,
                                                level: solution[i].level,
                                            }),
                                        );
                                        spec_link_loop(
                                            defs,
                                            ols,
                                            loc,
                                            nloc,
                                            ms,
                                            s1,
                                            solved.update(i, true),
                                            (remaining - 1) as nat,
                                            fuel,
                                        )
                                    },
                                }
                            },
                        }
                    },
                }
            },
        }
    }
}

/// Re-check the deferred type constraints from metavariable `i` on, each
/// constraint from position `c`; a non-unit offset is beyond this
/// implementation's resource budget, and an offset of zero cannot arise
/// from `check_solution`.
pub open spec fn spec_link_constraints(
    ms: Seq<MetaV>,
    solution: Seq<MetaSolutionV>,
    i: int,
    c: int,
) -> Result<(), ErrV>
    decreases ms.len() - i, ms[i].type_constraints.len() - c,
{
    if i < 0 || i >= ms.len() {
        Ok(())
    } else if c < 0 || c >= ms[i].type_constraints.len() {
        spec_link_constraints(ms, solution, i + 1, 0)
    } else {
        let (n, val) = ms[i].type_constraints[c];
        if n != 1 {
            Err(ErrV::Resource)
        } else {
            match crate::eval::spec_subst_metas(val, 0, 0, solution, 0) {
                Err(er) => Err(er),
                Ok(expected) => {
                    if 0 <= i < solution.len() && expected == solution[i].ty {
                        spec_link_constraints(ms, solution, i, c + 1)
                    } else {
                        Err(ErrV::UnificationFailure)
                    }
                },
            }
        }
    }
}

/// The mirror of `link_solution`: finalize the metavariables in
/// dependency order, then re-check the deferred constraints.
pub open spec fn spec_link_solution(
    defs: Seq<crate::globals::ItemV>,
    ols: Seq<Seq<usize>>,
    loc: Seq<ExprV>,
    nloc: usize,
    ms: Seq<MetaV>,
    fuel: nat,
) -> Result<Seq<MetaSolutionV>, ErrV> {
    let init = Seq::new(
        ms.len(),
        |i: int|
            MetaSolutionV {
                val: ExprV {
                    arrow_params: Seq::empty(),
                    head: Ident::Meta(i as usize, 0),
                    tail: Seq::empty(),
                },
                ty: ExprV {
                    arrow_params: Seq::empty(),
                    head: Ident::Meta(i as usize, 1),
                    tail: Seq::empty(),
                },
                level: usize::MAX,
            },
    );
    match spec_link_loop(
        defs,
        ols,
        loc,
        nloc,
        ms,
        init,
        Seq::new(ms.len(), |i: int| false),
        ms.len(),
        fuel,
    ) {
        Err(er) => Err(er),
        Ok(solution) => match spec_link_constraints(ms, solution, 0, 0) {
            Err(er) => Err(er),
            Ok(()) => Ok(solution),
        },
    }
}

/// Finalize every metavariable after a declaration's checks: select, in
/// dependency order, a ready metavariable, substitute the finalized
/// solutions into its recorded one, compute its type, and store both;
/// finally re-check every deferred type constraint against the computed
/// types.
#[verifier::rlimit(100)]
pub fn link_solution(
    defs: &Vec<crate::globals::Item>,
    ols: &Vec<Vec<usize>>,
    locals: &mut Vec<Expr>,
    metas: &Vec<Meta>,
    fuel: u64,
) -> (r: Result<Vec<MetaSolution>, ElabError>)
    ensures
        final(locals)@ == old(locals)@,
        match spec_link_solution(
            crate::globals::items_view(defs@),
            crate::check::ols_view(ols@),
            view_seq(old(locals)@),
            old(locals)@.len() as usize,
            metas_view(metas@),
            fuel as nat,
        ) {
            Ok(sols) => r matches Ok(v) && sols_view(v@) == sols,
            Err(er) => r matches Err(e) && e@ == er,
        },
{
    let ghost defsv = crate::globals::items_view(defs@);
    let ghost olsv = crate::check::ols_view(ols@);
    let ghost msv = metas_view(metas@);
    let ghost nloc0 = locals@.len() as usize;
    proof {
        broadcast use lemma_metas_view_len, lemma_metas_view_index, lemma_sols_view_len, lemma_sols_view_index;

    }
    let n = metas.len();
    let mut solution: Vec<MetaSolution> = Vec::new();
    let mut z: usize = 0;
    while z < n
        invariant
            0 <= z <= n,
            solution@.len() == z,
            forall|t: int|
                0 <= t < z ==> #[trigger] sol_view(solution@[t]) == (MetaSolutionV {
                    val: ExprV {
                        arrow_params: Seq::empty(),
                        head: Ident::Meta(t as usize, 0),
                        tail: Seq::empty(),
                    },
                    ty: ExprV {
                        arrow_params: Seq::empty(),
                        head: Ident::Meta(t as usize, 1),
                        tail: Seq::empty(),
                    },
                    level: usize::MAX,
                }),
        decreases n - z,
    {
        solution.push(
            MetaSolution {
                val: Expr::ident(Ident::Meta(z, 0)),
                ty: Expr::ident(Ident::Meta(z, 1)),
                level: usize::MAX,
            },
        );
        z = z + 1;
    }
    let mut solved: Vec<bool> = Vec::new();
    let mut z2: usize = 0;
    while z2 < n
        invariant
            0 <= z2 <= n,
            solved@.len() == z2,
            forall|t: int| 0 <= t < z2 ==> !(#[trigger] solved@[t]),
        decreases n - z2,
    {
        solved.push(false);
        z2 = z2 + 1;
    }
    let ghost init = Seq::new(
        msv.len(),
        |i: int|
            MetaSolutionV {
                val: ExprV {
                    arrow_params: Seq::empty(),
                    head: Ident::Meta(i as usize, 0),
                    tail: Seq::empty(),
                },
                ty: ExprV {
                    arrow_params: Seq::empty(),
                    head: Ident::Meta(i as usize, 1),
                    tail: Seq::empty(),
                },
                level: usize::MAX,
            },
    );
    proof {
        assert(sols_view(solution@) =~= init);
        assert(solved@ =~= Seq::new(msv.len(), |i: int| false));
    }
    let mut remaining = n;
    while remaining > 0
        invariant
            0 <= remaining <= n,
            n == msv.len(),
            n == metas@.len(),
            msv == metas_view(metas@),
            defsv == crate::globals::items_view(defs@),
            olsv == crate::check::ols_view(ols@),
            nloc0 == old(locals)@.len() as usize,
            locals@ == old(locals)@,
            solution@.len() == n,
            solved@.len() == n,
            init == Seq::new(
                msv.len(),
                |t: int|
                    MetaSolutionV {
                        val: ExprV {
                            arrow_params: Seq::empty(),
                            head: Ident::Meta(t as usize, 0),
                            tail: Seq::empty(),
                        },
                        ty: ExprV {
                            arrow_params: Seq::empty(),
                            head: Ident::Meta(t as usize, 1),
                            tail: Seq::empty(),
                        },
                        level: usize::MAX,
                    },
            ),
            spec_link_loop(defsv, olsv, view_seq(old(locals)@), nloc0, msv, init, Seq::new(
                msv.len(), |t: int| false), msv.len(), fuel as nat) == spec_link_loop(defsv, olsv,
                view_seq(old(locals)@), nloc0, msv, sols_view(solution@), solved@,
                remaining as nat, fuel as nat),
        decreases remaining,
    {
        proof {
            broadcast use lemma_metas_view_len, lemma_metas_view_index, lemma_sols_view_len, lemma_sols_view_index;

        }
        // select the first unsolved metavariable with finalized dependencies
        let mut next: Option<usize> = None;
        let mut i: usize = 0;
        while i < n && next.is_none()
            invariant
                0 <= i <= n,
                n == msv.len(),
                n == metas@.len(),
                msv == metas_view(metas@),
                solved@.len() == n,
                match next {
                    Some(v) => v < n && spec_find_ready(msv, solved@, 0) == Some(v as int),
                    None => spec_find_ready(msv, solved@, 0) == spec_find_ready(
                        msv,
                        solved@,
                        i as int,
                    ),
                },
            decreases n - i, (if next is Some {
                0int
            } else {
                1int
            }),
        {
            proof {
                broadcast use lemma_metas_view_len, lemma_metas_view_index;

            }
            let deps_len = metas[i].dependencies.len();
            let mut picked = false;
            if !solved[i] {
                let mut ok = true;
                let mut j: usize = 0;
                while j < deps_len
                    invariant
                        0 <= j <= deps_len,
                        i < n,
                        n == metas@.len(),
                        n == msv.len(),
                        msv == metas_view(metas@),
                        deps_len == msv[i as int].dependencies.len(),
                        solved@.len() == n,
                        ok == deps_all_solved_upto(msv[i as int].dependencies, solved@, j as int),
                    decreases deps_len - j,
                {
                    proof {
                        broadcast use lemma_metas_view_len, lemma_metas_view_index;

                    }
                    if metas[i].dependencies[j] {
                        if j >= solved.len() || !solved[j] {
                            ok = false;
                        }
                    }
                    j = j + 1;
                }
                proof {
                    lemma_deps_all_solved_upto(msv[i as int].dependencies, solved@, deps_len as int);
                }
                if ok {
                    next = Some(i);
                    picked = true;
                    proof {
                        assert(spec_find_ready(msv, solved@, i as int) == Some(i as int));
                    }
                }
            }
            if !picked {
                proof {
                    assert(spec_find_ready(msv, solved@, i as int) == spec_find_ready(msv, solved@,
                        i as int + 1));
                }
                i = i + 1;
            }
        }
        let i = match next {
            Some(i) => i,
            None => {
                proof {
                    assert(spec_find_ready(msv, solved@, n as int) is None);
                    assert(spec_link_solution(defsv, olsv, view_seq(old(locals)@), nloc0, msv,
                        fuel as nat) == Err::<Seq<MetaSolutionV>, _>(ErrV::UnificationFailure));
                }
                return Err(ElabError::UnificationFailure);
            },
        };
        let sol_i = match &metas[i].solution {
            Some(x) => x.clone(),
            None => {
                return Err(ElabError::UnificationFailure);
            },
        };
        let new_sol = match crate::eval::subst_metas(&sol_i, 0, 0, &solution, 0) {
            Ok(v) => v,
            Err(e) => {
                return Err(e);
            },
        };
        let mut fresh: Vec<Meta> = Vec::new();
        proof {
            assert(metas_view(fresh@) =~= Seq::<MetaV>::empty());
        }
        let (ty, _elab) = match crate::check::calculate_type(
            defs,
            ols,
            &mut fresh,
            locals,
            &new_sol,
            fuel,
        ) {
            Ok(p) => p,
            Err(e) => {
                return Err(e);
            },
        };
        let level_i = solution[i].level;
        let ghost sols_pre = sols_view(solution@);
        solution.set(i, MetaSolution { val: new_sol, ty, level: level_i });
        let ghost solved_pre = solved@;
        solved.set(i, true);
        proof {
            assert(sols_view(solution@) =~= sols_pre.update(i as int, sol_view(
                solution@[i as int])));
            assert(solved@ =~= solved_pre.update(i as int, true));
        }
        remaining = remaining - 1;
    }
    // re-check the deferred type constraints
    let mut ci: usize = 0;
    while ci < n
        invariant
            0 <= ci <= n,
            n == msv.len(),
            n == metas@.len(),
            msv == metas_view(metas@),
            solution@.len() == n,
            locals@ == old(locals)@,
            defsv == crate::globals::items_view(defs@),
            olsv == crate::check::ols_view(ols@),
            nloc0 == old(locals)@.len() as usize,
            spec_link_loop(defsv, olsv, view_seq(old(locals)@), nloc0, msv, init, Seq::new(
                msv.len(), |t: int| false), msv.len(), fuel as nat) == Ok::<
                Seq<MetaSolutionV>,
                ErrV,
            >(sols_view(solution@)),
            init == Seq::new(
                msv.len(),
                |t: int|
                    MetaSolutionV {
                        val: ExprV {
                            arrow_params: Seq::empty(),
                            head: Ident::Meta(t as usize, 0),
                            tail: Seq::empty(),
                        },
                        ty: ExprV {
                            arrow_params: Seq::empty(),
                            head: Ident::Meta(t as usize, 1),
                            tail: Seq::empty(),
                        },
                        level: usize::MAX,
                    },
            ),
            spec_link_constraints(msv, sols_view(solution@), 0, 0) == spec_link_constraints(msv,
                sols_view(solution@), ci as int, 0),
        decreases n - ci,
    {
        proof {
            broadcast use lemma_metas_view_len, lemma_metas_view_index, lemma_tc_view_len, lemma_tc_view_index, lemma_sols_view_len, lemma_sols_view_index;

        }
        let n_tc = metas[ci].type_constraints.len();
        let mut cc: usize = 0;
        while cc < n_tc
            invariant
                0 <= cc <= n_tc,
                ci < n,
                n == msv.len(),
                n == metas@.len(),
                msv == metas_view(metas@),
                n_tc == msv[ci as int].type_constraints.len(),
                solution@.len() == n,
                locals@ == old(locals)@,
                defsv == crate::globals::items_view(defs@),
                olsv == crate::check::ols_view(ols@),
                nloc0 == old(locals)@.len() as usize,
                spec_link_loop(defsv, olsv, view_seq(old(locals)@), nloc0, msv, init, Seq::new(
                    msv.len(), |t: int| false), msv.len(), fuel as nat) == Ok::<
                    Seq<MetaSolutionV>,
                    ErrV,
                >(sols_view(solution@)),
                init == Seq::new(
                    msv.len(),
                    |t: int|
                        MetaSolutionV {
                            val: ExprV {
                                arrow_params: Seq::empty(),
                                head: Ident::Meta(t as usize, 0),
                                tail: Seq::empty(),
                            },
                            ty: ExprV {
                                arrow_params: Seq::empty(),
                                head: Ident::Meta(t as usize, 1),
                                tail: Seq::empty(),
                            },
                            level: usize::MAX,
                        },
                ),
                spec_link_constraints(msv, sols_view(solution@), 0, 0) == spec_link_constraints(
                    msv, sols_view(solution@), ci as int, cc as int),
            decreases n_tc - cc,
        {
            proof {
                broadcast use lemma_metas_view_len, lemma_metas_view_index, lemma_tc_view_len, lemma_tc_view_index, lemma_sols_view_len, lemma_sols_view_index;

            }
            let noff = metas[ci].type_constraints[cc].0;
            if noff != 1 {
                return Err(ElabError::Resource);
            }
            let val = &metas[ci].type_constraints[cc].1;
            let expected = match crate::eval::subst_metas(val, 0, 0, &solution, 0) {
                Ok(v) => v,
                Err(e) => {
                    return Err(e);
                },
            };
            let same = crate::term::expr_eq(&expected, &solution[ci].ty);
            if !same {
                return Err(ElabError::UnificationFailure);
            }
            cc = cc + 1;
        }
        ci = ci + 1;
    }
    Ok(solution)
}

/// The prefix form of `deps_all_solved`, used by the selection scan.
pub open spec fn deps_all_solved_upto(deps: Seq<bool>, solved: Seq<bool>, j: int) -> bool
    decreases j,
{
    if j <= 0 {
        true
    } else {
        deps_all_solved_upto(deps, solved, j - 1) && (deps[j - 1] ==> (j - 1 < solved.len()
            && solved[j - 1]))
    }
}

/// Scanning the whole record front to back or back to front agrees.
pub proof fn lemma_deps_all_solved_upto(deps: Seq<bool>, solved: Seq<bool>, j: int)
    requires
        0 <= j <= deps.len(),
    ensures
        deps_all_solved_upto(deps, solved, j) == deps_all_solved_from(deps, solved, 0, j),
        j == deps.len() ==> deps_all_solved_upto(deps, solved, j) == deps_all_solved(
            deps,
            solved,
            0,
        ),
    decreases j,
{
    if j > 0 {
        lemma_deps_all_solved_upto(deps, solved, j - 1);
        lemma_deps_prefix(deps, solved, 0, j - 1);
        if j == deps.len() {
            lemma_deps_from_total(deps, solved, 0, j);
        }
    } else {
        if j == deps.len() {
            lemma_deps_from_total(deps, solved, 0, j);
        }
    }
}

/// `deps_all_solved` over the window `[k, j)`.
pub open spec fn deps_all_solved_from(deps: Seq<bool>, solved: Seq<bool>, k: int, j: int) -> bool
    decreases j - k,
{
    if k < 0 || k >= j {
        true
    } else {
        (deps[k] ==> (k < solved.len() && solved[k])) && deps_all_solved_from(
            deps,
            solved,
            k + 1,
            j,
        )
    }
}

proof fn lemma_deps_prefix(deps: Seq<bool>, solved: Seq<bool>, k: int, j: int)
    requires
        0 <= k <= j,
    ensures
        deps_all_solved_from(deps, solved, k, j + 1) == (deps_all_solved_from(deps, solved, k, j)
            && (deps[j] ==> (j < solved.len() && solved[j]))),
    decreases j - k,
{
    if k < j {
        lemma_deps_prefix(deps, solved, k + 1, j);
    } else {
        assert(deps_all_solved_from(deps, solved, k + 1, j + 1) == true);
    }
}

proof fn lemma_deps_from_total(deps: Seq<bool>, solved: Seq<bool>, k: int, j: int)
    requires
        0 <= k,
        j == deps.len(),
    ensures
        deps_all_solved_from(deps, solved, k, j) == deps_all_solved(deps, solved, k),
    decreases j - k,
{
    if k < j {
        lemma_deps_from_total(deps, solved, k + 1, j);
    }
}

} // verus!
