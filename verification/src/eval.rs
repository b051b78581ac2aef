//! Capture-correct substitution and weak (delta-only) evaluation.
//!
//! `subst(base, shared, extra, args, arg_ctx_size)` computes
//! `base[x_(shared+i) := args_i]`, where `base` is valid in a context of
//! `shared + args.len() + extra` variables and the result is valid in
//! `arg_ctx_size + extra` variables: locals below `shared` are kept,
//! locals in the substitution window are replaced by the (deepened)
//! arguments, and locals above the window are renumbered to continue from
//! `arg_ctx_size`.  Each function is specified exactly by a spec-level
//! mirror over the term model.
use vstd::prelude::*;
use crate::term::ElabError;
use crate::term::ErrV;
use crate::term::Expr;
use crate::term::ExprV;
use crate::term::Ident;
use crate::term::esize;
use crate::term::esize_seq;
use crate::term::expr_view;
use crate::term::lemma_esize_seq_element;
use crate::term::lemma_view_seq_index;
use crate::term::lemma_view_seq_len;
use crate::term::lemma_view_seq_push;
use crate::term::res_view;
use crate::term::spec_insert;
use crate::term::view_seq;
use crate::globals::Item;
use crate::unify::MetaSolution;
use crate::unify::MetaSolutionV;
use crate::unify::lemma_sols_view_index;
use crate::unify::lemma_sols_view_len;
use crate::unify::sols_view;
use crate::globals::ItemV;
use crate::globals::items_view;
use crate::globals::lemma_items_view_index;
use crate::globals::lemma_items_view_len;

verus! {

broadcast use
    vstd::group_vstd_default,
    lemma_view_seq_len,
    lemma_view_seq_index,
    lemma_esize_seq_element;

/// Front decomposition of the size of a sequence of terms.
pub proof fn lemma_esize_skip(s: Seq<ExprV>, k: int)
    requires
        0 <= k < s.len(),
    ensures
        esize_seq(s.skip(k)) == esize(s[k]) + esize_seq(s.skip(k + 1)),
    decreases s,
{
    if k == s.len() - 1 {
        assert(s.skip(k) =~= seq![s[k]]);
        assert(s.skip(k + 1) =~= Seq::<ExprV>::empty());
        assert(s.skip(k).drop_last() =~= Seq::<ExprV>::empty());
        assert(esize_seq(Seq::<ExprV>::empty()) == 0);
        assert(s.skip(k).len() == 1);
        assert(s.skip(k).last() == s[k]);
        assert(esize_seq(s.skip(k)) == esize_seq(s.skip(k).drop_last()) + esize(s.skip(k).last()));
        assert(esize_seq(s.skip(k)) == esize(s[k]));
    } else {
        let d = s.drop_last();
        lemma_esize_skip(d, k);
        assert(s.skip(k).drop_last() =~= d.skip(k));
        assert(s.skip(k).last() == s.last());
        assert(s.skip(k + 1).drop_last() =~= d.skip(k + 1));
        assert(s.skip(k + 1).last() == s.last());
        assert(esize_seq(s.skip(k)) == esize_seq(d.skip(k)) + esize(s.last()));
        assert(esize_seq(s.skip(k + 1)) == esize_seq(d.skip(k + 1)) + esize(s.last()));
    }
}

/// The mirror of `deepen`: shift every local at or above `arg_ctx_size`
/// up by `extra`; fails only if a shifted index would not fit in `usize`.
pub open spec fn spec_deepen(arg: ExprV, arg_ctx_size: usize, extra: usize) -> Result<
    ExprV,
    ErrV,
>
    decreases esize(arg), 0int, via spec_deepen_dec
{
    match spec_deepen_from(arg.arrow_params, 0, arg_ctx_size, extra) {
        Err(e) => Err(e),
        Ok(ps) => match spec_deepen_from(arg.tail, 0, arg_ctx_size, extra) {
            Err(e) => Err(e),
            Ok(ts) => match arg.head {
                Ident::Local(i) => {
                    if i >= arg_ctx_size {
                        if i + extra > usize::MAX {
                            Err(ErrV::Resource)
                        } else {
                            Ok(
                                (ExprV {
                                    arrow_params: ps,
                                    head: Ident::Local((i + extra) as usize),
                                    tail: ts,
                                }),
                            )
                        }
                    } else {
                        Ok((ExprV { arrow_params: ps, head: arg.head, tail: ts }))
                    }
                },
                _ => Ok((ExprV { arrow_params: ps, head: arg.head, tail: ts })),
            },
        },
    }
}

#[via_fn]
proof fn spec_deepen_dec(arg: ExprV, arg_ctx_size: usize, extra: usize) {
    assert(arg.arrow_params.skip(0) =~= arg.arrow_params);
    assert(arg.tail.skip(0) =~= arg.tail);
}

/// Deepen the elements `s[k..]`, in order; the first failure wins.
pub open spec fn spec_deepen_from(
    s: Seq<ExprV>,
    k: int,
    arg_ctx_size: usize,
    extra: usize,
) -> Result<Seq<ExprV>, ErrV>
    decreases esize_seq(s.skip(k)), 1int, via spec_deepen_from_dec
{
    if k < 0 || k >= s.len() {
        Ok(Seq::empty())
    } else {
        match spec_deepen(s[k], arg_ctx_size, extra) {
            Err(e) => Err(e),
            Ok(e0) => match spec_deepen_from(s, k + 1, arg_ctx_size, extra) {
                Err(e) => Err(e),
                Ok(rest) => Ok(seq![e0] + rest),
            },
        }
    }
}

#[via_fn]
proof fn spec_deepen_from_dec(s: Seq<ExprV>, k: int, arg_ctx_size: usize, extra: usize) {
    if 0 <= k < s.len() {
        lemma_esize_skip(s, k);
    }
}

/// `deepen` shifts the free variables of an argument (indices at or above
/// `arg_ctx_size`) up by `extra`, to account for binders opened inside the
/// base expression since the substitution point.
pub fn deepen(arg: &Expr, arg_ctx_size: usize, extra: usize) -> (r: Result<Expr, ElabError>)
    ensures
        res_view(r) == spec_deepen(expr_view(*arg), arg_ctx_size, extra),
    decreases esize(expr_view(*arg)), 0int,
{
    let arrow_params = match deepen_all(&arg.arrow_params, arg_ctx_size, extra) {
        Ok(v) => v,
        Err(e) => {
            proof {
                assert(expr_view(*arg).arrow_params.skip(0) =~= expr_view(*arg).arrow_params);
            }
            return Err(e);
        },
    };
    let tail = match deepen_all(&arg.tail, arg_ctx_size, extra) {
        Ok(v) => v,
        Err(e) => {
            proof {
                assert(expr_view(*arg).arrow_params.skip(0) =~= expr_view(*arg).arrow_params);
                assert(expr_view(*arg).tail.skip(0) =~= expr_view(*arg).tail);
            }
            return Err(e);
        },
    };
    proof {
        assert(expr_view(*arg).arrow_params.skip(0) =~= expr_view(*arg).arrow_params);
        assert(expr_view(*arg).tail.skip(0) =~= expr_view(*arg).tail);
    }
    let head = match arg.head {
        Ident::Local(i) => {
            if i >= arg_ctx_size {
                if extra > usize::MAX - i {
                    return Err(ElabError::Resource);
                }
                Ident::Local(i + extra)
            } else {
                arg.head
            }
        },
        h => h,
    };
    Ok(Expr { arrow_params, head, tail })
}

/// Deepen every element of a vector, in order.
fn deepen_all(v: &Vec<Expr>, arg_ctx_size: usize, extra: usize) -> (r: Result<
    Vec<Expr>,
    ElabError,
>)
    ensures
        match r {
            Ok(out) => spec_deepen_from(view_seq(v@), 0, arg_ctx_size, extra) == Ok::<_, ErrV>(
                view_seq(out@),
            ),
            Err(e) => spec_deepen_from(view_seq(v@), 0, arg_ctx_size, extra) == Err::<
                Seq<ExprV>,
                _,
            >(e@),
        },
    decreases esize_seq(view_seq(v@)), 1int,
{
    let ghost sv = view_seq(v@);
    let mut out: Vec<Expr> = Vec::new();
    let mut k: usize = 0;
    while k < v.len()
        invariant
            0 <= k <= v.len(),
            sv == view_seq(v@),
            sv.len() == v@.len(),
            match spec_deepen_from(sv, k as int, arg_ctx_size, extra) {
                Ok(rest) => spec_deepen_from(sv, 0, arg_ctx_size, extra) == Ok::<_, ErrV>(
                    view_seq(out@) + rest,
                ),
                Err(e) => spec_deepen_from(sv, 0, arg_ctx_size, extra) == Err::<Seq<ExprV>, _>(e),
            },
        decreases v.len() - k,
    {
        proof {
            lemma_esize_skip(sv, k as int);
        }
        let r0 = deepen(&v[k], arg_ctx_size, extra);
        match r0 {
            Ok(e0) => {
                let ghost old_out = out@;
                out.push(e0);
                proof {
                    lemma_view_seq_push(old_out, e0);
                    if let Ok(rest) = spec_deepen_from(sv, k + 1, arg_ctx_size, extra) {
                        assert(view_seq(old_out) + (seq![expr_view(e0)] + rest) =~= view_seq(out@)
                            + rest);
                    }
                }
            },
            Err(e) => {
                return Err(e);
            },
        }
        k = k + 1;
    }
    proof {
        assert(view_seq(out@) + Seq::<ExprV>::empty() =~= view_seq(out@));
    }
    Ok(out)
}

/// The mirror of `subst`.  `base` is read in a context of
/// `shared + args.len() + extra` variables:
/// - a local below `shared` is kept;
/// - a local in the window `[shared, shared + args.len())` is replaced by
///   the corresponding argument, deepened and spliced into head position;
/// - a local above the window is renumbered to continue from
///   `arg_ctx_size`.
pub open spec fn spec_subst(
    base: ExprV,
    shared: usize,
    extra: usize,
    args: Seq<ExprV>,
    arg_ctx_size: usize,
) -> Result<ExprV, ErrV>
    decreases esize(base), 0int, via spec_subst_dec
{
    match spec_subst_params_from(base.arrow_params, 0, shared, extra, args, arg_ctx_size) {
        Err(e) => Err(e),
        Ok(ps) => {
            if extra + base.arrow_params.len() > usize::MAX {
                Err(ErrV::Resource)
            } else {
                let extra2 = (extra + base.arrow_params.len()) as usize;
                match spec_subst_from(base.tail, 0, shared, extra2, args, arg_ctx_size) {
                    Err(e) => Err(e),
                    Ok(ts) => {
                        let node = ExprV { arrow_params: ps, head: Ident::Universe(0), tail: ts };
                        match base.head {
                            Ident::Local(i) => {
                                if i < shared {
                                    Ok((ExprV { head: Ident::Local(i), ..node }))
                                } else if i - shared < args.len() {
                                    match spec_deepen(args[i - shared], arg_ctx_size, extra2) {
                                        Err(e) => Err(e),
                                        Ok(a) => spec_insert(node, a),
                                    }
                                } else {
                                    let e = i - shared - args.len();
                                    if arg_ctx_size + e > usize::MAX {
                                        Err(ErrV::Resource)
                                    } else {
                                        Ok(
                                            (ExprV {
                                                head: Ident::Local((arg_ctx_size + e) as usize),
                                                ..node
                                            }),
                                        )
                                    }
                                }
                            },
                            _ => Ok((ExprV { head: base.head, ..node })),
                        }
                    },
                }
            }
        },
    }
}

#[via_fn]
proof fn spec_subst_dec(
    base: ExprV,
    shared: usize,
    extra: usize,
    args: Seq<ExprV>,
    arg_ctx_size: usize,
) {
    assert(base.arrow_params.skip(0) =~= base.arrow_params);
    assert(base.tail.skip(0) =~= base.tail);
}

/// Substitute into the telescope elements `s[k..]`: the element at
/// position `k` opens `k` extra binders, so it is processed at
/// `extra + k`.
pub open spec fn spec_subst_params_from(
    s: Seq<ExprV>,
    k: int,
    shared: usize,
    extra: usize,
    args: Seq<ExprV>,
    arg_ctx_size: usize,
) -> Result<Seq<ExprV>, ErrV>
    decreases esize_seq(s.skip(k)), 1int, via spec_subst_params_from_dec
{
    if k < 0 || k >= s.len() {
        Ok(Seq::empty())
    } else if extra + k > usize::MAX {
        Err(ErrV::Resource)
    } else {
        match spec_subst(s[k], shared, (extra + k) as usize, args, arg_ctx_size) {
            Err(e) => Err(e),
            Ok(e0) => match spec_subst_params_from(s, k + 1, shared, extra, args, arg_ctx_size) {
                Err(e) => Err(e),
                Ok(rest) => Ok(seq![e0] + rest),
            },
        }
    }
}

#[via_fn]
proof fn spec_subst_params_from_dec(
    s: Seq<ExprV>,
    k: int,
    shared: usize,
    extra: usize,
    args: Seq<ExprV>,
    arg_ctx_size: usize,
) {
    if 0 <= k < s.len() {
        lemma_esize_skip(s, k);
    }
}

/// Substitute into sibling subterms `s[k..]`, all at the same `extra`.
pub open spec fn spec_subst_from(
    s: Seq<ExprV>,
    k: int,
    shared: usize,
    extra: usize,
    args: Seq<ExprV>,
    arg_ctx_size: usize,
) -> Result<Seq<ExprV>, ErrV>
    decreases esize_seq(s.skip(k)), 1int, via spec_subst_from_dec
{
    if k < 0 || k >= s.len() {
        Ok(Seq::empty())
    } else {
        match spec_subst(s[k], shared, extra, args, arg_ctx_size) {
            Err(e) => Err(e),
            Ok(e0) => match spec_subst_from(s, k + 1, shared, extra, args, arg_ctx_size) {
                Err(e) => Err(e),
                Ok(rest) => Ok(seq![e0] + rest),
            },
        }
    }
}

#[via_fn]
proof fn spec_subst_from_dec(
    s: Seq<ExprV>,
    k: int,
    shared: usize,
    extra: usize,
    args: Seq<ExprV>,
    arg_ctx_size: usize,
) {
    if 0 <= k < s.len() {
        lemma_esize_skip(s, k);
    }
}

/// Capture-correct instantiation of a telescope of arguments into `base`;
/// see the module documentation.  An arrow-typed argument spliced into a
/// head that already carries trailing arguments is rejected with an
/// arity error.
pub fn subst(
    base: &Expr,
    shared_ctx_size: usize,
    extra_ctx_size: usize,
    args: &[Expr],
    arg_ctx_size: usize,
) -> (r: Result<Expr, ElabError>)
    ensures
        res_view(r) == spec_subst(
            expr_view(*base),
            shared_ctx_size,
            extra_ctx_size,
            view_seq(args@),
            arg_ctx_size,
        ),
    decreases esize(expr_view(*base)), 0int,
{
    let ghost bv = expr_view(*base);
    let ghost argsv = view_seq(args@);
    proof {
        assert(bv.arrow_params.skip(0) =~= bv.arrow_params);
        assert(bv.tail.skip(0) =~= bv.tail);
        lemma_view_seq_len(base.arrow_params@);
        lemma_view_seq_len(base.tail@);
    }
    let mut arrow_params: Vec<Expr> = Vec::new();
    let mut extra = extra_ctx_size;
    let mut k: usize = 0;
    let ghost pv = bv.arrow_params;
    while k < base.arrow_params.len()
        invariant
            0 <= k <= base.arrow_params.len(),
            pv == view_seq(base.arrow_params@),
            pv == bv.arrow_params,
            bv == expr_view(*base),
            pv.len() == base.arrow_params@.len(),
            argsv == view_seq(args@),
            extra == extra_ctx_size + k,
            match spec_subst_params_from(pv, k as int, shared_ctx_size, extra_ctx_size, argsv,
                arg_ctx_size) {
                Ok(rest) => spec_subst_params_from(pv, 0, shared_ctx_size, extra_ctx_size, argsv,
                    arg_ctx_size) == Ok::<_, ErrV>(view_seq(arrow_params@) + rest),
                Err(e) => spec_subst_params_from(pv, 0, shared_ctx_size, extra_ctx_size, argsv,
                    arg_ctx_size) == Err::<Seq<ExprV>, _>(e),
            },
        decreases base.arrow_params.len() - k,
    {
        proof {
            lemma_esize_skip(pv, k as int);
        }
        let r0 = subst(&base.arrow_params[k], shared_ctx_size, extra, args, arg_ctx_size);
        match r0 {
            Ok(e0) => {
                let ghost old_out = arrow_params@;
                arrow_params.push(e0);
                proof {
                    lemma_view_seq_push(old_out, e0);
                    if let Ok(rest) = spec_subst_params_from(pv, k + 1, shared_ctx_size,
                        extra_ctx_size, argsv, arg_ctx_size) {
                        assert(view_seq(old_out) + (seq![expr_view(e0)] + rest) =~= view_seq(
                            arrow_params@,
                        ) + rest);
                    }
                }
            },
            Err(e) => {
                proof {
                    assert(spec_subst_params_from(pv, 0, shared_ctx_size, extra_ctx_size, argsv,
                        arg_ctx_size) == Err::<Seq<ExprV>, _>(e@));
                    assert(spec_subst(bv, shared_ctx_size, extra_ctx_size, argsv, arg_ctx_size)
                        == Err::<ExprV, _>(e@));
                }
                return Err(e);
            },
        }
        if extra == usize::MAX {
            // the next parameter, or the tail, would be read past the
            // largest representable context
            return Err(ElabError::Resource);
        }
        extra = extra + 1;
        k = k + 1;
    }
    proof {
        assert(view_seq(arrow_params@) + Seq::<ExprV>::empty() =~= view_seq(arrow_params@));
    }
    let mut tail: Vec<Expr> = Vec::new();
    let mut j: usize = 0;
    let ghost tv = bv.tail;
    while j < base.tail.len()
        invariant
            0 <= j <= base.tail.len(),
            tv == view_seq(base.tail@),
            tv == bv.tail,
            bv == expr_view(*base),
            tv.len() == base.tail@.len(),
            argsv == view_seq(args@),
            extra == extra_ctx_size + base.arrow_params@.len(),
            extra_ctx_size + base.arrow_params@.len() <= usize::MAX,
            pv == bv.arrow_params,
            pv.len() == base.arrow_params@.len(),
            spec_subst_params_from(pv, 0, shared_ctx_size, extra_ctx_size, argsv, arg_ctx_size)
                == Ok::<_, ErrV>(view_seq(arrow_params@)),
            match spec_subst_from(tv, j as int, shared_ctx_size, extra, argsv, arg_ctx_size) {
                Ok(rest) => spec_subst_from(tv, 0, shared_ctx_size, extra, argsv, arg_ctx_size)
                    == Ok::<_, ErrV>(view_seq(tail@) + rest),
                Err(e) => spec_subst_from(tv, 0, shared_ctx_size, extra, argsv, arg_ctx_size)
                    == Err::<Seq<ExprV>, _>(e),
            },
        decreases base.tail.len() - j,
    {
        proof {
            lemma_esize_skip(tv, j as int);
        }
        let r0 = subst(&base.tail[j], shared_ctx_size, extra, args, arg_ctx_size);
        match r0 {
            Ok(e0) => {
                let ghost old_out = tail@;
                tail.push(e0);
                proof {
                    lemma_view_seq_push(old_out, e0);
                    if let Ok(rest) = spec_subst_from(tv, j + 1, shared_ctx_size, extra, argsv,
                        arg_ctx_size) {
                        assert(view_seq(old_out) + (seq![expr_view(e0)] + rest) =~= view_seq(tail@)
                            + rest);
                    }
                }
            },
            Err(e) => {
                proof {
                    assert(tv[j as int] == expr_view(base.tail@[j as int]));
                    assert(spec_subst(tv[j as int], shared_ctx_size, extra, argsv, arg_ctx_size)
                        == Err::<ExprV, _>(e@));
                    assert(spec_subst_from(tv, j as int, shared_ctx_size, extra, argsv,
                        arg_ctx_size) == Err::<Seq<ExprV>, _>(e@));
                    assert(spec_subst_from(tv, 0, shared_ctx_size, extra, argsv, arg_ctx_size)
                        == Err::<Seq<ExprV>, _>(e@));
                    assert(spec_subst(bv, shared_ctx_size, extra_ctx_size, argsv, arg_ctx_size)
                        == Err::<ExprV, _>(e@));
                }
                return Err(e);
            },
        }
        j = j + 1;
    }
    proof {
        assert(view_seq(tail@) + Seq::<ExprV>::empty() =~= view_seq(tail@));
    }
    let mut result = Expr { arrow_params, head: Ident::Universe(0), tail };
    match base.head {
        Ident::Local(i) => {
            if i < shared_ctx_size {
                result.head = Ident::Local(i);
                Ok(result)
            } else if i - shared_ctx_size < args.len() {
                let arg = match deepen(&args[i - shared_ctx_size], arg_ctx_size, extra) {
                    Ok(a) => a,
                    Err(e) => {
                        return Err(e);
                    },
                };
                match result.insert(arg) {
                    Ok(()) => Ok(result),
                    Err(e) => Err(e),
                }
            } else {
                let e = i - shared_ctx_size - args.len();
                if e > usize::MAX - arg_ctx_size {
                    return Err(ElabError::Resource);
                }
                result.head = Ident::Local(arg_ctx_size + e);
                Ok(result)
            }
        },
        h => {
            result.head = h;
            Ok(result)
        },
    }
}

/// All the `extra` counters that a no-op substitution over `e` starting
/// at `x` reaches stay within `usize`; this is the machine-limit side
/// condition of the canonicalization law.
pub open spec fn subst_extras_fit(e: ExprV, x: int) -> bool
    decreases esize(e), 0int, via subst_extras_fit_dec
{
    &&& x + e.arrow_params.len() <= usize::MAX
    &&& subst_extras_fit_params(e.arrow_params, 0, x)
    &&& subst_extras_fit_seq(e.tail, 0, x + e.arrow_params.len())
}

#[via_fn]
proof fn subst_extras_fit_dec(e: ExprV, x: int) {
    assert(e.arrow_params.skip(0) =~= e.arrow_params);
    assert(e.tail.skip(0) =~= e.tail);
}

pub open spec fn subst_extras_fit_params(s: Seq<ExprV>, k: int, x: int) -> bool
    decreases esize_seq(s.skip(k)), 1int, via subst_extras_fit_params_dec
{
    if k < 0 || k >= s.len() {
        true
    } else {
        subst_extras_fit(s[k], x + k) && subst_extras_fit_params(s, k + 1, x)
    }
}

#[via_fn]
proof fn subst_extras_fit_params_dec(s: Seq<ExprV>, k: int, x: int) {
    if 0 <= k < s.len() {
        lemma_esize_skip(s, k);
    }
}

pub open spec fn subst_extras_fit_seq(s: Seq<ExprV>, k: int, x: int) -> bool
    decreases esize_seq(s.skip(k)), 1int, via subst_extras_fit_seq_dec
{
    if k < 0 || k >= s.len() {
        true
    } else {
        subst_extras_fit(s[k], x) && subst_extras_fit_seq(s, k + 1, x)
    }
}

#[via_fn]
proof fn subst_extras_fit_seq_dec(s: Seq<ExprV>, k: int, x: int) {
    if 0 <= k < s.len() {
        lemma_esize_skip(s, k);
    }
}


/// The mirror of `eval`: weak (delta-only) reduction.  Each telescope
/// parameter is evaluated in a context one larger than the previous one;
/// the tail is evaluated under all parameters; then, while the head is a
/// global whose definition is stored and fully applied, the definition is
/// unfolded.  `fuel` bounds the number of unfoldings.
pub open spec fn spec_eval(g: Seq<ItemV>, e: ExprV, ctx: usize, fuel: nat) -> Result<ExprV, ErrV>
    decreases fuel, 1int, esize(e), 0int, via spec_eval_dec
{
    match spec_eval_params_from(g, e.arrow_params, 0, ctx, fuel) {
        Err(er) => Err(er),
        Ok(ps) => {
            if ctx + e.arrow_params.len() > usize::MAX {
                Err(ErrV::Resource)
            } else {
                let ctx2 = (ctx + e.arrow_params.len()) as usize;
                match spec_eval_from(g, e.tail, 0, ctx2, fuel) {
                    Err(er) => Err(er),
                    Ok(ts) => spec_unfold(g, ps, e.head, ts, ctx2, fuel),
                }
            }
        },
    }
}

#[via_fn]
proof fn spec_eval_dec(g: Seq<ItemV>, e: ExprV, ctx: usize, fuel: nat) {
    assert(e.arrow_params.skip(0) =~= e.arrow_params);
    assert(e.tail.skip(0) =~= e.tail);
}

/// Evaluate the telescope elements `s[k..]`; the element at position `k`
/// is evaluated in a context of `ctx + k` variables.
pub open spec fn spec_eval_params_from(
    g: Seq<ItemV>,
    s: Seq<ExprV>,
    k: int,
    ctx: usize,
    fuel: nat,
) -> Result<Seq<ExprV>, ErrV>
    decreases fuel, 1int, esize_seq(s.skip(k)), 1int, via spec_eval_params_from_dec
{
    if k < 0 || k >= s.len() {
        Ok(Seq::empty())
    } else if ctx + k > usize::MAX {
        Err(ErrV::Resource)
    } else {
        match spec_eval(g, s[k], (ctx + k) as usize, fuel) {
            Err(er) => Err(er),
            Ok(e0) => match spec_eval_params_from(g, s, k + 1, ctx, fuel) {
                Err(er) => Err(er),
                Ok(rest) => Ok(seq![e0] + rest),
            },
        }
    }
}

#[via_fn]
proof fn spec_eval_params_from_dec(g: Seq<ItemV>, s: Seq<ExprV>, k: int, ctx: usize, fuel: nat) {
    if 0 <= k < s.len() {
        lemma_esize_skip(s, k);
    }
}

/// Evaluate sibling subterms `s[k..]`, all in a context of `ctx`
/// variables.
pub open spec fn spec_eval_from(
    g: Seq<ItemV>,
    s: Seq<ExprV>,
    k: int,
    ctx: usize,
    fuel: nat,
) -> Result<Seq<ExprV>, ErrV>
    decreases fuel, 1int, esize_seq(s.skip(k)), 1int, via spec_eval_from_dec
{
    if k < 0 || k >= s.len() {
        Ok(Seq::empty())
    } else {
        match spec_eval(g, s[k], ctx, fuel) {
            Err(er) => Err(er),
            Ok(e0) => match spec_eval_from(g, s, k + 1, ctx, fuel) {
                Err(er) => Err(er),
                Ok(rest) => Ok(seq![e0] + rest),
            },
        }
    }
}

#[via_fn]
proof fn spec_eval_from_dec(g: Seq<ItemV>, s: Seq<ExprV>, k: int, ctx: usize, fuel: nat) {
    if 0 <= k < s.len() {
        lemma_esize_skip(s, k);
    }
}

/// The unfolding loop: while the head is a stored, fully-applied global,
/// substitute the consumed arguments into its definition, evaluate the
/// substituted parts, and splice the outcome into the node.
pub open spec fn spec_unfold(
    g: Seq<ItemV>,
    ps: Seq<ExprV>,
    head: Ident,
    ts: Seq<ExprV>,
    ctx: usize,
    fuel: nat,
) -> Result<ExprV, ErrV>
    decreases fuel, 0int, 0int, 0int,
{
    match head {
        Ident::Global(i) => {
            if i >= g.len() {
                Err(ErrV::NameNotFound)
            } else {
                match g[i as int].def {
                    None => Ok((ExprV { arrow_params: ps, head, tail: ts })),
                    Some((pn, def)) => {
                        if ts.len() < pn {
                            Ok((ExprV { arrow_params: ps, head, tail: ts }))
                        } else if fuel == 0 {
                            Err(ErrV::Resource)
                        } else {
                            match spec_subst(def, 0, 0, ts.take(pn as int), ctx) {
                                Err(er) => Err(er),
                                Ok(res) => match spec_eval_params_from(
                                    g,
                                    res.arrow_params,
                                    0,
                                    ctx,
                                    (fuel - 1) as nat,
                                ) {
                                    Err(er) => Err(er),
                                    Ok(rps) => {
                                        if ctx + res.arrow_params.len() > usize::MAX {
                                            Err(ErrV::Resource)
                                        } else {
                                            let ctx2 = (ctx + res.arrow_params.len()) as usize;
                                            match spec_eval_from(
                                                g,
                                                res.tail,
                                                0,
                                                ctx2,
                                                (fuel - 1) as nat,
                                            ) {
                                                Err(er) => Err(er),
                                                Ok(rts) => {
                                                    let node = ExprV {
                                                        arrow_params: ps,
                                                        head,
                                                        tail: ts.skip(pn as int),
                                                    };
                                                    let other = ExprV {
                                                        arrow_params: rps,
                                                        head: res.head,
                                                        tail: rts,
                                                    };
                                                    match spec_insert(node, other) {
                                                        Err(er) => Err(er),
                                                        Ok(merged) => spec_unfold(
                                                            g,
                                                            merged.arrow_params,
                                                            merged.head,
                                                            merged.tail,
                                                            ctx2,
                                                            (fuel - 1) as nat,
                                                        ),
                                                    }
                                                },
                                            }
                                        }
                                    },
                                },
                            }
                        }
                    },
                }
            }
        },
        _ => Ok((ExprV { arrow_params: ps, head, tail: ts })),
    }
}

/// Weak reduction: evaluate every subterm, then unfold fully-applied
/// global definitions at the head until none applies.  `fuel` bounds the
/// number of unfoldings; running out reports the resource limit.
pub fn eval(globals: &Vec<Item>, expr: &Expr, ctx_size: usize, fuel: u64) -> (r: Result<
    Expr,
    ElabError,
>)
    ensures
        res_view(r) == spec_eval(items_view(globals@), expr_view(*expr), ctx_size, fuel as nat),
    decreases fuel as nat, 1int, esize(expr_view(*expr)), 0int,
{
    proof {
        assert(expr_view(*expr).arrow_params.skip(0) =~= expr_view(*expr).arrow_params);
        assert(expr_view(*expr).tail.skip(0) =~= expr_view(*expr).tail);
    }
    let ps = match eval_params_all(globals, &expr.arrow_params, ctx_size, fuel) {
        Ok(v) => v,
        Err(e) => {
            return Err(e);
        },
    };
    if expr.arrow_params.len() > usize::MAX - ctx_size {
        return Err(ElabError::Resource);
    }
    let ctx2 = ctx_size + expr.arrow_params.len();
    let ts = match eval_seq_all(globals, &expr.tail, ctx2, fuel) {
        Ok(v) => v,
        Err(e) => {
            return Err(e);
        },
    };
    unfold_globals(globals, ps, expr.head, ts, ctx2, fuel)
}

/// Evaluate every element of a telescope, opening one variable per
/// element.
fn eval_params_all(globals: &Vec<Item>, v: &Vec<Expr>, ctx: usize, fuel: u64) -> (r: Result<
    Vec<Expr>,
    ElabError,
>)
    ensures
        match r {
            Ok(out) => spec_eval_params_from(items_view(globals@), view_seq(v@), 0, ctx, fuel as nat)
                == Ok::<_, ErrV>(view_seq(out@)),
            Err(e) => spec_eval_params_from(items_view(globals@), view_seq(v@), 0, ctx, fuel as nat)
                == Err::<Seq<ExprV>, _>(e@),
        },
    decreases fuel as nat, 1int, esize_seq(view_seq(v@)), 1int,
{
    let ghost gv = items_view(globals@);
    let ghost sv = view_seq(v@);
    let mut out: Vec<Expr> = Vec::new();
    let mut k: usize = 0;
    while k < v.len()
        invariant
            0 <= k <= v.len(),
            gv == items_view(globals@),
            sv == view_seq(v@),
            sv.len() == v@.len(),
            match spec_eval_params_from(gv, sv, k as int, ctx, fuel as nat) {
                Ok(rest) => spec_eval_params_from(gv, sv, 0, ctx, fuel as nat) == Ok::<_, ErrV>(
                    view_seq(out@) + rest,
                ),
                Err(e) => spec_eval_params_from(gv, sv, 0, ctx, fuel as nat) == Err::<
                    Seq<ExprV>,
                    _,
                >(e),
            },
        decreases v.len() - k,
    {
        proof {
            lemma_esize_skip(sv, k as int);
        }
        if k > 0 && ctx > usize::MAX - k {
            return Err(ElabError::Resource);
        }
        let r0 = eval(globals, &v[k], ctx + k, fuel);
        match r0 {
            Ok(e0) => {
                let ghost old_out = out@;
                out.push(e0);
                proof {
                    lemma_view_seq_push(old_out, e0);
                    if let Ok(rest) = spec_eval_params_from(gv, sv, k + 1, ctx, fuel as nat) {
                        assert(view_seq(old_out) + (seq![expr_view(e0)] + rest) =~= view_seq(out@)
                            + rest);
                    }
                }
            },
            Err(e) => {
                return Err(e);
            },
        }
        k = k + 1;
    }
    proof {
        assert(view_seq(out@) + Seq::<ExprV>::empty() =~= view_seq(out@));
    }
    Ok(out)
}

/// Evaluate every element of an argument tail, in one fixed context.
fn eval_seq_all(globals: &Vec<Item>, v: &Vec<Expr>, ctx: usize, fuel: u64) -> (r: Result<
    Vec<Expr>,
    ElabError,
>)
    ensures
        match r {
            Ok(out) => spec_eval_from(items_view(globals@), view_seq(v@), 0, ctx, fuel as nat)
                == Ok::<_, ErrV>(view_seq(out@)),
            Err(e) => spec_eval_from(items_view(globals@), view_seq(v@), 0, ctx, fuel as nat)
                == Err::<Seq<ExprV>, _>(e@),
        },
    decreases fuel as nat, 1int, esize_seq(view_seq(v@)), 1int,
{
    let ghost gv = items_view(globals@);
    let ghost sv = view_seq(v@);
    let mut out: Vec<Expr> = Vec::new();
    let mut k: usize = 0;
    while k < v.len()
        invariant
            0 <= k <= v.len(),
            gv == items_view(globals@),
            sv == view_seq(v@),
            sv.len() == v@.len(),
            match spec_eval_from(gv, sv, k as int, ctx, fuel as nat) {
                Ok(rest) => spec_eval_from(gv, sv, 0, ctx, fuel as nat) == Ok::<_, ErrV>(
                    view_seq(out@) + rest,
                ),
                Err(e) => spec_eval_from(gv, sv, 0, ctx, fuel as nat) == Err::<Seq<ExprV>, _>(e),
            },
        decreases v.len() - k,
    {
        proof {
            lemma_esize_skip(sv, k as int);
        }
        let r0 = eval(globals, &v[k], ctx, fuel);
        match r0 {
            Ok(e0) => {
                let ghost old_out = out@;
                out.push(e0);
                proof {
                    lemma_view_seq_push(old_out, e0);
                    if let Ok(rest) = spec_eval_from(gv, sv, k + 1, ctx, fuel as nat) {
                        assert(view_seq(old_out) + (seq![expr_view(e0)] + rest) =~= view_seq(out@)
                            + rest);
                    }
                }
            },
            Err(e) => {
                return Err(e);
            },
        }
        k = k + 1;
    }
    proof {
        assert(view_seq(out@) + Seq::<ExprV>::empty() =~= view_seq(out@));
    }
    Ok(out)
}

/// The unfolding loop of `eval`, as a recursion that consumes one unit of
/// fuel per unfolded definition.
fn unfold_globals(
    globals: &Vec<Item>,
    params: Vec<Expr>,
    head: Ident,
    tail: Vec<Expr>,
    ctx: usize,
    fuel: u64,
) -> (r: Result<Expr, ElabError>)
    ensures
        res_view(r) == spec_unfold(
            items_view(globals@),
            view_seq(params@),
            head,
            view_seq(tail@),
            ctx,
            fuel as nat,
        ),
    decreases fuel as nat, 0int, 0int, 0int,
{
    let ghost gv = items_view(globals@);
    proof {
        broadcast use lemma_items_view_len, lemma_items_view_index;

    }
    let i = match head {
        Ident::Global(i) => i,
        _ => {
            return Ok(Expr { arrow_params: params, head, tail });
        },
    };
    if i >= globals.len() {
        return Err(ElabError::NameNotFound);
    }
    let (pn, def_ref) = match &globals[i].def {
        None => {
            return Ok(Expr { arrow_params: params, head, tail });
        },
        Some(pd) => (pd.0, &pd.1),
    };
    if tail.len() < pn {
        return Ok(Expr { arrow_params: params, head, tail });
    }
    if fuel == 0 {
        return Err(ElabError::Resource);
    }
    // the first `pn` arguments are consumed by the definition
    let mut args: Vec<Expr> = Vec::new();
    let mut k: usize = 0;
    while k < pn
        invariant
            0 <= k <= pn,
            pn <= tail@.len(),
            args@.len() == k,
            forall|j: int| 0 <= j < k ==> expr_view(#[trigger] args@[j]) == expr_view(tail@[j]),
        decreases pn - k,
    {
        args.push(tail[k].clone());
        k = k + 1;
    }
    proof {
        assert(view_seq(args@) =~= view_seq(tail@).take(pn as int));
    }
    let res0 = match subst(def_ref, 0, 0, args.as_slice(), ctx) {
        Ok(v) => v,
        Err(e) => {
            return Err(e);
        },
    };
    let rps = match eval_params_all(globals, &res0.arrow_params, ctx, fuel - 1) {
        Ok(v) => v,
        Err(e) => {
            return Err(e);
        },
    };
    if res0.arrow_params.len() > usize::MAX - ctx {
        return Err(ElabError::Resource);
    }
    let ctx2 = ctx + res0.arrow_params.len();
    let rts = match eval_seq_all(globals, &res0.tail, ctx2, fuel - 1) {
        Ok(v) => v,
        Err(e) => {
            return Err(e);
        },
    };
    let ghost tail0 = tail@;
    let mut tail = tail;
    let rest = tail.split_off(pn);
    proof {
        assert(rest@ == tail0.subrange(pn as int, tail0.len() as int));
        assert(view_seq(rest@) =~= view_seq(tail0).skip(pn as int));
    }
    let mut node = Expr { arrow_params: params, head, tail: rest };
    let other = Expr { arrow_params: rps, head: res0.head, tail: rts };
    match node.insert(other) {
        Ok(()) => unfold_globals(globals, node.arrow_params, node.head, node.tail, ctx2, fuel - 1),
        Err(e) => Err(e),
    }
}



/// The mirror of `subst_metas`: like `spec_subst`, but the substitution
/// replaces metavariable heads.  `Meta(i, 0)` becomes the finalized value
/// of metavariable `i`, `Meta(i, 1)` its type, and a higher offset the
/// corresponding universe above its level.  Other heads are untouched.
pub open spec fn spec_subst_metas(
    base: ExprV,
    shared: usize,
    extra: usize,
    args: Seq<MetaSolutionV>,
    arg_ctx_size: usize,
) -> Result<ExprV, ErrV>
    decreases esize(base), 0int, via spec_subst_metas_dec
{
    match spec_subst_metas_params_from(base.arrow_params, 0, shared, extra, args, arg_ctx_size) {
        Err(e) => Err(e),
        Ok(ps) => {
            if extra + base.arrow_params.len() > usize::MAX {
                Err(ErrV::Resource)
            } else {
                let extra2 = (extra + base.arrow_params.len()) as usize;
                match spec_subst_metas_from(base.tail, 0, shared, extra2, args, arg_ctx_size) {
                    Err(e) => Err(e),
                    Ok(ts) => {
                        let node = ExprV { arrow_params: ps, head: Ident::Universe(0), tail: ts };
                        match base.head {
                            Ident::Meta(i, n) => {
                                if i >= args.len() {
                                    Err(ErrV::NameNotFound)
                                } else if n >= 2 {
                                    if args[i as int].level + n - 2 > usize::MAX {
                                        Err(ErrV::Resource)
                                    } else {
                                        Ok(
                                            (ExprV {
                                                head: Ident::Universe(
                                                    (args[i as int].level + n - 2) as usize,
                                                ),
                                                ..node
                                            }),
                                        )
                                    }
                                } else {
                                    let arg = if n == 0 {
                                        args[i as int].val
                                    } else {
                                        args[i as int].ty
                                    };
                                    match spec_deepen(arg, arg_ctx_size, extra2) {
                                        Err(e) => Err(e),
                                        Ok(a) => spec_insert(node, a),
                                    }
                                }
                            },
                            _ => Ok((ExprV { head: base.head, ..node })),
                        }
                    },
                }
            }
        },
    }
}

#[via_fn]
proof fn spec_subst_metas_dec(
    base: ExprV,
    shared: usize,
    extra: usize,
    args: Seq<MetaSolutionV>,
    arg_ctx_size: usize,
) {
    assert(base.arrow_params.skip(0) =~= base.arrow_params);
    assert(base.tail.skip(0) =~= base.tail);
}

pub open spec fn spec_subst_metas_params_from(
    s: Seq<ExprV>,
    k: int,
    shared: usize,
    extra: usize,
    args: Seq<MetaSolutionV>,
    arg_ctx_size: usize,
) -> Result<Seq<ExprV>, ErrV>
    decreases esize_seq(s.skip(k)), 1int, via spec_subst_metas_params_from_dec
{
    if k < 0 || k >= s.len() {
        Ok(Seq::empty())
    } else if extra + k > usize::MAX {
        Err(ErrV::Resource)
    } else {
        match spec_subst_metas(s[k], shared, (extra + k) as usize, args, arg_ctx_size) {
            Err(e) => Err(e),
            Ok(e0) => match spec_subst_metas_params_from(s, k + 1, shared, extra, args,
                arg_ctx_size) {
                Err(e) => Err(e),
                Ok(rest) => Ok(seq![e0] + rest),
            },
        }
    }
}

#[via_fn]
proof fn spec_subst_metas_params_from_dec(
    s: Seq<ExprV>,
    k: int,
    shared: usize,
    extra: usize,
    args: Seq<MetaSolutionV>,
    arg_ctx_size: usize,
) {
    if 0 <= k < s.len() {
        lemma_esize_skip(s, k);
    }
}

pub open spec fn spec_subst_metas_from(
    s: Seq<ExprV>,
    k: int,
    shared: usize,
    extra: usize,
    args: Seq<MetaSolutionV>,
    arg_ctx_size: usize,
) -> Result<Seq<ExprV>, ErrV>
    decreases esize_seq(s.skip(k)), 1int, via spec_subst_metas_from_dec
{
    if k < 0 || k >= s.len() {
        Ok(Seq::empty())
    } else {
        match spec_subst_metas(s[k], shared, extra, args, arg_ctx_size) {
            Err(e) => Err(e),
            Ok(e0) => match spec_subst_metas_from(s, k + 1, shared, extra, args, arg_ctx_size) {
                Err(e) => Err(e),
                Ok(rest) => Ok(seq![e0] + rest),
            },
        }
    }
}

#[via_fn]
proof fn spec_subst_metas_from_dec(
    s: Seq<ExprV>,
    k: int,
    shared: usize,
    extra: usize,
    args: Seq<MetaSolutionV>,
    arg_ctx_size: usize,
) {
    if 0 <= k < s.len() {
        lemma_esize_skip(s, k);
    }
}

/// Substitute finalized metavariable solutions into `base`; local
/// variables are untouched.
pub fn subst_metas(
    base: &Expr,
    shared_ctx_size: usize,
    extra_ctx_size: usize,
    args: &Vec<MetaSolution>,
    arg_ctx_size: usize,
) -> (r: Result<Expr, ElabError>)
    ensures
        res_view(r) == spec_subst_metas(
            expr_view(*base),
            shared_ctx_size,
            extra_ctx_size,
            sols_view(args@),
            arg_ctx_size,
        ),
    decreases esize(expr_view(*base)), 0int,
{
    let ghost bv = expr_view(*base);
    let ghost argsv = sols_view(args@);
    proof {
        assert(bv.arrow_params.skip(0) =~= bv.arrow_params);
        assert(bv.tail.skip(0) =~= bv.tail);
        lemma_view_seq_len(base.arrow_params@);
        lemma_view_seq_len(base.tail@);
        broadcast use lemma_sols_view_len, lemma_sols_view_index;

    }
    let mut arrow_params: Vec<Expr> = Vec::new();
    let mut extra = extra_ctx_size;
    let mut k: usize = 0;
    let ghost pv = bv.arrow_params;
    while k < base.arrow_params.len()
        invariant
            0 <= k <= base.arrow_params.len(),
            pv == view_seq(base.arrow_params@),
            pv == bv.arrow_params,
            bv == expr_view(*base),
            pv.len() == base.arrow_params@.len(),
            argsv == sols_view(args@),
            extra == extra_ctx_size + k,
            match spec_subst_metas_params_from(pv, k as int, shared_ctx_size, extra_ctx_size,
                argsv, arg_ctx_size) {
                Ok(rest) => spec_subst_metas_params_from(pv, 0, shared_ctx_size, extra_ctx_size,
                    argsv, arg_ctx_size) == Ok::<_, ErrV>(view_seq(arrow_params@) + rest),
                Err(e) => spec_subst_metas_params_from(pv, 0, shared_ctx_size, extra_ctx_size,
                    argsv, arg_ctx_size) == Err::<Seq<ExprV>, _>(e),
            },
        decreases base.arrow_params.len() - k,
    {
        proof {
            lemma_esize_skip(pv, k as int);
        }
        let r0 = subst_metas(&base.arrow_params[k], shared_ctx_size, extra, args, arg_ctx_size);
        match r0 {
            Ok(e0) => {
                let ghost old_out = arrow_params@;
                arrow_params.push(e0);
                proof {
                    lemma_view_seq_push(old_out, e0);
                    if let Ok(rest) = spec_subst_metas_params_from(pv, k + 1, shared_ctx_size,
                        extra_ctx_size, argsv, arg_ctx_size) {
                        assert(view_seq(old_out) + (seq![expr_view(e0)] + rest) =~= view_seq(
                            arrow_params@,
                        ) + rest);
                    }
                }
            },
            Err(e) => {
                proof {
                    assert(spec_subst_metas_params_from(pv, 0, shared_ctx_size, extra_ctx_size,
                        argsv, arg_ctx_size) == Err::<Seq<ExprV>, _>(e@));
                    assert(spec_subst_metas(bv, shared_ctx_size, extra_ctx_size, argsv,
                        arg_ctx_size) == Err::<ExprV, _>(e@));
                }
                return Err(e);
            },
        }
        if extra == usize::MAX {
            return Err(ElabError::Resource);
        }
        extra = extra + 1;
        k = k + 1;
    }
    proof {
        assert(view_seq(arrow_params@) + Seq::<ExprV>::empty() =~= view_seq(arrow_params@));
    }
    let mut tail: Vec<Expr> = Vec::new();
    let mut j: usize = 0;
    let ghost tv = bv.tail;
    while j < base.tail.len()
        invariant
            0 <= j <= base.tail.len(),
            tv == view_seq(base.tail@),
            tv == bv.tail,
            bv == expr_view(*base),
            tv.len() == base.tail@.len(),
            argsv == sols_view(args@),
            extra == extra_ctx_size + base.arrow_params@.len(),
            extra_ctx_size + base.arrow_params@.len() <= usize::MAX,
            pv == bv.arrow_params,
            pv.len() == base.arrow_params@.len(),
            spec_subst_metas_params_from(pv, 0, shared_ctx_size, extra_ctx_size, argsv,
                arg_ctx_size) == Ok::<_, ErrV>(view_seq(arrow_params@)),
            match spec_subst_metas_from(tv, j as int, shared_ctx_size, extra, argsv, arg_ctx_size) {
                Ok(rest) => spec_subst_metas_from(tv, 0, shared_ctx_size, extra, argsv,
                    arg_ctx_size) == Ok::<_, ErrV>(view_seq(tail@) + rest),
                Err(e) => spec_subst_metas_from(tv, 0, shared_ctx_size, extra, argsv, arg_ctx_size)
                    == Err::<Seq<ExprV>, _>(e),
            },
        decreases base.tail.len() - j,
    {
        proof {
            lemma_esize_skip(tv, j as int);
        }
        let r0 = subst_metas(&base.tail[j], shared_ctx_size, extra, args, arg_ctx_size);
        match r0 {
            Ok(e0) => {
                let ghost old_out = tail@;
                tail.push(e0);
                proof {
                    lemma_view_seq_push(old_out, e0);
                    if let Ok(rest) = spec_subst_metas_from(tv, j + 1, shared_ctx_size, extra,
                        argsv, arg_ctx_size) {
                        assert(view_seq(old_out) + (seq![expr_view(e0)] + rest) =~= view_seq(tail@)
                            + rest);
                    }
                }
            },
            Err(e) => {
                proof {
                    assert(spec_subst_metas_from(tv, 0, shared_ctx_size, extra, argsv, arg_ctx_size)
                        == Err::<Seq<ExprV>, _>(e@));
                    assert(spec_subst_metas(bv, shared_ctx_size, extra_ctx_size, argsv,
                        arg_ctx_size) == Err::<ExprV, _>(e@));
                }
                return Err(e);
            },
        }
        j = j + 1;
    }
    proof {
        assert(view_seq(tail@) + Seq::<ExprV>::empty() =~= view_seq(tail@));
    }
    let mut result = Expr { arrow_params, head: Ident::Universe(0), tail };
    match base.head {
        Ident::Meta(i, n) => {
            if i >= args.len() {
                return Err(ElabError::NameNotFound);
            }
            if n >= 2 {
                if n - 2 > usize::MAX - args[i].level {
                    return Err(ElabError::Resource);
                }
                result.head = Ident::Universe(args[i].level + (n - 2));
                Ok(result)
            } else {
                let arg0 = if n == 0 {
                    &args[i].val
                } else {
                    &args[i].ty
                };
                let arg = match deepen(arg0, arg_ctx_size, extra) {
                    Ok(a) => a,
                    Err(e) => {
                        return Err(e);
                    },
                };
                match result.insert(arg) {
                    Ok(()) => Ok(result),
                    Err(e) => Err(e),
                }
            }
        },
        h => {
            result.head = h;
            Ok(result)
        },
    }
}


/// Every node of a term has at least one unit of size.
pub broadcast proof fn lemma_esize_pos(e: ExprV)
    ensures
        #[trigger] esize(e) >= 1,
{
}

/// Canonicalization no-op law: substituting an empty argument list, with
/// the window at the context boundary, reproduces an expression
/// well-scoped at that boundary exactly.  `subst_extras_fit` is the
/// machine-limit side condition: every binder counter the traversal
/// reaches must fit in `usize`.
pub proof fn lemma_subst_identity(e: ExprV, n: usize)
    requires
        crate::term::scoped(e, n as int),
        subst_extras_fit(e, n as int),
    ensures
        spec_subst(e, n, n, Seq::empty(), n) == Ok::<_, ErrV>(e),
{
    lemma_subst_identity_gen(e, n, n);
}

/// The generalized form: the `extra` counter may differ from the window
/// boundary.
pub proof fn lemma_subst_identity_gen(e: ExprV, n: usize, x: usize)
    requires
        subst_extras_fit(e, x as int),
    ensures
        spec_subst(e, n, x, Seq::empty(), n) == Ok::<_, ErrV>(e),
    decreases esize(e), 0int,
{
    assert(e.arrow_params.skip(0) =~= e.arrow_params);
    assert(e.tail.skip(0) =~= e.tail);
    lemma_subst_identity_params(e.arrow_params, 0, n, x);
    let x2 = (x + e.arrow_params.len()) as usize;
    lemma_subst_identity_seq(e.tail, 0, n, x2);
    assert(spec_subst_params_from(e.arrow_params, 0, n, x, Seq::empty(), n) == Ok::<_, ErrV>(
        e.arrow_params.skip(0),
    ));
    assert(spec_subst_from(e.tail, 0, n, x2, Seq::empty(), n) == Ok::<_, ErrV>(e.tail.skip(0)));
    match spec_subst(e, n, x, Seq::empty(), n) {
        Ok(v) => {
            assert(v =~= e);
        },
        Err(_) => {
            assert(false);
        },
    }
}

proof fn lemma_subst_identity_params(s: Seq<ExprV>, k: int, n: usize, x: usize)
    requires
        0 <= k <= s.len(),
        subst_extras_fit_params(s, k, x as int),
    ensures
        spec_subst_params_from(s, k, n, x, Seq::empty(), n) == Ok::<_, ErrV>(s.skip(k)),
    decreases esize_seq(s.skip(k)), 1int,
{
    if k >= s.len() {
        assert(s.skip(k) =~= Seq::<ExprV>::empty());
    } else {
        lemma_esize_skip(s, k);
        lemma_esize_pos(s[k]);
        assert(subst_extras_fit_params(s, k, x as int));
        assert(subst_extras_fit(s[k], x + k) && subst_extras_fit_params(s, k + 1, x as int));
        assert(x + k + s[k].arrow_params.len() <= usize::MAX);
        lemma_subst_identity_gen(s[k], n, (x + k) as usize);
        lemma_subst_identity_params(s, k + 1, n, x);
        assert(seq![s[k]] + s.skip(k + 1) =~= s.skip(k));
    }
}

proof fn lemma_subst_identity_seq(s: Seq<ExprV>, k: int, n: usize, x: usize)
    requires
        0 <= k <= s.len(),
        subst_extras_fit_seq(s, k, x as int),
    ensures
        spec_subst_from(s, k, n, x, Seq::empty(), n) == Ok::<_, ErrV>(s.skip(k)),
    decreases esize_seq(s.skip(k)), 1int,
{
    if k >= s.len() {
        assert(s.skip(k) =~= Seq::<ExprV>::empty());
    } else {
        lemma_esize_skip(s, k);
        lemma_esize_pos(s[k]);
        assert(subst_extras_fit_seq(s, k, x as int));
        assert(subst_extras_fit(s[k], x as int) && subst_extras_fit_seq(s, k + 1, x as int));
        lemma_subst_identity_gen(s[k], n, x);
        lemma_subst_identity_seq(s, k + 1, n, x);
        assert(seq![s[k]] + s.skip(k + 1) =~= s.skip(k));
    }
}


/// Delta-evaluated form: every subterm is evaluated, every global head
/// indexes the table, and no head is a stored definition applied to
/// enough arguments to unfold.
pub open spec fn delta_normal(g: Seq<ItemV>, e: ExprV) -> bool
    decreases esize(e), 0int, via delta_normal_dec
{
    &&& delta_normal_from(g, e.arrow_params, 0)
    &&& delta_normal_from(g, e.tail, 0)
    &&& match e.head {
        Ident::Global(i) => i < g.len() && (g[i as int].def matches Some((pn, d)) ==> e.tail.len()
            < pn),
        _ => true,
    }
}

#[via_fn]
proof fn delta_normal_dec(g: Seq<ItemV>, e: ExprV) {
    assert(e.arrow_params.skip(0) =~= e.arrow_params);
    assert(e.tail.skip(0) =~= e.tail);
}

pub open spec fn delta_normal_from(g: Seq<ItemV>, s: Seq<ExprV>, k: int) -> bool
    decreases esize_seq(s.skip(k)), 1int, via delta_normal_from_dec
{
    if k < 0 || k >= s.len() {
        true
    } else {
        delta_normal(g, s[k]) && delta_normal_from(g, s, k + 1)
    }
}

#[via_fn]
proof fn delta_normal_from_dec(g: Seq<ItemV>, s: Seq<ExprV>, k: int) {
    if 0 <= k < s.len() {
        lemma_esize_skip(s, k);
    }
}

/// The context counters evaluation reaches over `e`, starting at `c`,
/// stay within `usize`; the machine-limit side condition of the
/// fixed-point law.
pub open spec fn eval_ctx_fits(e: ExprV, c: int) -> bool
    decreases esize(e), 0int, via eval_ctx_fits_dec
{
    &&& c + e.arrow_params.len() <= usize::MAX
    &&& eval_ctx_fits_params(e.arrow_params, 0, c)
    &&& eval_ctx_fits_seq(e.tail, 0, c + e.arrow_params.len())
}

#[via_fn]
proof fn eval_ctx_fits_dec(e: ExprV, c: int) {
    assert(e.arrow_params.skip(0) =~= e.arrow_params);
    assert(e.tail.skip(0) =~= e.tail);
}

pub open spec fn eval_ctx_fits_params(s: Seq<ExprV>, k: int, c: int) -> bool
    decreases esize_seq(s.skip(k)), 1int, via eval_ctx_fits_params_dec
{
    if k < 0 || k >= s.len() {
        true
    } else {
        eval_ctx_fits(s[k], c + k) && eval_ctx_fits_params(s, k + 1, c)
    }
}

#[via_fn]
proof fn eval_ctx_fits_params_dec(s: Seq<ExprV>, k: int, c: int) {
    if 0 <= k < s.len() {
        lemma_esize_skip(s, k);
    }
}

pub open spec fn eval_ctx_fits_seq(s: Seq<ExprV>, k: int, c: int) -> bool
    decreases esize_seq(s.skip(k)), 1int, via eval_ctx_fits_seq_dec
{
    if k < 0 || k >= s.len() {
        true
    } else {
        eval_ctx_fits(s[k], c) && eval_ctx_fits_seq(s, k + 1, c)
    }
}

#[via_fn]
proof fn eval_ctx_fits_seq_dec(s: Seq<ExprV>, k: int, c: int) {
    if 0 <= k < s.len() {
        lemma_esize_skip(s, k);
    }
}

/// Evaluation is the identity on delta-evaluated terms: the
/// idempotence direction of the evaluation law, for every term whose
/// context counters stay within the machine limits.
pub proof fn lemma_eval_fixed_point(g: Seq<ItemV>, e: ExprV, c: usize, fuel: nat)
    requires
        delta_normal(g, e),
        eval_ctx_fits(e, c as int),
    ensures
        spec_eval(g, e, c, fuel) == Ok::<ExprV, ErrV>(e),
    decreases esize(e), 0int,
{
    assert(e.arrow_params.skip(0) =~= e.arrow_params);
    assert(e.tail.skip(0) =~= e.tail);
    lemma_eval_fixed_point_params(g, e.arrow_params, 0, c, fuel);
    let c2 = (c + e.arrow_params.len()) as usize;
    lemma_eval_fixed_point_seq(g, e.tail, 0, c2, fuel);
    assert(spec_eval_params_from(g, e.arrow_params, 0, c, fuel) == Ok::<Seq<ExprV>, ErrV>(
        e.arrow_params.skip(0),
    ));
    assert(spec_eval_from(g, e.tail, 0, c2, fuel) == Ok::<Seq<ExprV>, ErrV>(e.tail.skip(0)));
    match e.head {
        Ident::Global(i) => {
            match spec_unfold(g, e.arrow_params, e.head, e.tail, c2, fuel) {
                Ok(v) => {
                    assert(v =~= e);
                },
                Err(_) => {
                    assert(false);
                },
            }
        },
        _ => {
            match spec_unfold(g, e.arrow_params, e.head, e.tail, c2, fuel) {
                Ok(v) => {
                    assert(v =~= e);
                },
                Err(_) => {
                    assert(false);
                },
            }
        },
    }
    match spec_eval(g, e, c, fuel) {
        Ok(v) => {
            assert(v =~= e);
        },
        Err(_) => {
            assert(false);
        },
    }
}

proof fn lemma_eval_fixed_point_params(g: Seq<ItemV>, s: Seq<ExprV>, k: int, c: usize, fuel: nat)
    requires
        0 <= k <= s.len(),
        delta_normal_from(g, s, k),
        eval_ctx_fits_params(s, k, c as int),
    ensures
        spec_eval_params_from(g, s, k, c, fuel) == Ok::<Seq<ExprV>, ErrV>(s.skip(k)),
    decreases esize_seq(s.skip(k)), 1int,
{
    if k >= s.len() {
        assert(s.skip(k) =~= Seq::<ExprV>::empty());
    } else {
        lemma_esize_skip(s, k);
        lemma_esize_pos(s[k]);
        assert(eval_ctx_fits(s[k], c + k));
        lemma_eval_fixed_point(g, s[k], (c + k) as usize, fuel);
        lemma_eval_fixed_point_params(g, s, k + 1, c, fuel);
        assert(seq![s[k]] + s.skip(k + 1) =~= s.skip(k));
    }
}

proof fn lemma_eval_fixed_point_seq(g: Seq<ItemV>, s: Seq<ExprV>, k: int, c: usize, fuel: nat)
    requires
        0 <= k <= s.len(),
        delta_normal_from(g, s, k),
        eval_ctx_fits_seq(s, k, c as int),
    ensures
        spec_eval_from(g, s, k, c, fuel) == Ok::<Seq<ExprV>, ErrV>(s.skip(k)),
    decreases esize_seq(s.skip(k)), 1int,
{
    if k >= s.len() {
        assert(s.skip(k) =~= Seq::<ExprV>::empty());
    } else {
        lemma_esize_skip(s, k);
        lemma_esize_pos(s[k]);
        lemma_eval_fixed_point(g, s[k], c, fuel);
        lemma_eval_fixed_point_seq(g, s, k + 1, c, fuel);
        assert(seq![s[k]] + s.skip(k + 1) =~= s.skip(k));
    }
}


/// Membership form of `delta_normal_from`.
pub proof fn lemma_delta_normal_from_iff(g: Seq<ItemV>, s: Seq<ExprV>, k: int)
    requires
        0 <= k <= s.len(),
    ensures
        delta_normal_from(g, s, k) <==> (forall|j: int|
            k <= j < s.len() ==> delta_normal(g, #[trigger] s[j])),
    decreases esize_seq(s.skip(k)), 1int,
{
    if k < s.len() {
        lemma_esize_skip(s, k);
        lemma_esize_pos(s[k]);
        lemma_delta_normal_from_iff(g, s, k + 1);
    }
}

/// Every successful evaluation yields a delta-evaluated term.
pub proof fn lemma_eval_delta_normal(g: Seq<ItemV>, e: ExprV, c: usize, fuel: nat)
    ensures
        spec_eval(g, e, c, fuel) matches Ok(r) ==> delta_normal(g, r),
    decreases fuel, 1int, esize(e), 0int,
{
    assert(e.arrow_params.skip(0) =~= e.arrow_params);
    assert(e.tail.skip(0) =~= e.tail);
    lemma_eval_params_delta_normal(g, e.arrow_params, 0, c, fuel);
    if let Ok(ps) = spec_eval_params_from(g, e.arrow_params, 0, c, fuel) {
        if c + e.arrow_params.len() <= usize::MAX {
            let c2 = (c + e.arrow_params.len()) as usize;
            lemma_eval_seq_delta_normal(g, e.tail, 0, c2, fuel);
            if let Ok(ts) = spec_eval_from(g, e.tail, 0, c2, fuel) {
                lemma_unfold_delta_normal(g, ps, e.head, ts, c2, fuel);
            }
        }
    }
}

proof fn lemma_eval_params_delta_normal(g: Seq<ItemV>, s: Seq<ExprV>, k: int, c: usize, fuel: nat)
    requires
        0 <= k <= s.len(),
    ensures
        spec_eval_params_from(g, s, k, c, fuel) matches Ok(rs) ==> (rs.len() == s.len() - k
            && forall|j: int| 0 <= j < rs.len() ==> delta_normal(g, #[trigger] rs[j])),
    decreases fuel, 1int, esize_seq(s.skip(k)), 1int,
{
    if k < s.len() {
        lemma_esize_skip(s, k);
        lemma_esize_pos(s[k]);
        if c + k <= usize::MAX {
            lemma_eval_delta_normal(g, s[k], (c + k) as usize, fuel);
        }
        lemma_eval_params_delta_normal(g, s, k + 1, c, fuel);
    }
}

proof fn lemma_eval_seq_delta_normal(g: Seq<ItemV>, s: Seq<ExprV>, k: int, c: usize, fuel: nat)
    requires
        0 <= k <= s.len(),
    ensures
        spec_eval_from(g, s, k, c, fuel) matches Ok(rs) ==> (rs.len() == s.len() - k && forall|
            j: int,
        | 0 <= j < rs.len() ==> delta_normal(g, #[trigger] rs[j])),
    decreases fuel, 1int, esize_seq(s.skip(k)), 1int,
{
    if k < s.len() {
        lemma_esize_skip(s, k);
        lemma_esize_pos(s[k]);
        lemma_eval_delta_normal(g, s[k], c, fuel);
        lemma_eval_seq_delta_normal(g, s, k + 1, c, fuel);
    }
}

proof fn lemma_unfold_delta_normal(
    g: Seq<ItemV>,
    ps: Seq<ExprV>,
    head: Ident,
    ts: Seq<ExprV>,
    c: usize,
    fuel: nat,
)
    requires
        forall|j: int| 0 <= j < ps.len() ==> delta_normal(g, #[trigger] ps[j]),
        forall|j: int| 0 <= j < ts.len() ==> delta_normal(g, #[trigger] ts[j]),
    ensures
        spec_unfold(g, ps, head, ts, c, fuel) matches Ok(r) ==> delta_normal(g, r),
    decreases fuel, 0int, 0int, 0int,
{
    lemma_delta_normal_from_iff(g, ps, 0);
    lemma_delta_normal_from_iff(g, ts, 0);
    match head {
        Ident::Global(i) => {
            if i < g.len() {
                match g[i as int].def {
                    None => {
                        assert(delta_normal(g, (ExprV { arrow_params: ps, head, tail: ts })))
                            by {
                            assert(ps.skip(0) =~= ps);
                            assert(ts.skip(0) =~= ts);
                        };
                    },
                    Some((pn, def)) => {
                        if ts.len() < pn {
                            assert(delta_normal(g, (ExprV { arrow_params: ps, head, tail: ts })))
                                by {
                                assert(ps.skip(0) =~= ps);
                                assert(ts.skip(0) =~= ts);
                            };
                        } else if fuel > 0 {
                            if let Ok(res) = spec_subst(def, 0, 0, ts.take(pn as int), c) {
                                lemma_eval_params_delta_normal(
                                    g,
                                    res.arrow_params,
                                    0,
                                    c,
                                    (fuel - 1) as nat,
                                );
                                if let Ok(rps) = spec_eval_params_from(
                                    g,
                                    res.arrow_params,
                                    0,
                                    c,
                                    (fuel - 1) as nat,
                                ) {
                                    if c + res.arrow_params.len() <= usize::MAX {
                                        let c2 = (c + res.arrow_params.len()) as usize;
                                        lemma_eval_seq_delta_normal(
                                            g,
                                            res.tail,
                                            0,
                                            c2,
                                            (fuel - 1) as nat,
                                        );
                                        if let Ok(rts) = spec_eval_from(
                                            g,
                                            res.tail,
                                            0,
                                            c2,
                                            (fuel - 1) as nat,
                                        ) {
                                            let node = ExprV {
                                                arrow_params: ps,
                                                head,
                                                tail: ts.skip(pn as int),
                                            };
                                            let other = ExprV {
                                                arrow_params: rps,
                                                head: res.head,
                                                tail: rts,
                                            };
                                            if let Ok(merged) = crate::term::spec_insert(
                                                node,
                                                other,
                                            ) {
                                                assert(forall|j: int|
                                                    0 <= j < merged.arrow_params.len()
                                                        ==> delta_normal(
                                                        g,
                                                        #[trigger] merged.arrow_params[j],
                                                    ));
                                                assert(forall|j: int|
                                                    0 <= j < merged.tail.len() ==> delta_normal(
                                                        g,
                                                        #[trigger] merged.tail[j],
                                                    ));
                                                lemma_unfold_delta_normal(
                                                    g,
                                                    merged.arrow_params,
                                                    merged.head,
                                                    merged.tail,
                                                    c2,
                                                    (fuel - 1) as nat,
                                                );
                                            }
                                        }
                                    }
                                }
                            }
                        }
                    },
                }
            }
        },
        _ => {
            assert(delta_normal(g, (ExprV { arrow_params: ps, head, tail: ts }))) by {
                assert(ps.skip(0) =~= ps);
                assert(ts.skip(0) =~= ts);
            };
        },
    }
}

/// Evaluation idempotence: what evaluation produces, evaluation leaves
/// unchanged, for any result whose context counters stay within the
/// machine limits.
pub proof fn lemma_eval_idempotent(
    g: Seq<ItemV>,
    e: ExprV,
    c: usize,
    fuel: nat,
    fuel2: nat,
)
    ensures
        spec_eval(g, e, c, fuel) matches Ok(r) ==> (eval_ctx_fits(r, c as int) ==> spec_eval(
            g,
            r,
            c,
            fuel2,
        ) == Ok::<ExprV, ErrV>(r)),
{
    lemma_eval_delta_normal(g, e, c, fuel);
    if let Ok(r) = spec_eval(g, e, c, fuel) {
        if eval_ctx_fits(r, c as int) {
            lemma_eval_fixed_point(g, r, c, fuel2);
        }
    }
}

} // verus!
