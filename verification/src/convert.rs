//! Conversion of the surface tree into core terms: names are resolved
//! against locals, globals, overload groups and universe literals, and
//! each `_` placeholder becomes a fresh metavariable.
use vstd::prelude::*;
use crate::ast;
use crate::term::ElabError;
use crate::term::ErrV;
use crate::term::Expr;
use crate::term::ExprV;
use crate::term::Ident;
use crate::term::expr_view;
use crate::term::lemma_view_seq_index;
use crate::term::lemma_view_seq_len;
use crate::term::lemma_view_seq_push;
use crate::term::res_view;
use crate::term::view_seq;
use crate::unify::Meta;
use crate::unify::MetaV;
use crate::unify::lemma_metas_view_len;
use crate::unify::metas_view;

verus! {

broadcast use
    vstd::group_vstd_default,
    lemma_view_seq_len,
    lemma_view_seq_index,
    lemma_metas_view_len,
    crate::ast::lemma_params_view_len,
    crate::ast::lemma_params_view_index,
    crate::ast::lemma_args_view_len,
    crate::ast::lemma_args_view_index;

/// Views of a list of names, in order.
pub open spec fn strs_view(s: Seq<String>) -> Seq<Seq<char>>
    decreases s,
{
    if s.len() == 0 {
        Seq::empty()
    } else {
        strs_view(s.drop_last()).push(s.last()@)
    }
}

pub broadcast proof fn lemma_strs_view_len(s: Seq<String>)
    ensures
        (#[trigger] strs_view(s)).len() == s.len(),
    decreases s,
{
    if s.len() > 0 {
        lemma_strs_view_len(s.drop_last());
    }
}

pub broadcast proof fn lemma_strs_view_index(s: Seq<String>, i: int)
    requires
        0 <= i < s.len(),
    ensures
        #[trigger] strs_view(s)[i] == s[i]@,
    decreases s,
{
    lemma_strs_view_len(s);
    if i < s.len() - 1 {
        lemma_strs_view_index(s.drop_last(), i);
    }
}

pub broadcast proof fn lemma_strs_view_push(s: Seq<String>, e: String)
    ensures
        #[trigger] strs_view(s.push(e)) == strs_view(s).push(e@),
{
    assert(s.push(e).drop_last() =~= s);
}

/// The mirror of `get_index`: the largest index bearing this name.
pub open spec fn spec_get_index(names: Seq<Seq<char>>, name: Seq<char>) -> Option<usize>
    decreases names,
{
    if names.len() == 0 {
        None
    } else if names.last() == name {
        Some((names.len() - 1) as usize)
    } else {
        spec_get_index(names.drop_last(), name)
    }
}

/// A found index always lies within the list.
pub proof fn lemma_get_index_bound(names: Seq<Seq<char>>, name: Seq<char>)
    ensures
        spec_get_index(names, name) matches Some(i) ==> i < names.len(),
    decreases names,
{
    if names.len() > 0 && !(names.last() == name) {
        lemma_get_index_bound(names.drop_last(), name);
    }
}

/// A reverse linear scan for the most recent binding of `name`.
pub fn get_index(names: &Vec<String>, name: &String) -> (r: Option<usize>)
    ensures
        r == spec_get_index(strs_view(names@), name@),
{
    proof {
        broadcast use lemma_strs_view_len, lemma_strs_view_index;

    }
    let mut result = names.len();
    proof {
        assert(strs_view(names@).take(result as int) =~= strs_view(names@));
    }
    while result > 0
        invariant
            0 <= result <= names@.len(),
            spec_get_index(strs_view(names@), name@) == spec_get_index(
                strs_view(names@).take(result as int),
                name@,
            ),
        decreases result,
    {
        result = result - 1;
        proof {
            broadcast use lemma_strs_view_len, lemma_strs_view_index;

            assert(strs_view(names@).take(result as int + 1).last() == strs_view(names@)[
                result as int]);
            assert(strs_view(names@).take(result as int + 1).drop_last() =~= strs_view(
                names@,
            ).take(result as int));
        }
        if names[result].eq(name) {
            return Some(result);
        }
    }
    proof {
        assert(strs_view(names@).take(0) =~= Seq::<Seq<char>>::empty());
    }
    None
}

/// The mirror of parsing a universe literal: a `U` followed by at least
/// one decimal digit whose value fits in `usize`.
pub open spec fn spec_parse_universe(name: Seq<char>) -> Option<usize> {
    if name.len() < 2 {
        None
    } else if name[0] != 'U' {
        None
    } else {
        spec_parse_digits(name, 1, 0)
    }
}

pub open spec fn spec_parse_digits(name: Seq<char>, k: int, acc: usize) -> Option<usize>
    decreases name.len() - k,
{
    if k < 0 || k >= name.len() {
        Some(acc)
    } else {
        let c = name[k] as u32;
        if c < 48 || c > 57 {
            None
        } else {
            let d = (c - 48) as usize;
            if acc > usize::MAX / 10 {
                None
            } else if d > usize::MAX - acc * 10 {
                None
            } else {
                spec_parse_digits(name, k + 1, (acc * 10 + d) as usize)
            }
        }
    }
}

/// Parse a universe literal such as `U0`.
pub fn parse_universe(name: &String) -> (r: Option<usize>)
    ensures
        r == spec_parse_universe(name@),
{
    let s = name.as_str();
    let n = s.unicode_len();
    if n < 2 {
        return None;
    }
    if s.get_char(0) != 'U' {
        return None;
    }
    let mut acc: usize = 0;
    let mut k: usize = 1;
    while k < n
        invariant
            1 <= k <= n,
            n == name@.len(),
            s@ == name@,
            spec_parse_universe(name@) == spec_parse_digits(name@, k as int, acc),
        decreases n - k,
    {
        let c = s.get_char(k) as u32;
        if c < 48 || c > 57 {
            return None;
        }
        let d = (c - 48) as usize;
        if acc > usize::MAX / 10 {
            return None;
        }
        if d > usize::MAX - acc * 10 {
            return None;
        }
        acc = acc * 10 + d;
        k = k + 1;
    }
    Some(acc)
}

/// Size of a surface model term, for the conversion's recursion.
pub open spec fn asize(e: ast::ExprV) -> nat
    decreases e, 0int,
{
    match e {
        ast::ExprV::Arrow { params, output } => 1 + asize_params(params) + asize(*output),
        ast::ExprV::Alg { head, tail } => 1 + asize_args(tail),
    }
}

pub open spec fn asize_params(s: Seq<(Option<Seq<char>>, ast::ExprV)>) -> nat
    decreases s, 1int,
{
    if s.len() == 0 {
        0
    } else {
        asize_params(s.drop_last()) + asize(s.last().1) + 1
    }
}

pub open spec fn asize_args(s: Seq<ast::ExprV>) -> nat
    decreases s, 1int,
{
    if s.len() == 0 {
        0
    } else {
        asize_args(s.drop_last()) + asize(s.last()) + 1
    }
}

/// Front decomposition of the parameter-list size.
pub proof fn lemma_asize_params_skip(s: Seq<(Option<Seq<char>>, ast::ExprV)>, k: int)
    requires
        0 <= k < s.len(),
    ensures
        asize_params(s.skip(k)) == asize(s[k].1) + 1 + asize_params(s.skip(k + 1)),
    decreases s,
{
    if k == s.len() - 1 {
        assert(s.skip(k) =~= seq![s[k]]);
        assert(s.skip(k + 1) =~= Seq::<(Option<Seq<char>>, ast::ExprV)>::empty());
        assert(s.skip(k).drop_last() =~= Seq::<(Option<Seq<char>>, ast::ExprV)>::empty());
        assert(s.skip(k).last() == s[k]);
    } else {
        let d = s.drop_last();
        lemma_asize_params_skip(d, k);
        assert(s.skip(k).drop_last() =~= d.skip(k));
        assert(s.skip(k).last() == s.last());
        assert(s.skip(k + 1).drop_last() =~= d.skip(k + 1));
        assert(s.skip(k + 1).last() == s.last());
    }
}

/// Front decomposition of the argument-list size.
pub proof fn lemma_asize_args_skip(s: Seq<ast::ExprV>, k: int)
    requires
        0 <= k < s.len(),
    ensures
        asize_args(s.skip(k)) == asize(s[k]) + 1 + asize_args(s.skip(k + 1)),
    decreases s,
{
    if k == s.len() - 1 {
        assert(s.skip(k) =~= seq![s[k]]);
        assert(s.skip(k + 1) =~= Seq::<ast::ExprV>::empty());
        assert(s.skip(k).drop_last() =~= Seq::<ast::ExprV>::empty());
        assert(s.skip(k).last() == s[k]);
    } else {
        let d = s.drop_last();
        lemma_asize_args_skip(d, k);
        assert(s.skip(k).drop_last() =~= d.skip(k));
        assert(s.skip(k).last() == s.last());
        assert(s.skip(k + 1).drop_last() =~= d.skip(k + 1));
        assert(s.skip(k + 1).last() == s.last());
    }
}

/// An unsolved metavariable record.
pub open spec fn empty_meta() -> MetaV {
    (MetaV { solution: None, dependencies: Seq::empty(), type_constraints: Seq::empty() })
}

/// The mirror of `convert_expr`.  A surface arrow contributes its
/// parameters to the telescope and merges with its converted output; a
/// surface application resolves its head against locals, then globals,
/// then overload groups, then as a `_` placeholder (a fresh
/// metavariable), then as a universe literal, and otherwise fails with
/// an unresolved name.
pub open spec fn spec_convert_expr(
    g: Seq<Seq<char>>,
    o: Seq<Seq<char>>,
    ms: Seq<MetaV>,
    loc: Seq<Seq<char>>,
    e: ast::ExprV,
) -> (Result<ExprV, ErrV>, Seq<MetaV>)
    decreases asize(e), 0int, via spec_convert_expr_dec
{
    match e {
        ast::ExprV::Arrow { params, output } => {
            match spec_convert_params(g, o, ms, loc, params, 0) {
                (Err(er), ms1) => (Err(er), ms1),
                (Ok((ps, names)), ms1) => {
                    match spec_convert_expr(g, o, ms1, loc + names, *output) {
                        (Err(er), ms2) => (Err(er), ms2),
                        (Ok(inner), ms2) => (
                            Ok(
                                (ExprV {
                                    arrow_params: ps + inner.arrow_params,
                                    head: inner.head,
                                    tail: inner.tail,
                                }),
                            ),
                            ms2,
                        ),
                    }
                },
            }
        },
        ast::ExprV::Alg { head, tail } => {
            if head == "_"@ {
                let hd = Ident::Meta(ms.len() as usize, 0);
                let ms1 = ms.push(empty_meta());
                match spec_convert_args(g, o, ms1, loc, tail, 0) {
                    (Err(er), ms2) => (Err(er), ms2),
                    (Ok(args), ms2) => (
                        Ok((ExprV { arrow_params: Seq::empty(), head: hd, tail: args })),
                        ms2,
                    ),
                }
            } else {
                let hd = if spec_get_index(loc, head) is Some {
                    Some(Ident::Local(spec_get_index(loc, head)->0))
                } else if spec_get_index(g, head) is Some {
                    Some(Ident::Global(spec_get_index(g, head)->0))
                } else if spec_get_index(o, head) is Some {
                    Some(Ident::Overload(spec_get_index(o, head)->0))
                } else {
                    match spec_parse_universe(head) {
                        Some(l) => Some(Ident::Universe(l)),
                        None => None,
                    }
                };
                match hd {
                    None => (Err(ErrV::NameNotFound), ms),
                    Some(hd) => {
                        match spec_convert_args(g, o, ms, loc, tail, 0) {
                            (Err(er), ms2) => (Err(er), ms2),
                            (Ok(args), ms2) => (
                                Ok(
                                    (ExprV {
                                        arrow_params: Seq::empty(),
                                        head: hd,
                                        tail: args,
                                    }),
                                ),
                                ms2,
                            ),
                        }
                    },
                }
            }
        },
    }
}

#[via_fn]
proof fn spec_convert_expr_dec(
    g: Seq<Seq<char>>,
    o: Seq<Seq<char>>,
    ms: Seq<MetaV>,
    loc: Seq<Seq<char>>,
    e: ast::ExprV,
) {
    match e {
        ast::ExprV::Arrow { params, output } => {
            assert(params.skip(0) =~= params);
        },
        ast::ExprV::Alg { head, tail } => {
            assert(tail.skip(0) =~= tail);
        },
    }
}

/// Convert the telescope parameters `s[k..]`, opening one local name per
/// parameter; an unnamed parameter binds the name `_`.
pub open spec fn spec_convert_params(
    g: Seq<Seq<char>>,
    o: Seq<Seq<char>>,
    ms: Seq<MetaV>,
    loc: Seq<Seq<char>>,
    s: Seq<(Option<Seq<char>>, ast::ExprV)>,
    k: int,
) -> (Result<(Seq<ExprV>, Seq<Seq<char>>), ErrV>, Seq<MetaV>)
    decreases asize_params(s.skip(k)), 1int, via spec_convert_params_dec
{
    if k < 0 || k >= s.len() {
        (Ok((Seq::empty(), Seq::empty())), ms)
    } else {
        match spec_convert_expr(g, o, ms, loc, s[k].1) {
            (Err(er), ms1) => (Err(er), ms1),
            (Ok(p0), ms1) => {
                let name = match s[k].0 {
                    Some(n) => n,
                    None => "_"@,
                };
                match spec_convert_params(g, o, ms1, loc.push(name), s, k + 1) {
                    (Err(er), ms2) => (Err(er), ms2),
                    (Ok((ps, names)), ms2) => (
                        Ok((seq![p0] + ps, seq![name] + names)),
                        ms2,
                    ),
                }
            },
        }
    }
}

#[via_fn]
proof fn spec_convert_params_dec(
    g: Seq<Seq<char>>,
    o: Seq<Seq<char>>,
    ms: Seq<MetaV>,
    loc: Seq<Seq<char>>,
    s: Seq<(Option<Seq<char>>, ast::ExprV)>,
    k: int,
) {
    if 0 <= k < s.len() {
        lemma_asize_params_skip(s, k);
    }
}

/// Convert the arguments `s[k..]`, in one fixed scope.
pub open spec fn spec_convert_args(
    g: Seq<Seq<char>>,
    o: Seq<Seq<char>>,
    ms: Seq<MetaV>,
    loc: Seq<Seq<char>>,
    s: Seq<ast::ExprV>,
    k: int,
) -> (Result<Seq<ExprV>, ErrV>, Seq<MetaV>)
    decreases asize_args(s.skip(k)), 1int, via spec_convert_args_dec
{
    if k < 0 || k >= s.len() {
        (Ok(Seq::empty()), ms)
    } else {
        match spec_convert_expr(g, o, ms, loc, s[k]) {
            (Err(er), ms1) => (Err(er), ms1),
            (Ok(a0), ms1) => {
                match spec_convert_args(g, o, ms1, loc, s, k + 1) {
                    (Err(er), ms2) => (Err(er), ms2),
                    (Ok(rest), ms2) => (Ok(seq![a0] + rest), ms2),
                }
            },
        }
    }
}

#[via_fn]
proof fn spec_convert_args_dec(
    g: Seq<Seq<char>>,
    o: Seq<Seq<char>>,
    ms: Seq<MetaV>,
    loc: Seq<Seq<char>>,
    s: Seq<ast::ExprV>,
    k: int,
) {
    if 0 <= k < s.len() {
        lemma_asize_args_skip(s, k);
    }
}

/// Convert a surface expression to a core term, resolving names and
/// creating a metavariable for each `_` placeholder.  The locals stack is
/// restored on return.
pub fn convert_expr(
    globals: &Vec<String>,
    overloads: &Vec<String>,
    metas: &mut Vec<Meta>,
    locals: &mut Vec<String>,
    expr: &ast::Expr,
) -> (r: Result<Expr, ElabError>)
    ensures
        final(locals)@ == old(locals)@,
        ({
            let (res, ms2) = spec_convert_expr(
                strs_view(globals@),
                strs_view(overloads@),
                metas_view(old(metas)@),
                strs_view(old(locals)@),
                ast::surface_view(*expr),
            );
            res_view(r) == res && metas_view(final(metas)@) == ms2
        }),
    decreases asize(ast::surface_view(*expr)), 0int,
{
    let ghost gv = strs_view(globals@);
    let ghost ov = strs_view(overloads@);
    let ghost ev = ast::surface_view(*expr);
    proof {
        broadcast use lemma_strs_view_len, lemma_strs_view_index, crate::unify::lemma_metas_view_index, ast::lemma_params_view_len, ast::lemma_params_view_index, ast::lemma_args_view_len, ast::lemma_args_view_index;

    }
    match expr {
        ast::Expr::Arrow(arrow) => {
            proof {
                assert(ast::params_view(arrow.params@).skip(0) =~= ast::params_view(
                    arrow.params@,
                ));
            }
            let base_len = locals.len();
            let ghost loc0 = strs_view(locals@);
            proof {
                assert(ast::params_view(arrow.params@).skip(0) =~= ast::params_view(
                    arrow.params@,
                ));
            }
            let mut converted: Vec<Expr> = Vec::new();
            let mut k: usize = 0;
            let ghost pv = ast::params_view(arrow.params@);
            while k < arrow.params.len()
                invariant
                    0 <= k <= arrow.params@.len(),
                    pv == ast::params_view(arrow.params@),
                    pv.len() == arrow.params@.len(),
                    gv == strs_view(globals@),
                    ov == strs_view(overloads@),
                    base_len == loc0.len(),
                    loc0 == strs_view(old(locals)@),
                    locals@.len() == base_len + k,
                    locals@.take(base_len as int) == old(locals)@,
                    strs_view(locals@).take(base_len as int) =~= loc0,
                    asize_params(pv.skip(k as int)) <= asize_params(pv),
                    ev == ast::surface_view(*expr),
                    asize(ev) > asize_params(pv),
                    match spec_convert_params(gv, ov, metas_view(metas@), strs_view(locals@), pv,
                        k as int) {
                        (Ok((ps, names)), mse) => spec_convert_params(gv, ov, metas_view(
                            old(metas)@), loc0, pv, 0) == (
                            Ok::<(Seq<ExprV>, Seq<Seq<char>>), ErrV>(
                                (
                                    view_seq(converted@) + ps,
                                    strs_view(locals@).skip(base_len as int) + names,
                                ),
                            ),
                            mse,
                        ),
                        (Err(er), mse) => spec_convert_expr(gv, ov, metas_view(old(metas)@),
                            loc0, ev) == (Err::<ExprV, _>(er), mse),
                    },
                decreases arrow.params@.len() - k,
            {
                proof {
                    broadcast use lemma_strs_view_len, lemma_strs_view_index;

                    lemma_asize_params_skip(pv, k as int);
                    assert(pv[k as int] == ast::param_view(arrow.params@[k as int]));
                }
                let r0 = convert_expr(globals, overloads, metas, locals, &arrow.params[k].1);
                let p0 = match r0 {
                    Ok(p) => p,
                    Err(e) => {
                        locals.truncate(base_len);
                        proof {
                            assert(locals@ =~= old(locals)@);
                        }
                        return Err(e);
                    },
                };
                let name = match &arrow.params[k].0 {
                    Some(n) => n.clone(),
                    None => String::from_str("_"),
                };
                let ghost locs_pre = locals@;
                let ghost conv_pre = converted@;
                locals.push(name);
                converted.push(p0);
                proof {
                    lemma_strs_view_push(locs_pre, locals@.last());
                    lemma_view_seq_push(conv_pre, converted@.last());
                    assert(locals@.take(base_len as int) =~= locs_pre.take(base_len as int));
                    assert(strs_view(locals@).take(base_len as int) =~= strs_view(locs_pre).take(
                        base_len as int,
                    ));
                    assert(strs_view(locals@).skip(base_len as int) =~= strs_view(locs_pre).skip(
                        base_len as int,
                    ).push(strs_view(locals@).last()));
                    if let (Ok((ps, names)), mse) = spec_convert_params(gv, ov, metas_view(metas@),
                        strs_view(locals@), pv, k as int + 1) {
                        assert(view_seq(conv_pre) + (seq![expr_view(converted@.last())] + ps)
                            =~= view_seq(converted@) + ps);
                        assert(strs_view(locs_pre).skip(base_len as int) + (seq![strs_view(
                            locals@,
                        ).last()] + names) =~= strs_view(locals@).skip(base_len as int) + names);
                    }
                }
                k = k + 1;
            }
            proof {
                assert(strs_view(locals@) =~= loc0 + strs_view(locals@).skip(base_len as int));
            }
            let inner = match convert_expr(globals, overloads, metas, locals, &arrow.output) {
                Ok(e) => e,
                Err(e) => {
                    locals.truncate(base_len);
                    proof {
                        assert(locals@ =~= old(locals)@);
                        assert(view_seq(converted@) + Seq::<ExprV>::empty() =~= view_seq(
                            converted@,
                        ));
                        assert(strs_view(locals@).skip(base_len as int) + Seq::<
                            Seq<char>,
                        >::empty() =~= strs_view(locals@).skip(base_len as int));
                    }
                    return Err(e);
                },
            };
            locals.truncate(base_len);
            proof {
                assert(locals@ =~= old(locals)@);
                assert(view_seq(converted@) + Seq::<ExprV>::empty() =~= view_seq(converted@));
            }
            let mut arrow_params = converted;
            let mut inner = inner;
            let ghost inner_v = expr_view(inner);
            let ghost ca = arrow_params@;
            let ghost cb = inner.arrow_params@;
            arrow_params.append(&mut inner.arrow_params);
            proof {
                crate::term::lemma_view_seq_concat(ca, cb);
                assert(view_seq(arrow_params@) == view_seq(ca) + view_seq(cb));
            }
            let result = Expr { arrow_params, head: inner.head, tail: inner.tail };
            Ok(result)
        },
        ast::Expr::Alg(alg) => {
            proof {
                assert(ast::args_view(alg.tail@).skip(0) =~= ast::args_view(alg.tail@));
            }
            let underscore = String::from_str("_");
            let head: Ident;
            if alg.head.eq(&underscore) {
                let m = crate::unify::meta(metas);
                head = match m.head {
                    Ident::Meta(i, z) => Ident::Meta(i, z),
                    _ => {
                        proof {
                            assert(false);
                        }
                        Ident::Universe(0)
                    },
                };
            } else {
                if let Some(i) = get_index(locals, &alg.head) {
                    head = Ident::Local(i);
                } else if let Some(i) = get_index(globals, &alg.head) {
                    head = Ident::Global(i);
                } else if let Some(i) = get_index(overloads, &alg.head) {
                    head = Ident::Overload(i);
                } else if let Some(l) = parse_universe(&alg.head) {
                    head = Ident::Universe(l);
                } else {
                    return Err(ElabError::NameNotFound);
                }
            }
            let mut args: Vec<Expr> = Vec::new();
            let mut k: usize = 0;
            let ghost ms_mid = metas_view(metas@);
            let ghost tv = ast::args_view(alg.tail@);
            proof {
                assert(ev == (ast::ExprV::Alg { head: alg.head@, tail: tv }));
            }
            while k < alg.tail.len()
                invariant
                    0 <= k <= alg.tail@.len(),
                    tv == ast::args_view(alg.tail@),
                    tv.len() == alg.tail@.len(),
                    gv == strs_view(globals@),
                    ov == strs_view(overloads@),
                    locals@ == old(locals)@,
                    asize_args(tv.skip(k as int)) <= asize_args(tv),
                    ev == ast::surface_view(*expr),
                    asize(ev) > asize_args(tv),
                    match spec_convert_args(gv, ov, metas_view(metas@), strs_view(locals@), tv,
                        k as int) {
                        (Ok(rest), mse) => spec_convert_expr(gv, ov, metas_view(old(metas)@),
                            strs_view(old(locals)@), ev) == (
                            Ok::<ExprV, ErrV>(
                                (ExprV {
                                    arrow_params: Seq::empty(),
                                    head: head,
                                    tail: view_seq(args@) + rest,
                                }),
                            ),
                            mse,
                        ),
                        (Err(er), mse) => spec_convert_expr(gv, ov, metas_view(old(metas)@),
                            strs_view(old(locals)@), ev) == (Err::<ExprV, _>(er), mse),
                    },
                decreases alg.tail@.len() - k,
            {
                proof {
                    broadcast use lemma_strs_view_len, lemma_strs_view_index;

                    lemma_asize_args_skip(tv, k as int);
                    assert(tv[k as int] == ast::surface_view(alg.tail@[k as int]));
                }
                let r0 = convert_expr(globals, overloads, metas, locals, &alg.tail[k]);
                match r0 {
                    Ok(a0) => {
                        let ghost args_pre = args@;
                        args.push(a0);
                        proof {
                            lemma_view_seq_push(args_pre, args@.last());
                            if let (Ok(rest), mse) = spec_convert_args(gv, ov, metas_view(metas@),
                                strs_view(locals@), tv, k as int + 1) {
                                assert(view_seq(args_pre) + (seq![expr_view(args@.last())] + rest)
                                    =~= view_seq(args@) + rest);
                            }
                        }
                    },
                    Err(e) => {
                        return Err(e);
                    },
                }
                k = k + 1;
            }
            proof {
                assert(view_seq(args@) + Seq::<ExprV>::empty() =~= view_seq(args@));
            }
            Ok(Expr { arrow_params: Vec::new(), head, tail: args })
        },
    }
}

} // verus!
