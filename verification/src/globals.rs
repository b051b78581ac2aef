//! The append-only table of checked global declarations.
//!
//! Each `Item` is produced exactly once, by checking one top-level
//! declaration, and never mutated afterward; later declarations may
//! reference earlier ones by index, never the reverse.
use vstd::prelude::*;
use crate::ast;
use crate::check;
use crate::convert;
use crate::eval;
use crate::term::ElabError;
use crate::term::ErrV;
use crate::term::Expr;
use crate::term::ExprV;
use crate::term::expr_view;
use crate::term::view_seq;
use crate::unify;
use crate::unify::Meta;
use crate::unify::MetaV;

verus! {

broadcast use vstd::group_vstd_default;

/// One checked global: its type, and its definition (parameter count and
/// body) if it has one.
pub struct Item {
    pub ty: Expr,
    pub def: Option<(usize, Expr)>,
}

/// The model of an `Item`.
pub struct ItemV {
    pub ty: ExprV,
    pub def: Option<(usize, ExprV)>,
}

/// The model of one global.
pub open spec fn item_view(it: Item) -> ItemV {
    (ItemV {
        ty: expr_view(it.ty),
        def: match it.def {
            Some((n, d)) => Some((n, expr_view(d))),
            None => None,
        },
    })
}

/// Models of the globals table, in order.
pub open spec fn items_view(s: Seq<Item>) -> Seq<ItemV>
    decreases s,
{
    if s.len() == 0 {
        Seq::empty()
    } else {
        items_view(s.drop_last()).push(item_view(s.last()))
    }
}

pub broadcast proof fn lemma_items_view_len(s: Seq<Item>)
    ensures
        (#[trigger] items_view(s)).len() == s.len(),
    decreases s,
{
    if s.len() > 0 {
        lemma_items_view_len(s.drop_last());
    }
}

pub broadcast proof fn lemma_items_view_index(s: Seq<Item>, i: int)
    requires
        0 <= i < s.len(),
    ensures
        #[trigger] items_view(s)[i] == item_view(s[i]),
    decreases s,
{
    lemma_items_view_len(s);
    if i < s.len() - 1 {
        lemma_items_view_index(s.drop_last(), i);
    }
}

pub broadcast proof fn lemma_items_view_push(s: Seq<Item>, it: Item)
    ensures
        #[trigger] items_view(s.push(it)) == items_view(s).push(item_view(it)),
{
    assert(s.push(it).drop_last() =~= s);
    assert(s.push(it).last() == it);
}


/// The fuel handed to evaluation, unification and nested elaboration by
/// the declaration driver; a resource bound, not a semantic limit.
pub const DEFAULT_FUEL: u64 = 1000000;

/// The append-only environment of checked declarations: full names,
/// checked items, and display names with their overload groups.
pub struct Globals {
    pub names: Vec<String>,
    pub defs: Vec<Item>,
    pub short_names: Vec<String>,
    pub overloads: Vec<Vec<usize>>,
}

impl Globals {
    /// The empty environment.
    pub fn new() -> (g: Globals)
        ensures
            g.names@.len() == 0,
            g.defs@.len() == 0,
            g.short_names@.len() == 0,
            g.overloads@.len() == 0,
    {
        Globals {
            names: Vec::new(),
            defs: Vec::new(),
            short_names: Vec::new(),
            overloads: Vec::new(),
        }
    }
}

/// A surface item the driver accepts: no associated subitems, an
/// annotation, and a definition unless the annotation is a postulate.
pub open spec fn item_ok(it: ast::Item) -> bool {
    &&& it.associated@.len() == 0
    &&& it.annotation is Some
    &&& (it.annotation->0.is_post || it.definition is Some)
}

/// The display name a declaration is filed under: its definition's
/// function name, or the annotation's name for a postulate.
pub open spec fn spec_short_name(fun: ast::Item) -> String {
    match fun.definition {
        Some(d) => d.fname,
        None => fun.annotation->0.name,
    }
}

/// The mirror of `type_check_function`: convert the annotation in an
/// empty scope, sort-check it, weak-evaluate it; for a definition,
/// convert the body under the declared parameter names, split the
/// evaluated annotation into the parameters' bindings and the result,
/// and check the body against that result unless the annotation is a
/// postulate; finalize the metavariables and substitute their solutions
/// into what is stored.
pub open spec fn spec_check_item(
    names: Seq<String>,
    defsv: Seq<ItemV>,
    shorts: Seq<String>,
    olsv: Seq<Seq<usize>>,
    fun: ast::Item,
    fuel: nat,
) -> Result<ItemV, ErrV> {
    let ann = fun.annotation->0;
    let (r1, ms1) = convert::spec_convert_expr(
        convert::strs_view(names),
        convert::strs_view(shorts),
        Seq::empty(),
        Seq::empty(),
        ast::surface_view(ann.typ),
    );
    match r1 {
        Err(er) => Err(er),
        Ok(ty_raw) => {
            let (r2, ms2) = check::spec_sort_check(defsv, olsv, ms1, Seq::empty(), 0, ty_raw, fuel);
            match r2 {
                Err(er) => Err(er),
                Ok((_lvl, ty_elab)) => {
                    match eval::spec_eval(defsv, ty_elab, 0, fuel) {
                        Err(er) => Err(er),
                        Ok(ty_eval) => {
                            match fun.definition {
                                None => {
                                    match unify::spec_link_solution(defsv, olsv, Seq::empty(), 0,
                                        ms2, fuel) {
                                        Err(er) => Err(er),
                                        Ok(sols) => {
                                            match eval::spec_subst_metas(ty_eval, 0, 0, sols, 0) {
                                                Err(er) => Err(er),
                                                Ok(ty_final) => Ok(
                                                    (ItemV { ty: ty_final, def: None }),
                                                ),
                                            }
                                        },
                                    }
                                },
                                Some(d) => spec_check_definition(
                                    names,
                                    defsv,
                                    olsv,
                                    shorts,
                                    ann.is_post,
                                    d,
                                    ms2,
                                    ty_eval,
                                    fuel,
                                ),
                            }
                        },
                    }
                },
            }
        },
    }
}

/// The definition half of `spec_check_item`.
pub open spec fn spec_check_definition(
    names: Seq<String>,
    defsv: Seq<ItemV>,
    olsv: Seq<Seq<usize>>,
    shorts: Seq<String>,
    is_post: bool,
    d: ast::Function,
    ms: Seq<MetaV>,
    ty_eval: ExprV,
    fuel: nat,
) -> Result<ItemV, ErrV> {
    let pn = d.vars@.len() as int;
    let (r3, ms3) = convert::spec_convert_expr(
        convert::strs_view(names),
        convert::strs_view(shorts),
        ms,
        convert::strs_view(d.vars@),
        ast::surface_view(d.body),
    );
    match r3 {
        Err(er) => Err(er),
        Ok(def_raw) => {
            let checked = if !is_post {
                if pn > ty_eval.arrow_params.len() {
                    Err((ErrV::ArityMismatch, ms3))
                } else {
                    let bindings = ty_eval.arrow_params.take(pn);
                    let goal = ExprV {
                        arrow_params: ty_eval.arrow_params.skip(pn),
                        head: ty_eval.head,
                        tail: ty_eval.tail,
                    };
                    let (r4, ms4) = check::spec_elab(
                        defsv,
                        olsv,
                        ms3,
                        bindings,
                        d.vars@.len() as usize,
                        def_raw,
                        Some(goal),
                        fuel,
                    );
                    match r4 {
                        Err(er) => Err((er, ms4)),
                        Ok((_dty, def_checked)) => Ok((def_checked, ms4)),
                    }
                }
            } else {
                Ok((def_raw, ms3))
            };
            match checked {
                Err((er, _msx)) => Err(er),
                Ok((def_elab, ms5)) => {
                    match unify::spec_link_solution(defsv, olsv, Seq::empty(), 0, ms5, fuel) {
                        Err(er) => Err(er),
                        Ok(sols) => {
                            match eval::spec_subst_metas(ty_eval, 0, 0, sols, 0) {
                                Err(er) => Err(er),
                                Ok(ty_final) => {
                                    match eval::spec_subst_metas(def_elab, 0, 0, sols, 0) {
                                        Err(er) => Err(er),
                                        Ok(def_final) => Ok(
                                            (ItemV {
                                                ty: ty_final,
                                                def: Some((d.vars@.len() as usize, def_final)),
                                            }),
                                        ),
                                    }
                                },
                            }
                        },
                    }
                },
            }
        },
    }
}

/// Check one top-level declaration against the environment: convert and
/// sort-check its annotation, weak-evaluate it, convert and check its
/// definition against the annotation with the declared parameters bound,
/// finalize the metavariables, and substitute their solutions into what
/// is stored.  Returns the full name, the display name and the checked
/// item.  The exact behaviour of every step is given by the contracts of
/// the conversion, checking, unification and substitution functions this
/// calls; this driver's own contract covers the shape of the outcome.
#[verifier::rlimit(100)]
pub fn type_check_function(globals: &Globals, fun: &ast::Item, fuel: u64) -> (r: Result<
    (String, String, Item),
    ElabError,
>)
    requires
        item_ok(*fun),
    ensures
        match spec_check_item(
            globals.names@,
            items_view(globals.defs@),
            globals.short_names@,
            check::ols_view(globals.overloads@),
            *fun,
            fuel as nat,
        ) {
            Ok(itv) => r matches Ok(t) && item_view(t.2) == itv && t.0 == fun.annotation->0.name
                && t.1 == spec_short_name(*fun),
            Err(er) => r matches Err(e) && e@ == er,
        },
{
    let ghost defsv = items_view(globals.defs@);
    let ghost olsv = check::ols_view(globals.overloads@);
    let annotation = match &fun.annotation {
        Some(a) => a,
        None => {
            proof {
                assert(false);
            }
            return Err(ElabError::NameNotFound);
        },
    };
    let mut metas: Vec<Meta> = Vec::new();
    let mut name_scope: Vec<String> = Vec::new();
    proof {
        assert(crate::unify::metas_view(metas@) =~= Seq::<MetaV>::empty());
        assert(convert::strs_view(name_scope@) =~= Seq::<Seq<char>>::empty());
    }
    let ty_raw = match convert::convert_expr(
        &globals.names,
        &globals.short_names,
        &mut metas,
        &mut name_scope,
        &annotation.typ,
    ) {
        Ok(e) => e,
        Err(e) => {
            return Err(e);
        },
    };
    let mut locals: Vec<Expr> = Vec::new();
    proof {
        assert(view_seq(locals@) =~= Seq::<ExprV>::empty());
    }
    let (_lvl, ty_elab) = match check::sort_check_expr(
        &globals.defs,
        &globals.overloads,
        &mut metas,
        &mut locals,
        &ty_raw,
        fuel,
    ) {
        Ok(p) => p,
        Err(e) => {
            return Err(e);
        },
    };
    let ty_eval = match eval::eval(&globals.defs, &ty_elab, 0, fuel) {
        Ok(e) => e,
        Err(e) => {
            return Err(e);
        },
    };
    match &fun.definition {
        None => {
            let mut link_locals: Vec<Expr> = Vec::new();
            proof {
                assert(view_seq(link_locals@) =~= Seq::<ExprV>::empty());
            }
            let sols = match unify::link_solution(
                &globals.defs,
                &globals.overloads,
                &mut link_locals,
                &metas,
                fuel,
            ) {
                Ok(v) => v,
                Err(e) => {
                    return Err(e);
                },
            };
            let ty_final = match eval::subst_metas(&ty_eval, 0, 0, &sols, 0) {
                Ok(e) => e,
                Err(e) => {
                    return Err(e);
                },
            };
            Ok((annotation.name.clone(), annotation.name.clone(), Item { ty: ty_final, def: None }))
        },
        Some(definition) => {
            let item = match check_definition(
                globals,
                annotation.is_post,
                definition,
                &mut metas,
                &ty_eval,
                fuel,
            ) {
                Ok(it) => it,
                Err(e) => {
                    return Err(e);
                },
            };
            Ok((annotation.name.clone(), definition.fname.clone(), item))
        },
    }
}

/// Convert, check and finalize one definition against its evaluated
/// annotation; see `spec_check_definition`.
#[verifier::rlimit(100)]
fn check_definition(
    globals: &Globals,
    is_post: bool,
    definition: &ast::Function,
    metas: &mut Vec<Meta>,
    ty_eval: &Expr,
    fuel: u64,
) -> (r: Result<Item, ElabError>)
    ensures
        match spec_check_definition(
            globals.names@,
            items_view(globals.defs@),
            check::ols_view(globals.overloads@),
            globals.short_names@,
            is_post,
            *definition,
            crate::unify::metas_view(old(metas)@),
            expr_view(*ty_eval),
            fuel as nat,
        ) {
            Ok(itv) => r matches Ok(t) && item_view(t) == itv,
            Err(er) => r matches Err(e) && e@ == er,
        },
{
    let ghost tv = expr_view(*ty_eval);
    let param_num = definition.vars.len();
    let mut var_scope: Vec<String> = Vec::new();
    let mut vi: usize = 0;
    while vi < definition.vars.len()
        invariant
            0 <= vi <= definition.vars@.len(),
            var_scope@.len() == vi,
            forall|k: int| 0 <= k < vi ==> #[trigger] var_scope@[k] == definition.vars@[k],
        decreases definition.vars@.len() - vi,
    {
        var_scope.push(definition.vars[vi].clone());
        vi = vi + 1;
    }
    proof {
        assert(var_scope@ =~= definition.vars@);
    }
    let def_raw = match convert::convert_expr(
        &globals.names,
        &globals.short_names,
        metas,
        &mut var_scope,
        &definition.body,
    ) {
        Ok(e) => e,
        Err(e) => {
            return Err(e);
        },
    };
    let mut def_elab = def_raw;
    if !is_post {
        proof {
            crate::term::lemma_view_seq_len(ty_eval.arrow_params@);
        }
        if param_num > ty_eval.arrow_params.len() {
            return Err(ElabError::ArityMismatch);
        }
        let cloned = ty_eval.clone();
        let Expr { arrow_params, head, tail } = cloned;
        let mut bindings = arrow_params;
        let ghost cp = bindings@;
        proof {
            crate::term::lemma_view_seq_len(cp);
            assert(view_seq(cp) == tv.arrow_params);
        }
        let rest = bindings.split_off(param_num);
        proof {
            broadcast use crate::term::lemma_view_seq_len, crate::term::lemma_view_seq_index;

            assert forall|j: int| 0 <= j < bindings@.len() implies view_seq(bindings@)[j]
                == tv.arrow_params.take(param_num as int)[j] by {
                assert(bindings@[j] == cp[j]);
            }
            assert(view_seq(bindings@) =~= tv.arrow_params.take(param_num as int));
            assert forall|j: int| 0 <= j < rest@.len() implies view_seq(rest@)[j]
                == tv.arrow_params.skip(param_num as int)[j] by {
                assert(rest@[j] == cp[param_num + j]);
            }
            assert(view_seq(rest@) =~= tv.arrow_params.skip(param_num as int));
        }
        let goal = Expr { arrow_params: rest, head, tail };
        proof {
            assert(expr_view(goal) == (ExprV {
                arrow_params: tv.arrow_params.skip(param_num as int),
                head: tv.head,
                tail: tv.tail,
            }));
        }
        let mut locals2 = bindings;
        let (_dty, checked) = match check::type_check_expr(
            &globals.defs,
            &globals.overloads,
            metas,
            &mut locals2,
            &def_elab,
            Some(&goal),
            fuel,
        ) {
            Ok(p) => p,
            Err(e) => {
                return Err(e);
            },
        };
        def_elab = checked;
    }
    let mut link_locals: Vec<Expr> = Vec::new();
    proof {
        assert(view_seq(link_locals@) =~= Seq::<ExprV>::empty());
    }
    let sols = match unify::link_solution(
        &globals.defs,
        &globals.overloads,
        &mut link_locals,
        metas,
        fuel,
    ) {
        Ok(v) => v,
        Err(e) => {
            return Err(e);
        },
    };
    let ty_final = match eval::subst_metas(ty_eval, 0, 0, &sols, 0) {
        Ok(e) => e,
        Err(e) => {
            return Err(e);
        },
    };
    let def_final = match eval::subst_metas(&def_elab, 0, 0, &sols, 0) {
        Ok(e) => e,
        Err(e) => {
            return Err(e);
        },
    };
    Ok(Item { ty: ty_final, def: Some((param_num, def_final)) })
}

/// The mirror of `type_check_all`: fold the declarations over the four
/// tables.  Each success appends the full name and the checked item, and
/// files the new index into the overload group of its display name — or
/// opens a fresh singleton group; the first failure is final.
pub open spec fn spec_drive(
    programs: Seq<ast::Item>,
    k: int,
    ns: Seq<String>,
    ds: Seq<ItemV>,
    ss: Seq<String>,
    os: Seq<Seq<usize>>,
    fuel: nat,
) -> Result<(Seq<String>, Seq<ItemV>, Seq<String>, Seq<Seq<usize>>), ErrV>
    decreases programs.len() - k,
{
    if k < 0 || k >= programs.len() {
        Ok((ns, ds, ss, os))
    } else {
        let fun = programs[k];
        match spec_check_item(ns, ds, ss, os, fun, fuel) {
            Err(er) => Err(er),
            Ok(itv) => {
                let idx = ns.len() as usize;
                let short = spec_short_name(fun);
                let ns1 = ns.push(fun.annotation->0.name);
                let ds1 = ds.push(itv);
                let grouped = match convert::spec_get_index(convert::strs_view(ss), short@) {
                    Some(i) => (ss, os.update(i as int, os[i as int].push(idx))),
                    None => (ss.push(short), os.push(seq![idx])),
                };
                spec_drive(programs, k + 1, ns1, ds1, grouped.0, grouped.1, fuel)
            },
        }
    }
}

/// A successful run only appends: the new tables extend the old ones by
/// exactly one entry per declaration, in input order.
pub proof fn lemma_drive_appends(
    programs: Seq<ast::Item>,
    k: int,
    ns: Seq<String>,
    ds: Seq<ItemV>,
    ss: Seq<String>,
    os: Seq<Seq<usize>>,
    fuel: nat,
)
    requires
        0 <= k <= programs.len(),
    ensures
        spec_drive(programs, k, ns, ds, ss, os, fuel) matches Ok(t) ==> ({
            &&& t.0.len() == ns.len() + (programs.len() - k)
            &&& t.1.len() == ds.len() + (programs.len() - k)
            &&& t.0.take(ns.len() as int) == ns
            &&& t.1.take(ds.len() as int) == ds
        }),
    decreases programs.len() - k,
{
    if k < programs.len() {
        let fun = programs[k];
        if let Ok(itv) = spec_check_item(ns, ds, ss, os, fun, fuel) {
            let short = spec_short_name(fun);
            let ns1 = ns.push(fun.annotation->0.name);
            let ds1 = ds.push(itv);
            let grouped = match convert::spec_get_index(convert::strs_view(ss), short@) {
                Some(i) => (ss, os.update(i as int, os[i as int].push(ns.len() as usize))),
                None => (ss.push(short), os.push(seq![ns.len() as usize])),
            };
            lemma_drive_appends(programs, k + 1, ns1, ds1, grouped.0, grouped.1, fuel);
            if let Ok(t) = spec_drive(programs, k, ns, ds, ss, os, fuel) {
                assert(t.0.take(ns1.len() as int).take(ns.len() as int) =~= t.0.take(
                    ns.len() as int,
                ));
                assert(ns1.take(ns.len() as int) =~= ns);
                assert(t.1.take(ds1.len() as int).take(ds.len() as int) =~= t.1.take(
                    ds.len() as int,
                ));
                assert(ds1.take(ds.len() as int) =~= ds);
            }
        }
    }
}

/// Check every declaration in order against the growing environment,
/// stopping at the first failure.  On success the four tables are
/// exactly the fold of `spec_drive` over the input: each item checked
/// against the globals built from those before it, appended in order,
/// and its display name filed into its overload group.
#[verifier::rlimit(100)]
pub fn type_check_all(globals: &mut Globals, programs: Vec<ast::Item>) -> (r: Result<
    (),
    ElabError,
>)
    requires
        forall|j: int| 0 <= j < programs@.len() ==> item_ok(#[trigger] programs@[j]),
        old(globals).short_names@.len() == old(globals).overloads@.len(),
    ensures
        final(globals).short_names@.len() == final(globals).overloads@.len(),
        match spec_drive(
            programs@,
            0,
            old(globals).names@,
            items_view(old(globals).defs@),
            old(globals).short_names@,
            check::ols_view(old(globals).overloads@),
            DEFAULT_FUEL as nat,
        ) {
            Ok(t) => ({
                &&& r is Ok
                &&& final(globals).names@ == t.0
                &&& items_view(final(globals).defs@) == t.1
                &&& final(globals).short_names@ == t.2
                &&& check::ols_view(final(globals).overloads@) == t.3
            }),
            Err(er) => r matches Err(e) && e@ == er,
        },
        r is Ok ==> ({
            &&& final(globals).names@.len() == old(globals).names@.len() + programs@.len()
            &&& final(globals).defs@.len() == old(globals).defs@.len() + programs@.len()
            &&& final(globals).names@.take(old(globals).names@.len() as int) == old(
                globals,
            ).names@
            &&& items_view(final(globals).defs@).take(old(globals).defs@.len() as int)
                == items_view(old(globals).defs@)
        }),
{
    let ghost ns0 = old(globals).names@;
    let ghost ds0 = items_view(old(globals).defs@);
    let ghost ss0 = old(globals).short_names@;
    let ghost os0 = check::ols_view(old(globals).overloads@);
    proof {
        broadcast use lemma_items_view_len;

    }
    let n = programs.len();
    let mut idx: usize = 0;
    while idx < n
        invariant
            0 <= idx <= n,
            n == programs@.len(),
            forall|j: int| 0 <= j < programs@.len() ==> item_ok(#[trigger] programs@[j]),
            globals.short_names@.len() == globals.overloads@.len(),
            ns0 == old(globals).names@,
            ds0 == items_view(old(globals).defs@),
            ss0 == old(globals).short_names@,
            os0 == check::ols_view(old(globals).overloads@),
            match spec_drive(programs@, idx as int, globals.names@, items_view(globals.defs@),
                globals.short_names@, check::ols_view(globals.overloads@), DEFAULT_FUEL as nat) {
                Ok(t) => spec_drive(programs@, 0, ns0, ds0, ss0, os0, DEFAULT_FUEL as nat) == Ok::<
                    (Seq<String>, Seq<ItemV>, Seq<String>, Seq<Seq<usize>>),
                    ErrV,
                >(t),
                Err(er) => spec_drive(programs@, 0, ns0, ds0, ss0, os0, DEFAULT_FUEL as nat)
                    == Err::<(Seq<String>, Seq<ItemV>, Seq<String>, Seq<Seq<usize>>), _>(er),
            },
        decreases n - idx,
    {
        let item = &programs[idx];
        let (name, short_name, checked) = match type_check_function(globals, item, DEFAULT_FUEL) {
            Ok(t) => t,
            Err(e) => {
                return Err(e);
            },
        };
        record_item(globals, name, short_name, checked);
        idx = idx + 1;
    }
    proof {
        lemma_drive_appends(programs@, 0, ns0, ds0, ss0, os0, DEFAULT_FUEL as nat);
        broadcast use lemma_items_view_len;

    }
    Ok(())
}


/// Append one checked declaration to the tables: the full name, the
/// item, and the new index filed into the overload group of its display
/// name (or a fresh singleton group).
fn record_item(globals: &mut Globals, name: String, short_name: String, checked: Item)
    requires
        old(globals).short_names@.len() == old(globals).overloads@.len(),
    ensures
        final(globals).names@ == old(globals).names@.push(name),
        items_view(final(globals).defs@) == items_view(old(globals).defs@).push(
            item_view(checked),
        ),
        final(globals).short_names@.len() == final(globals).overloads@.len(),
        ({
            let idx = old(globals).names@.len() as usize;
            match convert::spec_get_index(
                convert::strs_view(old(globals).short_names@),
                short_name@,
            ) {
                Some(i) => final(globals).short_names@ == old(globals).short_names@
                    && check::ols_view(final(globals).overloads@) == check::ols_view(
                    old(globals).overloads@,
                ).update(
                    i as int,
                    check::ols_view(old(globals).overloads@)[i as int].push(idx),
                ),
                None => final(globals).short_names@ == old(globals).short_names@.push(short_name)
                    && check::ols_view(final(globals).overloads@) == check::ols_view(
                    old(globals).overloads@,
                ).push(seq![idx]),
            }
        }),
{
    proof {
        broadcast use lemma_items_view_len, check::lemma_ols_view_len, check::lemma_ols_view_index;

    }
    let index = globals.names.len();
    let ghost ols_pre = globals.overloads@;
    globals.names.push(name);
    match convert::get_index(&globals.short_names, &short_name) {
        Some(i) => {
            proof {
                crate::convert::lemma_get_index_bound(
                    crate::convert::strs_view(globals.short_names@),
                    short_name@,
                );
                crate::convert::lemma_strs_view_len(globals.short_names@);
            }
            let mut grp = globals.overloads.remove(i);
            grp.push(index);
            globals.overloads.insert(i, grp);
            proof {
                assert(globals.overloads@ =~= ols_pre.update(
                    i as int,
                    globals.overloads@[i as int],
                ));
                check::lemma_ols_view_update(ols_pre, i as int, globals.overloads@[i as int]);
                check::lemma_ols_view_index(ols_pre, i as int);
                assert(globals.overloads@[i as int]@ =~= check::ols_view(ols_pre)[i as int].push(
                    index,
                ));
                assert(check::ols_view(globals.overloads@) =~= check::ols_view(ols_pre).update(
                    i as int,
                    check::ols_view(ols_pre)[i as int].push(index),
                ));
            }
        },
        None => {
            globals.short_names.push(short_name);
            let mut grp: Vec<usize> = Vec::new();
            grp.push(index);
            let ghost grp_v = grp@;
            globals.overloads.push(grp);
            proof {
                check::lemma_ols_view_push(ols_pre, globals.overloads@.last());
                assert(grp_v =~= seq![index]);
            }
        },
    }
    let ghost defs_pre = globals.defs@;
    globals.defs.push(checked);
    proof {
        lemma_items_view_push(defs_pre, globals.defs@.last());
    }
}

} // verus!
