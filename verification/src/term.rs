//! The core term representation: an `Expr` is a (possibly dependent)
//! parameter telescope followed by a head identifier applied to arguments.
//! Local variables are numbered by absolute position in the typing context
//! (indices continue from the enclosing context's size as binders open).
//!
//! `ExprV` is the mathematical model of `Expr` used throughout the
//! contracts: the same tree with `Seq` in place of `Vec`.
use vstd::prelude::*;

verus! {

broadcast use vstd::group_vstd_default;

/// A head identifier.
#[derive(Clone, Copy, PartialEq, Eq, Structural, Debug)]
pub enum Ident {
    /// A universe; `Universe(l)` is classified by `Universe(l+1)`.
    Universe(usize),
    /// A reference to a global definition by index.
    Global(usize),
    /// A transient reference to an overload group, resolved by elaboration.
    Overload(usize),
    /// A local variable, numbered by absolute position in the context.
    Local(usize),
    /// `Meta(id, n)` is the n-fold type of metavariable `id`.
    Meta(usize, usize),
}

/// A term or type: a telescope of parameter types, then a head applied to
/// a tail of arguments.  A non-empty `arrow_params` telescope denotes a
/// (possibly dependent) function type.
#[derive(PartialEq, Eq, Debug)]
#[verifier::ext_equal]
pub struct Expr {
    pub arrow_params: Vec<Expr>,
    pub head: Ident,
    pub tail: Vec<Expr>,
}

/// The mathematical model of an `Expr`.
#[verifier::ext_equal]
pub struct ExprV {
    pub arrow_params: Seq<ExprV>,
    pub head: Ident,
    pub tail: Seq<ExprV>,
}

/// Models of a sequence of subterms, in order.
pub open spec fn view_seq(s: Seq<Expr>) -> Seq<ExprV>
    decreases s, 1int,
{
    if s.len() == 0 {
        Seq::empty()
    } else {
        view_seq(s.drop_last()).push(expr_view(s.last()))
    }
}

/// The model of an expression.
pub open spec fn expr_view(e: Expr) -> ExprV
    decreases e, 0int,
{
    (ExprV {
        arrow_params: view_seq(e.arrow_params@),
        head: e.head,
        tail: view_seq(e.tail@),
    })
}

pub broadcast proof fn lemma_view_seq_len(s: Seq<Expr>)
    ensures
        (#[trigger] view_seq(s)).len() == s.len(),
    decreases s,
{
    if s.len() > 0 {
        lemma_view_seq_len(s.drop_last());
    }
}

pub broadcast proof fn lemma_view_seq_index(s: Seq<Expr>, i: int)
    requires
        0 <= i < s.len(),
    ensures
        #[trigger] view_seq(s)[i] == expr_view(s[i]),
    decreases s,
{
    lemma_view_seq_len(s);
    if i == s.len() - 1 {
    } else {
        lemma_view_seq_index(s.drop_last(), i);
    }
}

pub broadcast proof fn lemma_view_seq_push(s: Seq<Expr>, e: Expr)
    ensures
        #[trigger] view_seq(s.push(e)) == view_seq(s).push(expr_view(e)),
{
    assert(s.push(e).drop_last() =~= s);
    assert(s.push(e).last() == e);
}

/// Number of nodes of a model term; a measure for recursion that is not
/// structural on one argument.
pub open spec fn esize(e: ExprV) -> nat
    decreases e, 0int,
{
    1 + esize_seq(e.arrow_params) + esize_seq(e.tail)
}

pub open spec fn esize_seq(s: Seq<ExprV>) -> nat
    decreases s, 1int,
{
    if s.len() == 0 {
        0
    } else {
        esize_seq(s.drop_last()) + esize(s.last())
    }
}

pub broadcast proof fn lemma_esize_seq_element(s: Seq<ExprV>, i: int)
    requires
        0 <= i < s.len(),
    ensures
        #[trigger] esize(s[i]) <= esize_seq(s),
    decreases s,
{
    if i < s.len() - 1 {
        lemma_esize_seq_element(s.drop_last(), i);
    }
}

/// Well-scopedness at context size `n`: every local index is below the
/// size of the context at its position.  Each parameter of a telescope
/// opens one more variable for what follows it.
pub open spec fn scoped(e: ExprV, n: int) -> bool
    decreases e, 0int,
{
    &&& scoped_params(e.arrow_params, n)
    &&& scoped_head(e.head, n + e.arrow_params.len())
    &&& scoped_seq(e.tail, n + e.arrow_params.len())
}

pub open spec fn scoped_head(h: Ident, n: int) -> bool {
    h matches Ident::Local(i) ==> i < n
}

/// Parameters of a telescope: the k-th is scoped at `n + k`.
pub open spec fn scoped_params(s: Seq<ExprV>, n: int) -> bool
    decreases s, 1int,
{
    if s.len() == 0 {
        true
    } else {
        scoped_params(s.drop_last(), n) && scoped(s.last(), n + s.len() - 1)
    }
}

/// Sibling subterms all scoped at the same size `n`.
pub open spec fn scoped_seq(s: Seq<ExprV>, n: int) -> bool
    decreases s, 1int,
{
    if s.len() == 0 {
        true
    } else {
        scoped_seq(s.drop_last(), n) && scoped(s.last(), n)
    }
}

/// No metavariable occurs anywhere in the term.
pub open spec fn meta_free(e: ExprV) -> bool
    decreases e, 0int,
{
    &&& meta_free_seq(e.arrow_params)
    &&& !(e.head is Meta)
    &&& meta_free_seq(e.tail)
}

pub open spec fn meta_free_seq(s: Seq<ExprV>) -> bool
    decreases s, 1int,
{
    if s.len() == 0 {
        true
    } else {
        meta_free_seq(s.drop_last()) && meta_free(s.last())
    }
}

/// Metavariable `m` occurs (at any type offset) somewhere in the term.
pub open spec fn has_meta(e: ExprV, m: int) -> bool
    decreases e, 0int,
{
    ||| has_meta_seq(e.arrow_params, m)
    ||| (e.head matches Ident::Meta(i, n) && i == m)
    ||| has_meta_seq(e.tail, m)
}

pub open spec fn has_meta_seq(s: Seq<ExprV>, m: int) -> bool
    decreases s, 1int,
{
    if s.len() == 0 {
        false
    } else {
        has_meta_seq(s.drop_last(), m) || has_meta(s.last(), m)
    }
}

/// Every metavariable identifier in the term is below `n` (so it indexes
/// into a table of `n` metavariables).
pub open spec fn metas_lt(e: ExprV, n: int) -> bool
    decreases e, 0int,
{
    &&& metas_lt_seq(e.arrow_params, n)
    &&& (e.head matches Ident::Meta(i, off) ==> i < n)
    &&& metas_lt_seq(e.tail, n)
}

pub open spec fn metas_lt_seq(s: Seq<ExprV>, n: int) -> bool
    decreases s, 1int,
{
    if s.len() == 0 {
        true
    } else {
        metas_lt_seq(s.drop_last(), n) && metas_lt(s.last(), n)
    }
}

/// Elaboration failures, as reported to the caller.  `Resource` guards the
/// machine limits of the implementation: an index or level that would not
/// fit in `usize`, or an evaluation/unification depth beyond the supplied
/// fuel.
#[derive(PartialEq, Eq, Debug)]
pub enum ElabError {
    /// An identifier resolved against neither locals, globals, overload
    /// groups nor a universe literal.
    NameNotFound,
    /// Too many declared parameters, or an application of a non-function.
    ArityMismatch,
    /// A checked expression's type failed to unify with the expected one.
    TypeMismatch { expected: Expr, actual: Expr },
    /// An arrow expression's result must be an element of a universe.
    NotAUniverse,
    /// A structural clash or an occurs-check cycle during unification.
    UnificationFailure,
    /// No candidate, or more than one candidate, of an overload group fits.
    OverloadFailure,
    /// A machine limit was reached.
    Resource,
}

/// The mathematical model of an `ElabError`.
pub enum ErrV {
    NameNotFound,
    ArityMismatch,
    TypeMismatch { expected: ExprV, actual: ExprV },
    NotAUniverse,
    UnificationFailure,
    OverloadFailure,
    Resource,
}

impl View for ElabError {
    type V = ErrV;

    open spec fn view(&self) -> ErrV {
        match self {
            ElabError::NameNotFound => ErrV::NameNotFound,
            ElabError::ArityMismatch => ErrV::ArityMismatch,
            ElabError::TypeMismatch { expected, actual } => (ErrV::TypeMismatch {
                expected: expr_view(*expected),
                actual: expr_view(*actual),
            }),
            ElabError::NotAUniverse => ErrV::NotAUniverse,
            ElabError::UnificationFailure => ErrV::UnificationFailure,
            ElabError::OverloadFailure => ErrV::OverloadFailure,
            ElabError::Resource => ErrV::Resource,
        }
    }
}

/// The model of an elaboration outcome.
pub open spec fn res_view(r: Result<Expr, ElabError>) -> Result<ExprV, ErrV> {
    match r {
        Ok(e) => Ok(expr_view(e)),
        Err(e) => Err(e@),
    }
}

impl Clone for Expr {
    /// A deep copy; the copy has the same model.
    fn clone(&self) -> (r: Expr)
        ensures
            expr_view(r) == expr_view(*self),
        decreases *self,
    {
        let mut arrow_params: Vec<Expr> = Vec::new();
        let mut i: usize = 0;
        while i < self.arrow_params.len()
            invariant
                0 <= i <= self.arrow_params.len(),
                arrow_params@.len() == i,
                forall|k: int|
                    0 <= k < i ==> expr_view(#[trigger] arrow_params@[k]) == expr_view(self.arrow_params@[k]),
            decreases self.arrow_params.len() - i,
        {
            arrow_params.push(self.arrow_params[i].clone());
            i = i + 1;
        }
        let mut tail: Vec<Expr> = Vec::new();
        let mut j: usize = 0;
        while j < self.tail.len()
            invariant
                0 <= j <= self.tail.len(),
                tail@.len() == j,
                forall|k: int| 0 <= k < j ==> expr_view(#[trigger] tail@[k]) == expr_view(self.tail@[k]),
            decreases self.tail.len() - j,
        {
            tail.push(self.tail[j].clone());
            j = j + 1;
        }
        let r = Expr { arrow_params, head: self.head, tail };
        proof {
            broadcast use lemma_view_seq_len, lemma_view_seq_index;

            assert(view_seq(r.arrow_params@) =~= view_seq(self.arrow_params@));
            assert(view_seq(r.tail@) =~= view_seq(self.tail@));
        }
        r
    }
}

/// The model of `Expr::universe_level`: `Some(l)` exactly for a bare
/// universe head.
pub open spec fn spec_universe_level(e: ExprV) -> Option<usize> {
    if e.arrow_params.len() > 0 || e.tail.len() > 0 {
        None
    } else {
        match e.head {
            Ident::Universe(l) => Some(l),
            _ => None,
        }
    }
}

/// The model of `Expr::insert`: splice `other` into the head position of
/// `node`, merging telescopes and argument tails.  An arrow expression or
/// universe cannot land in a head that already carries arguments.
pub open spec fn spec_insert(node: ExprV, other: ExprV) -> Result<ExprV, ErrV> {
    if (spec_universe_level(other) is Some || other.arrow_params.len() > 0) && node.tail.len() > 0 {
        Err(ErrV::ArityMismatch)
    } else {
        Ok(
            (ExprV {
                arrow_params: node.arrow_params + other.arrow_params,
                head: other.head,
                tail: other.tail + node.tail,
            }),
        )
    }
}

impl Expr {
    /// A bare universe at level `l`.
    pub fn universe(l: usize) -> (r: Expr)
        ensures
            expr_view(r) == (ExprV {
                arrow_params: Seq::empty(),
                head: Ident::Universe(l),
                tail: Seq::empty(),
            }),
    {
        Expr { arrow_params: Vec::new(), head: Ident::Universe(l), tail: Vec::new() }
    }

    /// A bare head with no telescope and no arguments.
    pub fn ident(h: Ident) -> (r: Expr)
        ensures
            expr_view(r) == (ExprV { arrow_params: Seq::empty(), head: h, tail: Seq::empty() }),
    {
        Expr { arrow_params: Vec::new(), head: h, tail: Vec::new() }
    }

    /// The universe level of a bare universe, and `None` otherwise.
    pub fn universe_level(&self) -> (r: Option<usize>)
        ensures
            r == spec_universe_level(expr_view(*self)),
    {
        proof {
            lemma_view_seq_len(self.arrow_params@);
            lemma_view_seq_len(self.tail@);
        }
        if self.arrow_params.len() > 0 || self.tail.len() > 0 {
            None
        } else {
            match self.head {
                Ident::Universe(l) => Some(l),
                _ => None,
            }
        }
    }

    /// Splice `other` into this node's head position.
    pub fn insert(&mut self, other: Expr) -> (r: Result<(), ElabError>)
        ensures
            match spec_insert(expr_view(*old(self)), expr_view(other)) {
                Ok(v) => r is Ok && expr_view(*final(self)) == v,
                Err(e) => r matches Err(er) && er@ == e && expr_view(*final(self)) == expr_view(
                    *old(self),
                ),
            },
    {
        proof {
            lemma_view_seq_len(self.tail@);
        }
        let mut other = other;
        if (other.universe_level().is_some() || other.arrow_params.len() > 0) && self.tail.len() > 0
        {
            proof {
                lemma_view_seq_len(other.arrow_params@);
            }
            return Err(ElabError::ArityMismatch);
        }
        proof {
            lemma_view_seq_len(other.arrow_params@);
        }
        let ghost old_self_params = self.arrow_params@;
        let ghost old_other_params = other.arrow_params@;
        let ghost old_other_tail = other.tail@;
        let ghost old_self_tail = self.tail@;
        self.arrow_params.append(&mut other.arrow_params);
        self.head = other.head;
        other.tail.append(&mut self.tail);
        self.tail = other.tail;
        proof {
            lemma_view_seq_concat(old_self_params, old_other_params);
            lemma_view_seq_concat(old_other_tail, old_self_tail);
        }
        Ok(())
    }
}

pub broadcast proof fn lemma_view_seq_concat(s: Seq<Expr>, t: Seq<Expr>)
    ensures
        #[trigger] view_seq(s + t) == view_seq(s) + view_seq(t),
    decreases t,
{
    if t.len() == 0 {
        assert(s + t =~= s);
        assert(view_seq(s) + view_seq(Seq::<Expr>::empty()) =~= view_seq(s));
    } else {
        lemma_view_seq_concat(s, t.drop_last());
        assert((s + t).drop_last() =~= s + t.drop_last());
        assert((s + t).last() == t.last());
        assert(view_seq(s) + view_seq(t) =~= (view_seq(s) + view_seq(t.drop_last())).push(
            expr_view(t.last()),
        ));
    }
}

/// Structural equality of expressions, decided without any derived code.
pub fn expr_eq(a: &Expr, b: &Expr) -> (r: bool)
    ensures
        r <==> (expr_view(*a) == expr_view(*b)),
    decreases *a, 0int,
{
    proof {
        lemma_view_seq_len(a.arrow_params@);
        lemma_view_seq_len(b.arrow_params@);
        lemma_view_seq_len(a.tail@);
        lemma_view_seq_len(b.tail@);
    }
    let heads_match = match (a.head, b.head) {
        (Ident::Universe(x), Ident::Universe(y)) => x == y,
        (Ident::Global(x), Ident::Global(y)) => x == y,
        (Ident::Overload(x), Ident::Overload(y)) => x == y,
        (Ident::Local(x), Ident::Local(y)) => x == y,
        (Ident::Meta(x, n), Ident::Meta(y, m)) => x == y && n == m,
        _ => false,
    };
    if !heads_match {
        return false;
    }
    if !expr_seq_eq(&a.arrow_params, &b.arrow_params) {
        proof {
            if expr_view(*a) == expr_view(*b) {
                assert(view_seq(a.arrow_params@) == view_seq(b.arrow_params@));
            }
        }
        return false;
    }
    if !expr_seq_eq(&a.tail, &b.tail) {
        proof {
            if expr_view(*a) == expr_view(*b) {
                assert(view_seq(a.tail@) == view_seq(b.tail@));
            }
        }
        return false;
    }
    proof {
        assert(expr_view(*a) =~= expr_view(*b));
    }
    true
}

fn expr_seq_eq(a: &Vec<Expr>, b: &Vec<Expr>) -> (r: bool)
    ensures
        r <==> (view_seq(a@) == view_seq(b@)),
    decreases a@, 1int,
{
    proof {
        lemma_view_seq_len(a@);
        lemma_view_seq_len(b@);
    }
    if a.len() != b.len() {
        return false;
    }
    let mut i: usize = 0;
    while i < a.len()
        invariant
            0 <= i <= a.len(),
            a@.len() == b@.len(),
            forall|k: int| 0 <= k < i ==> view_seq(a@)[k] == view_seq(b@)[k],
        decreases a@.len() - i,
    {
        proof {
            lemma_view_seq_index(a@, i as int);
            lemma_view_seq_index(b@, i as int);
        }
        if !expr_eq(&a[i], &b[i]) {
            proof {
                lemma_view_seq_len(a@);
                lemma_view_seq_len(b@);
                if view_seq(a@) == view_seq(b@) {
                    assert(view_seq(a@)[i as int] == view_seq(b@)[i as int]);
                }
            }
            return false;
        }
        i = i + 1;
    }
    proof {
        lemma_view_seq_len(a@);
        lemma_view_seq_len(b@);
        assert(view_seq(a@) =~= view_seq(b@));
    }
    true
}

} // verus!
