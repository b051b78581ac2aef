//! Surface syntax handed over by the (external) parser layer: a tree of
//! named-variable arrow/application expressions plus top-level items.
//!
//! Each surface expression has a mathematical model (`ExprV`) used by the
//! contracts of the conversion into core terms.
use vstd::prelude::*;

verus! {

broadcast use vstd::group_vstd_default;

/// A surface expression: either an arrow (telescope) expression or an
/// application of a named head to arguments.
pub enum Expr {
    Arrow(ArrowExpr),
    Alg(AlgExpr),
}

/// An ordered list of optionally-named, explicitly-typed parameters plus a
/// result expression.
pub struct ArrowExpr {
    pub params: Vec<(Option<String>, Expr)>,
    pub output: Box<Expr>,
}

/// A head name applied to an ordered argument list.
pub struct AlgExpr {
    pub head: String,
    pub tail: Vec<Expr>,
}

/// The model of a surface expression.
#[verifier::ext_equal]
pub enum ExprV {
    Arrow { params: Seq<(Option<Seq<char>>, ExprV)>, output: Box<ExprV> },
    Alg { head: Seq<char>, tail: Seq<ExprV> },
}

/// The model of one surface parameter.
pub open spec fn param_view(p: (Option<String>, Expr)) -> (Option<Seq<char>>, ExprV)
    decreases p, 0int,
{
    (
        match p.0 {
            Some(n) => Some(n@),
            None => None,
        },
        surface_view(p.1),
    )
}

/// Models of a sequence of surface parameters, in order.
pub open spec fn params_view(s: Seq<(Option<String>, Expr)>) -> Seq<(Option<Seq<char>>, ExprV)>
    decreases s, 1int,
{
    if s.len() == 0 {
        Seq::empty()
    } else {
        params_view(s.drop_last()).push(param_view(s.last()))
    }
}

/// Models of a sequence of surface expressions, in order.
pub open spec fn args_view(s: Seq<Expr>) -> Seq<ExprV>
    decreases s, 1int,
{
    if s.len() == 0 {
        Seq::empty()
    } else {
        args_view(s.drop_last()).push(surface_view(s.last()))
    }
}

/// The model of a surface expression.
pub open spec fn surface_view(e: Expr) -> ExprV
    decreases e, 0int,
{
    match e {
        Expr::Arrow(a) => (ExprV::Arrow {
            params: params_view(a.params@),
            output: Box::new(surface_view(*a.output)),
        }),
        Expr::Alg(a) => (ExprV::Alg { head: a.head@, tail: args_view(a.tail@) }),
    }
}

pub broadcast proof fn lemma_params_view_len(s: Seq<(Option<String>, Expr)>)
    ensures
        (#[trigger] params_view(s)).len() == s.len(),
    decreases s,
{
    if s.len() > 0 {
        lemma_params_view_len(s.drop_last());
    }
}

pub broadcast proof fn lemma_params_view_index(s: Seq<(Option<String>, Expr)>, i: int)
    requires
        0 <= i < s.len(),
    ensures
        #[trigger] params_view(s)[i] == param_view(s[i]),
    decreases s,
{
    lemma_params_view_len(s);
    if i < s.len() - 1 {
        lemma_params_view_index(s.drop_last(), i);
    }
}

pub broadcast proof fn lemma_args_view_len(s: Seq<Expr>)
    ensures
        (#[trigger] args_view(s)).len() == s.len(),
    decreases s,
{
    if s.len() > 0 {
        lemma_args_view_len(s.drop_last());
    }
}

pub broadcast proof fn lemma_args_view_index(s: Seq<Expr>, i: int)
    requires
        0 <= i < s.len(),
    ensures
        #[trigger] args_view(s)[i] == surface_view(s[i]),
    decreases s,
{
    lemma_args_view_len(s);
    if i < s.len() - 1 {
        lemma_args_view_index(s.drop_last(), i);
    }
}

/// A named definition with parameter names and a body.
pub struct Function {
    pub fname: String,
    pub vars: Vec<String>,
    pub body: Expr,
}

/// A name/type annotation; `is_post` marks a postulate (no definition owed).
pub struct Annotation {
    pub is_post: bool,
    pub name: String,
    pub typ: Expr,
}

/// One surface line.
pub enum Line {
    Annotation(Annotation),
    Function(Function),
}

/// One top-level item: an optional annotation and an optional definition.
pub struct Item {
    pub annotation: Option<Annotation>,
    pub definition: Option<Function>,
    pub associated: Vec<Item>,
}

impl Clone for Expr {
    /// A deep copy; the copy has the same model.
    fn clone(&self) -> (r: Expr)
        ensures
            surface_view(r) == surface_view(*self),
        decreases *self,
    {
        match self {
            Expr::Arrow(a) => Expr::Arrow(a.clone()),
            Expr::Alg(a) => Expr::Alg(a.clone()),
        }
    }
}

impl Clone for ArrowExpr {
    fn clone(&self) -> (r: ArrowExpr)
        ensures
            params_view(r.params@) == params_view(self.params@),
            surface_view(*r.output) == surface_view(*self.output),
        decreases *self,
    {
        let mut params: Vec<(Option<String>, Expr)> = Vec::new();
        let mut i: usize = 0;
        while i < self.params.len()
            invariant
                0 <= i <= self.params.len(),
                params@.len() == i,
                forall|k: int|
                    0 <= k < i ==> #[trigger] param_view(params@[k]) == param_view(self.params@[k]),
            decreases self.params.len() - i,
        {
            let name = match &self.params[i].0 {
                Some(n) => Some(n.clone()),
                None => None,
            };
            params.push((name, self.params[i].1.clone()));
            i = i + 1;
        }
        let r = ArrowExpr { params, output: Box::new((*self.output).clone()) };
        proof {
            broadcast use lemma_params_view_len, lemma_params_view_index;

            assert(params_view(r.params@) =~= params_view(self.params@));
        }
        r
    }
}

impl Clone for AlgExpr {
    fn clone(&self) -> (r: AlgExpr)
        ensures
            r.head@ == self.head@,
            args_view(r.tail@) == args_view(self.tail@),
        decreases *self,
    {
        let mut tail: Vec<Expr> = Vec::new();
        let mut i: usize = 0;
        while i < self.tail.len()
            invariant
                0 <= i <= self.tail.len(),
                tail@.len() == i,
                forall|k: int|
                    0 <= k < i ==> surface_view(#[trigger] tail@[k]) == surface_view(self.tail@[k]),
            decreases self.tail.len() - i,
        {
            tail.push(self.tail[i].clone());
            i = i + 1;
        }
        let r = AlgExpr { head: self.head.clone(), tail };
        proof {
            broadcast use lemma_args_view_len, lemma_args_view_index;

            assert(args_view(r.tail@) =~= args_view(self.tail@));
        }
        r
    }
}

} // verus!
