use vstd::prelude::*;

use crate::lexer::TokenTypes;

verus! {

/// An expression or statement of the language: a closed tagged union,
/// owned tree, no sharing.
#[derive(Debug)]
pub enum Expr {
    Number(i64),
    Binary(Box<Expr>, TokenTypes, Box<Expr>),
    Let(String, Box<Expr>),
    FnDef(String, Vec<String>, Box<Expr>),
    FnCall(String, Vec<Expr>),
    Var(String),
    Block(Vec<Expr>),
    Print(Box<Expr>),
    String(String),
}

/// Mathematical image of an expression tree: names and literals become
/// character sequences, vectors become sequences.
pub enum ExprV {
    Number(i64),
    Binary(Box<ExprV>, TokenTypes, Box<ExprV>),
    Let(Seq<char>, Box<ExprV>),
    FnDef(Seq<char>, Seq<Seq<char>>, Box<ExprV>),
    FnCall(Seq<char>, Seq<ExprV>),
    Var(Seq<char>),
    Block(Seq<ExprV>),
    Print(Box<ExprV>),
    StrLit(Seq<char>),
}

pub open spec fn expr_view(e: Expr) -> ExprV
    decreases e,
{
    match e {
        Expr::Number(n) => ExprV::Number(n),
        Expr::Binary(l, op, r) => ExprV::Binary(
            Box::new(expr_view(*l)),
            op,
            Box::new(expr_view(*r)),
        ),
        Expr::Let(name, v) => ExprV::Let(name@, Box::new(expr_view(*v))),
        Expr::FnDef(name, params, body) => ExprV::FnDef(
            name@,
            params.deep_view(),
            Box::new(expr_view(*body)),
        ),
        Expr::FnCall(name, args) => ExprV::FnCall(name@, exprs_view(args@)),
        Expr::Var(name) => ExprV::Var(name@),
        Expr::Block(stmts) => ExprV::Block(exprs_view(stmts@)),
        Expr::Print(inner) => ExprV::Print(Box::new(expr_view(*inner))),
        Expr::String(s) => ExprV::StrLit(s@),
    }
}

pub open spec fn exprs_view(es: Seq<Expr>) -> Seq<ExprV>
    decreases es,
{
    if es.len() == 0 {
        Seq::empty()
    } else {
        seq![expr_view(es[0])] + exprs_view(es.drop_first())
    }
}

impl View for Expr {
    type V = ExprV;

    open spec fn view(&self) -> ExprV {
        expr_view(*self)
    }
}

pub proof fn lemma_exprs_view(es: Seq<Expr>)
    ensures
        exprs_view(es).len() == es.len(),
        forall|i: int| 0 <= i < es.len() ==> #[trigger] exprs_view(es)[i] == expr_view(es[i]),
    decreases es.len(),
{
    if es.len() > 0 {
        lemma_exprs_view(es.drop_first());
    }
}

/// Two expression vectors with pointwise equal views have equal views.
pub proof fn lemma_exprs_view_pointwise(a: Seq<Expr>, b: Seq<Expr>)
    requires
        a.len() == b.len(),
        forall|i: int| 0 <= i < a.len() ==> expr_view(#[trigger] a[i]) == expr_view(b[i]),
    ensures
        exprs_view(a) == exprs_view(b),
    decreases a.len(),
{
    lemma_exprs_view(a);
    lemma_exprs_view(b);
    assert(exprs_view(a) =~= exprs_view(b));
}

impl Clone for Expr {
    /// A deep copy: the mathematical image is kept exactly.
    fn clone(&self) -> (res: Expr)
        ensures
            res@ == self@,
        decreases *self,
    {
        match self {
            Expr::Number(n) => Expr::Number(*n),
            Expr::Binary(l, op, r) => Expr::Binary(
                Box::new((&**l).clone()),
                *op,
                Box::new((&**r).clone()),
            ),
            Expr::Let(name, v) => Expr::Let(name.clone(), Box::new((&**v).clone())),
            Expr::FnDef(name, params, body) => {
                let cparams = params.clone();
                proof {
                    assert(cparams.deep_view() =~= params.deep_view()) by {
                        assert(forall|i: int|
                            0 <= i < params@.len() ==> cparams@[i]@ == #[trigger] params@[i]@);
                    }
                }
                Expr::FnDef(name.clone(), cparams, Box::new((&**body).clone()))
            },
            Expr::FnCall(name, args) => {
                let cargs = clone_exprs(args);
                Expr::FnCall(name.clone(), cargs)
            },
            Expr::Var(name) => Expr::Var(name.clone()),
            Expr::Block(stmts) => Expr::Block(clone_exprs(stmts)),
            Expr::Print(inner) => Expr::Print(Box::new((&**inner).clone())),
            Expr::String(s) => Expr::String(s.clone()),
        }
    }
}

/// Deep copy of an expression vector, keeping the view.
fn clone_exprs(es: &Vec<Expr>) -> (res: Vec<Expr>)
    ensures
        exprs_view(res@) == exprs_view(es@),
    decreases *es,
{
    let mut res: Vec<Expr> = Vec::new();
    let n = es.len();
    let mut i: usize = 0;
    while i < n
        invariant
            i <= n,
            n == es@.len(),
            res@.len() == i,
            forall|j: int| 0 <= j < i ==> expr_view(#[trigger] res@[j]) == expr_view(es@[j]),
        decreases n - i,
    {
        proof {
            assert(decreases_to!(*es => es@[i as int]));
        }
        let c = es[i].clone();
        res.push(c);
        i = i + 1;
    }
    proof {
        lemma_exprs_view_pointwise(res@, es@);
    }
    res
}

} // verus!
