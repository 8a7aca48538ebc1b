use vstd::prelude::*;

verus! {

broadcast use vstd::std_specs::vec::group_vec_axioms;

/// An expression of the program tree.
#[derive(Debug, PartialEq, Eq)]
pub enum Expr {
    /// A name written in the source.
    Ident(String),
    /// A signature handle made by the pass; each number names one handle.
    Handle(u64),
    /// `obj.prop` or `obj[prop]`.
    Member(Box<Expr>, MemberProp),
    /// A call with its callee and arguments.
    Call(Box<Expr>, Vec<Arg>),
    /// A function literal.
    Fn(FnLit),
    /// An arrow function literal.
    Arrow(ArrowBody),
    /// An array literal.
    Array(Vec<Expr>),
    /// A string literal.
    Str(String),
    /// A boolean literal.
    Bool(bool),
    /// Any other expression, given by its direct sub-expressions.
    Other(Vec<Expr>),
}

/// The property of a member access.
#[derive(Debug, PartialEq, Eq)]
pub enum MemberProp {
    /// `obj.name`
    Ident(String),
    /// `obj[expr]`
    Computed(Box<Expr>),
}

/// A call argument with the source text of its span (`None` where the
/// text cannot be had, as for a synthesized node).
#[derive(Debug, PartialEq, Eq)]
pub struct Arg {
    pub expr: Expr,
    pub text: Option<String>,
}

/// A function: its name, if any, and its body, if it has one.
#[derive(Debug, PartialEq, Eq)]
pub struct FnLit {
    pub ident: Option<String>,
    pub body: Option<Vec<Stmt>>,
}

/// The body of an arrow function.
#[derive(Debug, PartialEq, Eq)]
pub enum ArrowBody {
    Block(Vec<Stmt>),
    Expr(Box<Expr>),
}

/// A binding pattern.
#[derive(Debug, PartialEq, Eq)]
pub enum Pat {
    /// A single name.
    Ident(String),
    /// A signature handle made by the pass.
    Handle(u64),
    /// A destructuring pattern, given by the names it binds.
    Other(Vec<String>),
}

#[derive(PartialEq, Eq, Structural, Clone, Copy, Debug)]
pub enum VarKind {
    Var,
    Let,
    Const,
}

/// One declarator of a `var`, `let` or `const` declaration, with the source
/// text of its binding pattern.
#[derive(Debug, PartialEq, Eq)]
pub struct VarDeclarator {
    pub name: Pat,
    pub text: Option<String>,
    pub init: Option<Expr>,
}

#[derive(Debug, PartialEq, Eq)]
pub struct VarDecl {
    pub kind: VarKind,
    pub decls: Vec<VarDeclarator>,
}

/// A statement of the program tree; a program is a sequence of them.
#[derive(Debug, PartialEq, Eq)]
pub enum Stmt {
    Expr(Expr),
    Var(VarDecl),
    /// `function name() { ... }`
    FnDecl(String, FnLit),
    /// `export default function [name]() { ... }`
    DefaultFn(FnLit),
    Return(Option<Expr>),
    Block(Vec<Stmt>),
    /// Any other statement, given by its direct sub-expressions and
    /// sub-statements; the expressions are taken to come first. Where an
    /// expression part follows a statement part in the source (the condition
    /// of `do ... while`), it can be given as an expression statement among
    /// the sub-statements, in its place.
    Other(Vec<Expr>, Vec<Stmt>),
}

} // verus!

verus! {

/// The mathematical value of an [`Expr`].
pub enum ExprV {
    Ident(Seq<char>),
    Handle(u64),
    Member(Box<ExprV>, PropV),
    Call(Box<ExprV>, Seq<ArgV>),
    Fn(FnV),
    Arrow(ArrowV),
    Array(Seq<ExprV>),
    Str(Seq<char>),
    Bool(bool),
    Other(Seq<ExprV>),
}

pub enum PropV {
    Ident(Seq<char>),
    Computed(Box<ExprV>),
}

pub struct ArgV {
    pub expr: ExprV,
    pub text: Option<Seq<char>>,
}

pub struct FnV {
    pub ident: Option<Seq<char>>,
    pub body: Option<Seq<StmtV>>,
}

pub enum ArrowV {
    Block(Seq<StmtV>),
    Expr(Box<ExprV>),
}

pub enum PatV {
    Ident(Seq<char>),
    Handle(u64),
    Other(Seq<Seq<char>>),
}

pub struct DeclV {
    pub name: PatV,
    pub text: Option<Seq<char>>,
    pub init: Option<ExprV>,
}

pub enum StmtV {
    Expr(ExprV),
    Var(VarKind, Seq<DeclV>),
    FnDecl(Seq<char>, FnV),
    DefaultFn(FnV),
    Return(Option<ExprV>),
    Block(Seq<StmtV>),
    Other(Seq<ExprV>, Seq<StmtV>),
}

pub open spec fn text_view(t: Option<String>) -> Option<Seq<char>> {
    match t {
        Some(s) => Some(s@),
        None => None,
    }
}

pub open spec fn expr_view(e: Expr) -> ExprV
    decreases e,
{
    match e {
        Expr::Ident(n) => ExprV::Ident(n@),
        Expr::Handle(h) => ExprV::Handle(h),
        Expr::Member(obj, prop) => ExprV::Member(
            Box::new(expr_view(*obj)),
            match prop {
                MemberProp::Ident(n) => PropV::Ident(n@),
                MemberProp::Computed(x) => PropV::Computed(Box::new(expr_view(*x))),
            },
        ),
        Expr::Call(callee, args) => ExprV::Call(Box::new(expr_view(*callee)), args_view(args@)),
        Expr::Fn(f) => ExprV::Fn(fn_view(f)),
        Expr::Arrow(b) => ExprV::Arrow(
            match b {
                ArrowBody::Block(ss) => ArrowV::Block(stmts_view(ss@)),
                ArrowBody::Expr(x) => ArrowV::Expr(Box::new(expr_view(*x))),
            },
        ),
        Expr::Array(es) => ExprV::Array(exprs_view(es@)),
        Expr::Str(s) => ExprV::Str(s@),
        Expr::Bool(b) => ExprV::Bool(b),
        Expr::Other(es) => ExprV::Other(exprs_view(es@)),
    }
}

pub open spec fn exprs_view(es: Seq<Expr>) -> Seq<ExprV>
    decreases es,
{
    if es.len() == 0 {
        seq![]
    } else {
        exprs_view(es.drop_last()).push(expr_view(es.last()))
    }
}

pub open spec fn args_view(args: Seq<Arg>) -> Seq<ArgV>
    decreases args,
{
    if args.len() == 0 {
        seq![]
    } else {
        let a = args.last();
        args_view(args.drop_last()).push(ArgV { expr: expr_view(a.expr), text: text_view(a.text) })
    }
}

pub open spec fn fn_view(f: FnLit) -> FnV
    decreases f,
{
    FnV {
        ident: text_view(f.ident),
        body: match f.body {
            Some(ss) => Some(stmts_view(ss@)),
            None => None,
        },
    }
}

pub open spec fn names_view(ns: Seq<String>) -> Seq<Seq<char>> {
    ns.map_values(|n: String| n@)
}

pub open spec fn pat_view(p: Pat) -> PatV {
    match p {
        Pat::Ident(n) => PatV::Ident(n@),
        Pat::Handle(h) => PatV::Handle(h),
        Pat::Other(names) => PatV::Other(names_view(names@)),
    }
}

pub open spec fn decls_view(ds: Seq<VarDeclarator>) -> Seq<DeclV>
    decreases ds,
{
    if ds.len() == 0 {
        seq![]
    } else {
        let d = ds.last();
        decls_view(ds.drop_last()).push(
            DeclV {
                name: pat_view(d.name),
                text: text_view(d.text),
                init: match d.init {
                    Some(e) => Some(expr_view(e)),
                    None => None,
                },
            },
        )
    }
}

pub open spec fn stmt_view(s: Stmt) -> StmtV
    decreases s,
{
    match s {
        Stmt::Expr(e) => StmtV::Expr(expr_view(e)),
        Stmt::Var(d) => StmtV::Var(d.kind, decls_view(d.decls@)),
        Stmt::FnDecl(n, f) => StmtV::FnDecl(n@, fn_view(f)),
        Stmt::DefaultFn(f) => StmtV::DefaultFn(fn_view(f)),
        Stmt::Return(a) => StmtV::Return(
            match a {
                Some(e) => Some(expr_view(e)),
                None => None,
            },
        ),
        Stmt::Block(ss) => StmtV::Block(stmts_view(ss@)),
        Stmt::Other(es, ss) => StmtV::Other(exprs_view(es@), stmts_view(ss@)),
    }
}

pub open spec fn stmts_view(ss: Seq<Stmt>) -> Seq<StmtV>
    decreases ss,
{
    if ss.len() == 0 {
        seq![]
    } else {
        stmts_view(ss.drop_last()).push(stmt_view(ss.last()))
    }
}

} // verus!

verus! {

pub broadcast proof fn lemma_exprs_view(es: Seq<Expr>)
    ensures
        #[trigger] exprs_view(es).len() == es.len(),
        forall|i: int| 0 <= i < es.len() ==> #[trigger] exprs_view(es)[i] == expr_view(es[i]),
    decreases es.len(),
{
    if es.len() > 0 {
        lemma_exprs_view(es.drop_last());
        assert forall|i: int| 0 <= i < es.len() implies #[trigger] exprs_view(es)[i] == expr_view(
            es[i],
        ) by {
            if i < es.len() - 1 {
                assert(es.drop_last()[i] == es[i]);
            }
        }
    }
}

pub broadcast proof fn lemma_args_view(args: Seq<Arg>)
    ensures
        #[trigger] args_view(args).len() == args.len(),
        forall|i: int|
            0 <= i < args.len() ==> #[trigger] args_view(args)[i] == (ArgV {
                expr: expr_view(args[i].expr),
                text: text_view(args[i].text),
            }),
    decreases args.len(),
{
    if args.len() > 0 {
        lemma_args_view(args.drop_last());
        assert forall|i: int| 0 <= i < args.len() implies #[trigger] args_view(args)[i] == (ArgV {
            expr: expr_view(args[i].expr),
            text: text_view(args[i].text),
        }) by {
            if i < args.len() - 1 {
                assert(args.drop_last()[i] == args[i]);
            }
        }
    }
}

pub broadcast proof fn lemma_stmts_view(ss: Seq<Stmt>)
    ensures
        #[trigger] stmts_view(ss).len() == ss.len(),
        forall|i: int| 0 <= i < ss.len() ==> #[trigger] stmts_view(ss)[i] == stmt_view(ss[i]),
    decreases ss.len(),
{
    if ss.len() > 0 {
        lemma_stmts_view(ss.drop_last());
        assert forall|i: int| 0 <= i < ss.len() implies #[trigger] stmts_view(ss)[i] == stmt_view(
            ss[i],
        ) by {
            if i < ss.len() - 1 {
                assert(ss.drop_last()[i] == ss[i]);
            }
        }
    }
}

pub broadcast proof fn lemma_decls_view(ds: Seq<VarDeclarator>)
    ensures
        #[trigger] decls_view(ds).len() == ds.len(),
        forall|i: int|
            0 <= i < ds.len() ==> #[trigger] decls_view(ds)[i] == (DeclV {
                name: pat_view(ds[i].name),
                text: text_view(ds[i].text),
                init: match ds[i].init {
                    Some(e) => Some(expr_view(e)),
                    None => None,
                },
            }),
    decreases ds.len(),
{
    if ds.len() > 0 {
        lemma_decls_view(ds.drop_last());
        assert forall|i: int| 0 <= i < ds.len() implies #[trigger] decls_view(ds)[i] == (DeclV {
            name: pat_view(ds[i].name),
            text: text_view(ds[i].text),
            init: match ds[i].init {
                Some(e) => Some(expr_view(e)),
                None => None,
            },
        }) by {
            if i < ds.len() - 1 {
                assert(ds.drop_last()[i] == ds[i]);
            }
        }
    }
}

pub broadcast group group_view_lemmas {
    lemma_decls_view,
    lemma_exprs_view,
    lemma_args_view,
    lemma_stmts_view,
}

} // verus!
