use vstd::prelude::*;
use crate::ast::{
    args_view, decls_view, expr_view, exprs_view, fn_view, group_view_lemmas, pat_view, stmt_view,
    stmts_view, text_view,
    Arg, ArgV, ArrowBody, ArrowV, DeclV, Expr, ExprV, FnLit, FnV, MemberProp, Pat, PatV, PropV,
    Stmt, StmtV, VarDeclarator,
};

verus! {

broadcast use vstd::std_specs::vec::group_vec_axioms, group_view_lemmas;

/// Every handle in the expression is numbered below `n`.
pub open spec fn handles_below_expr(e: ExprV, n: u64) -> bool
    decreases e,
{
    match e {
        ExprV::Handle(h) => h < n,
        ExprV::Member(obj, prop) => handles_below_expr(*obj, n) && match prop {
            PropV::Computed(x) => handles_below_expr(*x, n),
            PropV::Ident(_) => true,
        },
        ExprV::Call(callee, args) => handles_below_expr(*callee, n) && handles_below_args(args, n),
        ExprV::Fn(f) => handles_below_fn(f, n),
        ExprV::Arrow(b) => match b {
            ArrowV::Block(ss) => handles_below_stmts(ss, n),
            ArrowV::Expr(x) => handles_below_expr(*x, n),
        },
        ExprV::Array(es) => handles_below_exprs(es, n),
        ExprV::Other(es) => handles_below_exprs(es, n),
        _ => true,
    }
}

pub open spec fn handles_below_exprs(es: Seq<ExprV>, n: u64) -> bool
    decreases es,
{
    forall|i: int| 0 <= i < es.len() ==> handles_below_expr(#[trigger] es[i], n)
}

pub open spec fn handles_below_args(args: Seq<ArgV>, n: u64) -> bool
    decreases args,
{
    forall|i: int| 0 <= i < args.len() ==> handles_below_expr(#[trigger] args[i].expr, n)
}

pub open spec fn handles_below_fn(f: FnV, n: u64) -> bool
    decreases f,
{
    match f.body {
        Some(ss) => handles_below_stmts(ss, n),
        None => true,
    }
}

pub open spec fn handles_below_init(init: Option<ExprV>, n: u64) -> bool
    decreases init,
{
    match init {
        Some(e) => handles_below_expr(e, n),
        None => true,
    }
}

pub open spec fn handles_below_pat(p: PatV, n: u64) -> bool {
    match p {
        PatV::Handle(h) => h < n,
        _ => true,
    }
}

pub open spec fn handles_below_decl(d: DeclV, n: u64) -> bool
    decreases d,
{
    handles_below_pat(d.name, n) && handles_below_init(d.init, n)
}

pub open spec fn handles_below_decls(ds: Seq<DeclV>, n: u64) -> bool
    decreases ds,
{
    forall|i: int| 0 <= i < ds.len() ==> handles_below_decl(#[trigger] ds[i], n)
}

/// Every handle in the statement is numbered below `n`.
pub open spec fn handles_below_stmt(s: StmtV, n: u64) -> bool
    decreases s,
{
    match s {
        StmtV::Expr(e) => handles_below_expr(e, n),
        StmtV::Var(_, ds) => handles_below_decls(ds, n),
        StmtV::FnDecl(_, f) => handles_below_fn(f, n),
        StmtV::DefaultFn(f) => handles_below_fn(f, n),
        StmtV::Return(a) => handles_below_init(a, n),
        StmtV::Block(ss) => handles_below_stmts(ss, n),
        StmtV::Other(es, ss) => handles_below_exprs(es, n) && handles_below_stmts(ss, n),
    }
}

pub open spec fn handles_below_stmts(ss: Seq<StmtV>, n: u64) -> bool
    decreases ss,
{
    forall|i: int| 0 <= i < ss.len() ==> handles_below_stmt(#[trigger] ss[i], n)
}

pub proof fn lemma_below_expr_grows(e: ExprV, a: u64, b: u64)
    requires
        handles_below_expr(e, a),
        a <= b,
    ensures
        handles_below_expr(e, b),
    decreases e,
{
    match e {
        ExprV::Member(obj, prop) => {
            lemma_below_expr_grows(*obj, a, b);
            match prop {
                PropV::Computed(x) => {
                    lemma_below_expr_grows(*x, a, b);
                },
                PropV::Ident(_) => {},
            }
            assert(handles_below_expr(e, b));
        },
        ExprV::Call(callee, args) => {
            lemma_below_expr_grows(*callee, a, b);
            assert(handles_below_args(args, a));
            assert forall|i: int| 0 <= i < args.len() implies handles_below_expr(#[trigger] args[i].expr, b) by {
                assert(handles_below_expr(args[i].expr, a));
                lemma_below_expr_grows(args[i].expr, a, b);
            }
            assert(handles_below_args(args, b));
        },
        ExprV::Fn(f) => lemma_below_fn_grows(f, a, b),
        ExprV::Arrow(bd) => match bd {
            ArrowV::Block(ss) => lemma_below_stmts_grows(ss, a, b),
            ArrowV::Expr(x) => lemma_below_expr_grows(*x, a, b),
        },
        ExprV::Array(es) => lemma_below_exprs_grows(es, a, b),
        ExprV::Other(es) => lemma_below_exprs_grows(es, a, b),
        _ => {},
    }
}

pub proof fn lemma_below_exprs_grows(es: Seq<ExprV>, a: u64, b: u64)
    requires
        handles_below_exprs(es, a),
        a <= b,
    ensures
        handles_below_exprs(es, b),
    decreases es,
{
    assert forall|i: int| 0 <= i < es.len() implies handles_below_expr(#[trigger] es[i], b) by {
        lemma_below_expr_grows(es[i], a, b);
    }
}

pub proof fn lemma_below_fn_grows(f: FnV, a: u64, b: u64)
    requires
        handles_below_fn(f, a),
        a <= b,
    ensures
        handles_below_fn(f, b),
    decreases f,
{
    match f.body {
        Some(ss) => lemma_below_stmts_grows(ss, a, b),
        None => {},
    }
}

pub proof fn lemma_below_stmt_grows(s: StmtV, a: u64, b: u64)
    requires
        handles_below_stmt(s, a),
        a <= b,
    ensures
        handles_below_stmt(s, b),
    decreases s,
{
    match s {
        StmtV::Expr(e) => lemma_below_expr_grows(e, a, b),
        StmtV::Var(_, ds) => {
            assert forall|i: int| 0 <= i < ds.len() implies handles_below_decl(#[trigger] ds[i], b) by {
                assert(handles_below_decl(ds[i], a));
                match ds[i].init {
                    Some(e) => lemma_below_expr_grows(e, a, b),
                    None => {},
                }
            }
        },
        StmtV::FnDecl(_, f) => lemma_below_fn_grows(f, a, b),
        StmtV::DefaultFn(f) => lemma_below_fn_grows(f, a, b),
        StmtV::Return(x) => match x {
            Some(e) => lemma_below_expr_grows(e, a, b),
            None => {},
        },
        StmtV::Block(ss) => lemma_below_stmts_grows(ss, a, b),
        StmtV::Other(es, ss) => {
            lemma_below_exprs_grows(es, a, b);
            lemma_below_stmts_grows(ss, a, b);
        },
    }
}

pub proof fn lemma_below_stmts_grows(ss: Seq<StmtV>, a: u64, b: u64)
    requires
        handles_below_stmts(ss, a),
        a <= b,
    ensures
        handles_below_stmts(ss, b),
    decreases ss,
{
    assert forall|i: int| 0 <= i < ss.len() implies handles_below_stmt(#[trigger] ss[i], b) by {
        lemma_below_stmt_grows(ss[i], a, b);
    }
}


/// `n`, raised above the handle `h` where it is not already.
pub open spec fn raise(n: u64, h: u64) -> u64 {
    if h < n {
        n
    } else if h < u64::MAX {
        (h + 1) as u64
    } else {
        u64::MAX
    }
}

/// The least number at least `n` above every handle of the expression, met
/// in order; `u64::MAX` where there is none.
pub open spec fn bound_expr(n: u64, e: ExprV) -> u64
    decreases e,
{
    match e {
        ExprV::Handle(h) => raise(n, h),
        ExprV::Member(obj, prop) => match prop {
            PropV::Computed(x) => bound_expr(bound_expr(n, *obj), *x),
            PropV::Ident(_) => bound_expr(n, *obj),
        },
        ExprV::Call(callee, args) => bound_args(bound_expr(n, *callee), args),
        ExprV::Fn(f) => bound_fn(n, f),
        ExprV::Arrow(b) => match b {
            ArrowV::Block(ss) => bound_stmts(n, ss),
            ArrowV::Expr(x) => bound_expr(n, *x),
        },
        ExprV::Array(es) => bound_exprs(n, es),
        ExprV::Other(es) => bound_exprs(n, es),
        _ => n,
    }
}

pub open spec fn bound_exprs(n: u64, es: Seq<ExprV>) -> u64
    decreases es,
{
    if es.len() == 0 {
        n
    } else {
        bound_expr(bound_exprs(n, es.drop_last()), es.last())
    }
}

pub open spec fn bound_args(n: u64, args: Seq<ArgV>) -> u64
    decreases args,
{
    if args.len() == 0 {
        n
    } else {
        bound_expr(bound_args(n, args.drop_last()), args.last().expr)
    }
}

pub open spec fn bound_fn(n: u64, f: FnV) -> u64
    decreases f,
{
    match f.body {
        Some(ss) => bound_stmts(n, ss),
        None => n,
    }
}

pub open spec fn bound_decl(n: u64, d: DeclV) -> u64
    decreases d,
{
    let m = match d.name {
        PatV::Handle(h) => raise(n, h),
        _ => n,
    };
    match d.init {
        Some(e) => bound_expr(m, e),
        None => m,
    }
}

pub open spec fn bound_decls(n: u64, ds: Seq<DeclV>) -> u64
    decreases ds,
{
    if ds.len() == 0 {
        n
    } else {
        bound_decl(bound_decls(n, ds.drop_last()), ds.last())
    }
}

pub open spec fn bound_stmt(n: u64, s: StmtV) -> u64
    decreases s,
{
    match s {
        StmtV::Expr(e) => bound_expr(n, e),
        StmtV::Var(_, ds) => bound_decls(n, ds),
        StmtV::FnDecl(_, f) => bound_fn(n, f),
        StmtV::DefaultFn(f) => bound_fn(n, f),
        StmtV::Return(a) => match a {
            Some(e) => bound_expr(n, e),
            None => n,
        },
        StmtV::Block(ss) => bound_stmts(n, ss),
        StmtV::Other(es, ss) => bound_stmts(bound_exprs(n, es), ss),
    }
}

/// The least number at least `n` above every handle of the statements.
pub open spec fn bound_stmts(n: u64, ss: Seq<StmtV>) -> u64
    decreases ss,
{
    if ss.len() == 0 {
        n
    } else {
        bound_stmt(bound_stmts(n, ss.drop_last()), ss.last())
    }
}

fn raise_exec(n: u64, h: u64) -> (r: u64)
    ensures
        r == raise(n, h),
        r >= n,
        r == u64::MAX || h < r,
{
    if h < n {
        n
    } else if h < u64::MAX {
        h + 1
    } else {
        u64::MAX
    }
}

/// The number of the first handle above `n` and above every handle of the
/// expression, or `u64::MAX`.
pub fn handle_bound_expr(e: &Expr, n: u64) -> (r: u64)
    ensures
        r == bound_expr(n, expr_view(*e)),
        r >= n,
        r == u64::MAX || handles_below_expr(expr_view(*e), r),
    decreases e,
{
    let ghost ev = expr_view(*e);
    match e {
        Expr::Handle(h) => raise_exec(n, *h),
        Expr::Member(obj, prop) => {
            let r1 = handle_bound_expr(obj, n);
            match prop {
                MemberProp::Computed(x) => {
                    let r2 = handle_bound_expr(x, r1);
                    proof {
                        if r2 != u64::MAX {
                            lemma_below_expr_grows(expr_view(**obj), r1, r2);
                        }
                    }
                    assert(ev == ExprV::Member(Box::new(expr_view(**obj)), PropV::Computed(Box::new(expr_view(**x)))));
                    r2
                },
                MemberProp::Ident(n2) => {
                    assert(ev == ExprV::Member(Box::new(expr_view(**obj)), PropV::Ident(n2@)));
                    r1
                },
            }
        },
        Expr::Call(callee, args) => {
            let r1 = handle_bound_expr(callee, n);
            let r2 = handle_bound_args(args, r1);
            proof {
                if r2 != u64::MAX {
                    lemma_below_expr_grows(expr_view(**callee), r1, r2);
                }
            }
            assert(ev == ExprV::Call(Box::new(expr_view(**callee)), args_view(args@)));
            r2
        },
        Expr::Fn(f) => {
            assert(ev == ExprV::Fn(fn_view(*f)));
            handle_bound_fn(f, n)
        },
        Expr::Arrow(b) => match b {
            ArrowBody::Block(ss) => {
                assert(ev == ExprV::Arrow(ArrowV::Block(stmts_view(ss@))));
                handle_bound_stmts(ss, n)
            },
            ArrowBody::Expr(x) => {
                assert(ev == ExprV::Arrow(ArrowV::Expr(Box::new(expr_view(**x)))));
                handle_bound_expr(x, n)
            },
        },
        Expr::Array(es) => handle_bound_exprs(es, n),
        Expr::Other(es) => handle_bound_exprs(es, n),
        _ => n,
    }
}

fn handle_bound_exprs(es: &Vec<Expr>, n: u64) -> (r: u64)
    ensures
        r == bound_exprs(n, exprs_view(es@)),
        r >= n,
        r == u64::MAX || handles_below_exprs(exprs_view(es@), r),
    decreases es,
{
    let ghost v = exprs_view(es@);
    let mut r = n;
    let mut i: usize = 0;
    while i < es.len()
        invariant
            i <= es@.len(),
            v == exprs_view(es@),
            v.len() == es@.len(),
            r >= n,
            r == bound_exprs(n, v.subrange(0, i as int)),
            r == u64::MAX || handles_below_exprs(v.subrange(0, i as int), r),
        decreases es@.len() - i,
    {
        assert(decreases_to!(es => es[i as int]));
        let r2 = handle_bound_expr(&es[i], r);
        let ghost pre = v.subrange(0, i as int);
        let ghost sub = v.subrange(0, i + 1);
        assert(sub.drop_last() =~= pre);
        assert(sub.last() == v[i as int]);
        proof {
            if r2 != u64::MAX {
                lemma_below_exprs_grows(pre, r, r2);
                assert forall|j: int| 0 <= j < sub.len() implies handles_below_expr(#[trigger] sub[j], r2) by {
                    if j < i {
                        assert(sub[j] == pre[j]);
                    }
                }
            }
        }
        r = r2;
        i += 1;
    }
    assert(v.subrange(0, i as int) =~= v);
    r
}

fn handle_bound_args(args: &Vec<Arg>, n: u64) -> (r: u64)
    ensures
        r == bound_args(n, args_view(args@)),
        r >= n,
        r == u64::MAX || handles_below_args(args_view(args@), r),
    decreases args,
{
    let ghost v = args_view(args@);
    let mut r = n;
    let mut i: usize = 0;
    while i < args.len()
        invariant
            i <= args@.len(),
            v == args_view(args@),
            v.len() == args@.len(),
            r >= n,
            r == bound_args(n, v.subrange(0, i as int)),
            r == u64::MAX || handles_below_args(v.subrange(0, i as int), r),
        decreases args@.len() - i,
    {
        assert(decreases_to!(args => args[i as int]));
        let r2 = handle_bound_expr(&args[i].expr, r);
        let ghost pre = v.subrange(0, i as int);
        let ghost sub = v.subrange(0, i + 1);
        assert(sub.drop_last() =~= pre);
        assert(sub.last() == v[i as int]);
        proof {
            if r2 != u64::MAX {
                assert forall|j: int| 0 <= j < sub.len() implies handles_below_expr(#[trigger] sub[j].expr, r2) by {
                    if j < i {
                        assert(sub[j] == pre[j]);
                        assert(handles_below_expr(pre[j].expr, r));
                        lemma_below_expr_grows(pre[j].expr, r, r2);
                    }
                }
            }
        }
        r = r2;
        i += 1;
    }
    assert(v.subrange(0, i as int) =~= v);
    r
}

fn handle_bound_fn(f: &FnLit, n: u64) -> (r: u64)
    ensures
        r == bound_fn(n, fn_view(*f)),
        r >= n,
        r == u64::MAX || handles_below_fn(fn_view(*f), r),
    decreases f,
{
    match &f.body {
        Some(ss) => handle_bound_stmts(ss, n),
        None => n,
    }
}

fn handle_bound_decls(ds: &Vec<VarDeclarator>, n: u64) -> (r: u64)
    ensures
        r == bound_decls(n, decls_view(ds@)),
        r >= n,
        r == u64::MAX || handles_below_decls(decls_view(ds@), r),
    decreases ds,
{
    let ghost v = decls_view(ds@);
    let mut r = n;
    let mut i: usize = 0;
    while i < ds.len()
        invariant
            i <= ds@.len(),
            v == decls_view(ds@),
            v.len() == ds@.len(),
            r >= n,
            r == bound_decls(n, v.subrange(0, i as int)),
            r == u64::MAX || handles_below_decls(v.subrange(0, i as int), r),
        decreases ds@.len() - i,
    {
        assert(decreases_to!(ds => ds[i as int]));
        let d = &ds[i];
        assert(v[i as int] == (DeclV {
            name: pat_view(d.name),
            text: text_view(d.text),
            init: match d.init {
                Some(e) => Some(expr_view(e)),
                None => None,
            },
        }));
        let m = match &d.name {
            Pat::Handle(h) => raise_exec(r, *h),
            _ => r,
        };
        assert(m == match v[i as int].name {
            PatV::Handle(h) => raise(r, h),
            _ => r,
        });
        let r2 = match &d.init {
            Some(e) => handle_bound_expr(e, m),
            None => m,
        };
        assert(r2 == bound_decl(r, v[i as int]));
        let ghost pre = v.subrange(0, i as int);
        let ghost sub = v.subrange(0, i + 1);
        assert(sub.drop_last() =~= pre);
        assert(sub.last() == v[i as int]);
        proof {
            if r2 != u64::MAX {
                assert(handles_below_pat(v[i as int].name, r2));
                assert(handles_below_init(v[i as int].init, r2));
                assert(handles_below_decl(v[i as int], r2));
                assert forall|j: int| 0 <= j < sub.len() implies handles_below_decl(#[trigger] sub[j], r2) by {
                    if j < i {
                        assert(sub[j] == pre[j]);
                        assert(handles_below_decl(pre[j], r));
                        match pre[j].init {
                            Some(e) => lemma_below_expr_grows(e, r, r2),
                            None => {},
                        }
                    }
                }
            }
        }
        r = r2;
        i += 1;
    }
    assert(v.subrange(0, i as int) =~= v);
    r
}

fn handle_bound_stmt(s: &Stmt, n: u64) -> (r: u64)
    ensures
        r == bound_stmt(n, stmt_view(*s)),
        r >= n,
        r == u64::MAX || handles_below_stmt(stmt_view(*s), r),
    decreases s,
{
    match s {
        Stmt::Expr(e) => handle_bound_expr(e, n),
        Stmt::Var(d) => handle_bound_decls(&d.decls, n),
        Stmt::FnDecl(_, f) => handle_bound_fn(f, n),
        Stmt::DefaultFn(f) => handle_bound_fn(f, n),
        Stmt::Return(a) => match a {
            Some(e) => handle_bound_expr(e, n),
            None => n,
        },
        Stmt::Block(ss) => handle_bound_stmts(ss, n),
        Stmt::Other(es, ss) => {
            let r1 = handle_bound_exprs(es, n);
            let r2 = handle_bound_stmts(ss, r1);
            proof {
                if r2 != u64::MAX {
                    lemma_below_exprs_grows(exprs_view(es@), r1, r2);
                }
            }
            r2
        },
    }
}

/// The number of the first handle above `n` and above every handle of the
/// statements, or `u64::MAX`.
pub fn handle_bound_stmts(ss: &Vec<Stmt>, n: u64) -> (r: u64)
    ensures
        r == bound_stmts(n, stmts_view(ss@)),
        r >= n,
        r == u64::MAX || handles_below_stmts(stmts_view(ss@), r),
    decreases ss,
{
    let ghost v = stmts_view(ss@);
    let mut r = n;
    let mut i: usize = 0;
    while i < ss.len()
        invariant
            i <= ss@.len(),
            v == stmts_view(ss@),
            v.len() == ss@.len(),
            r >= n,
            r == bound_stmts(n, v.subrange(0, i as int)),
            r == u64::MAX || handles_below_stmts(v.subrange(0, i as int), r),
        decreases ss@.len() - i,
    {
        assert(decreases_to!(ss => ss[i as int]));
        let r2 = handle_bound_stmt(&ss[i], r);
        let ghost pre = v.subrange(0, i as int);
        let ghost sub = v.subrange(0, i + 1);
        assert(sub.drop_last() =~= pre);
        assert(sub.last() == v[i as int]);
        proof {
            if r2 != u64::MAX {
                lemma_below_stmts_grows(pre, r, r2);
                assert forall|j: int| 0 <= j < sub.len() implies handles_below_stmt(#[trigger] sub[j], r2) by {
                    if j < i {
                        assert(sub[j] == pre[j]);
                    }
                }
            }
        }
        r = r2;
        i += 1;
    }
    assert(v.subrange(0, i as int) =~= v);
    r
}

} // verus!
