use vstd::prelude::*;
use indexmap::IndexSet;
use crate::ast::{
    args_view, expr_view, exprs_view, fn_view, group_view_lemmas, stmt_view, stmts_view, decls_view,
    names_view, pat_view, text_view, Arg, ArgV, ArrowBody, ArrowV, DeclV, Expr, ExprV, FnLit, FnV, MemberProp,
    Pat, PatV, PropV, Stmt, StmtV, VarDecl, VarDeclarator, VarKind,
};
use crate::hooks::{
    arrow_view, collect_hooks, hooks_in_arrow, hooks_in_stmts, marked_arrow, marker_stmt, collect_hooks_arrow, hooks_view, lemma_no_hooks_arrow, lemma_no_hooks_stmts,
    no_hooks_args, no_hooks_decls, no_hooks_expr, no_hooks_exprs, no_hooks_fn, no_hooks_init,
    no_hooks_stmt, no_hooks_stmts, Hook, HookSig, HookV,
};
use crate::scope::{
    binding_insert, binding_len, binding_names, binding_set_new,
    binding_truncate,
};
use crate::handles::{bound_stmts, handle_bound_stmts, handles_below_stmts};
use crate::signature::{
    build_register_call, classify_hooks, force_reset, register_call, scoped_customs, sign_hooks,
    signature_of,
};

verus! {

broadcast use vstd::std_specs::vec::group_vec_axioms, group_view_lemmas;

/// The options of the pass.
#[derive(Debug, PartialEq, Eq)]
pub struct RefreshOptions {
    /// Put the signature lines themselves in the output, not their digest.
    pub emit_full_signatures: bool,
    /// The function that creates a signature slot.
    pub refresh_sig: String,
}

/// The rewriting pass, with the state it threads through the tree.
pub struct HookRegister {
    pub options: RefreshOptions,
    /// Handles of the current block that still need their declaration.
    pub ident: Vec<u64>,
    /// Statements that go right after the statement being visited.
    pub extra_stmt: Vec<Stmt>,
    /// The names bound at the current point.
    pub scope_binding: IndexSet<String>,
    /// Whether every component must be remounted on every edit.
    pub should_reset: bool,
    /// The number of the next handle.
    pub next_handle: u64,
}

/// `handle = refresh_sig()`
pub open spec fn slot_decl(handle: u64, refresh_sig: Seq<char>) -> DeclV {
    DeclV {
        name: PatV::Handle(handle),
        text: None,
        init: Some(ExprV::Call(Box::new(ExprV::Ident(refresh_sig)), seq![])),
    }
}

/// `var h1 = refresh_sig(), h2 = refresh_sig(), ...;`
pub open spec fn handle_decl(handles: Seq<u64>, refresh_sig: Seq<char>) -> StmtV {
    StmtV::Var(VarKind::Var, handles.map_values(|h: u64| slot_decl(h, refresh_sig)))
}

/// The options, the reset baseline and the bound names are the same.
pub open spec fn keeps_config(a: HookRegister, b: HookRegister) -> bool {
    a.options == b.options && a.should_reset == b.should_reset && binding_names(a.scope_binding)
        == binding_names(b.scope_binding)
}

/// The pending handles and statements and the handle count are the same.
pub open spec fn keeps_pending(a: HookRegister, b: HookRegister) -> bool {
    a.ident@ == b.ident@ && a.extra_stmt@ == b.extra_stmt@ && a.next_handle == b.next_handle
}

impl HookRegister {
    /// The register call of a function with the given hooks, under the
    /// options and the names bound now.
    pub open spec fn registration(&self, handle: u64, func: ExprV, hs: Seq<HookV>) -> ExprV {
        register_call(
            handle,
            func,
            signature_of(hs, self.options.emit_full_signatures),
            force_reset(hs, binding_names(self.scope_binding), self.should_reset),
            scoped_customs(hs, binding_names(self.scope_binding)),
        )
    }

    pub fn new(options: RefreshOptions, should_reset: bool) -> (r: Self)
        ensures
            r.options == options,
            r.should_reset == should_reset,
            r.ident@ == Seq::<u64>::empty(),
            r.extra_stmt@ == Seq::<Stmt>::empty(),
            binding_names(r.scope_binding) == Seq::<Seq<char>>::empty(),
            r.next_handle == 0,
    {
        HookRegister {
            options,
            ident: Vec::new(),
            extra_stmt: Vec::new(),
            scope_binding: binding_set_new(),
            should_reset,
            next_handle: 0,
        }
    }

    /// The declaration of the pending handles, each initialized by a call of
    /// the slot-creating function; the pending handles are taken.
    pub fn gen_hook_handle(&mut self) -> (r: Stmt)
        ensures
            stmt_view(r) == handle_decl(old(self).ident@, old(self).options.refresh_sig@),
            final(self).ident@ == Seq::<u64>::empty(),
            keeps_config(*old(self), *final(self)),
            final(self).extra_stmt@ == old(self).extra_stmt@,
            final(self).next_handle == old(self).next_handle,
    {
        let ghost hs = self.ident@;
        let ghost sig = self.options.refresh_sig@;
        let mut decls: Vec<VarDeclarator> = Vec::new();
        let mut i: usize = 0;
        while i < self.ident.len()
            invariant
                i <= hs.len(),
                hs == self.ident@,
                sig == self.options.refresh_sig@,
                decls_view(decls@) == hs.subrange(0, i as int).map_values(
                    |h: u64| slot_decl(h, sig),
                ),
            decreases hs.len() - i,
        {
            let no_args: Vec<Arg> = Vec::new();
            assert(args_view(no_args@) =~= seq![]);
            let callee = Expr::Ident(self.options.refresh_sig.clone());
            assert(expr_view(callee) == ExprV::Ident(sig));
            let call = Expr::Call(Box::new(callee), no_args);
            assert(expr_view(call) == ExprV::Call(Box::new(ExprV::Ident(sig)), seq![]));
            let name = Pat::Handle(self.ident[i]);
            assert(pat_view(name) == PatV::Handle(hs[i as int]));
            let ghost prev = decls_view(decls@);
            decls.push(VarDeclarator { name, text: None, init: Some(call) });
            assert(decls_view(decls@) =~= prev.push(slot_decl(hs[i as int], sig)));
            i += 1;
            assert(decls_view(decls@) =~= hs.subrange(0, i as int).map_values(
                |h: u64| slot_decl(h, sig),
            ));
        }
        assert(hs.subrange(0, i as int) =~= hs);
        self.ident = Vec::new();
        Stmt::Var(VarDecl { kind: VarKind::Var, decls })
    }

    /// Wraps `func` in the register call of its handle.
    pub fn wrap_with_register(&self, handle: u64, func: Expr, hooks: Vec<Hook>) -> (r: Expr)
        ensures
            expr_view(r) == self.registration(handle, expr_view(func), hooks_view(hooks@)),
    {
        let sig = sign_hooks(&hooks, self.options.emit_full_signatures);
        let (force, customs) = classify_hooks(&hooks, &self.scope_binding, self.should_reset);
        build_register_call(handle, func, sig, force, customs)
    }

    /// Queues the handle's declaration and, after the current statement, the
    /// register call of the function bound to `ident`.
    pub fn gen_hook_register_stmt(&mut self, ident: String, sig: HookSig)
        ensures
            final(self).ident@ == old(self).ident@.push(sig.handle),
            stmts_view(final(self).extra_stmt@) == stmts_view(old(self).extra_stmt@).push(
                StmtV::Expr(
                    old(self).registration(sig.handle, ExprV::Ident(ident@), hooks_view(sig.hooks@)),
                ),
            ),
            keeps_config(*old(self), *final(self)),
            final(self).next_handle == old(self).next_handle,
    {
        let HookSig { handle, hooks } = sig;
        self.ident.push(handle);
        let func = Expr::Ident(ident);
        assert(expr_view(func) == ExprV::Ident(ident@));
        let call = self.wrap_with_register(handle, func, hooks);
        let ghost prev = stmts_view(self.extra_stmt@);
        self.extra_stmt.push(Stmt::Expr(call));
        assert(stmts_view(self.extra_stmt@) =~= prev.push(StmtV::Expr(expr_view(call))));
    }
}



impl HookRegister {
    /// Visits an expression: its parts first, then, where it is a function
    /// or arrow literal that calls hooks, marks its body and wraps it in
    /// place in its register call.
    fn visit_mut_expr(&mut self, e: Expr) -> (r: Expr)
        ensures
            (expr_view(r), pending_of(*final(self))) == rw_expr(config_of(*old(self)), binding_names(old(self).scope_binding), pending_of(*old(self)), expr_view(e)),
            keeps_config(*old(self), *final(self)),
            final(self).extra_stmt@ == old(self).extra_stmt@,
            no_hooks_expr(expr_view(e)) ==> expr_view(r) == expr_view(e) && keeps_pending(
                *old(self),
                *final(self),
            ),
        decreases e,
    {
        let ghost c = config_of(*self);
        let ghost ns = binding_names(self.scope_binding);
        let ghost entry = pending_of(*self);
        let ghost ev = expr_view(e);
        match e {
            Expr::Member(obj, prop) => {
                let ghost objv = expr_view(*obj);
                match prop {
                    MemberProp::Computed(x) => {
                        let ghost xv = expr_view(*x);
                        assert(ev == ExprV::Member(Box::new(objv), PropV::Computed(Box::new(xv))));
                        let o = self.visit_mut_expr(*obj);
                        let y = self.visit_mut_expr(*x);
                        let r = Expr::Member(Box::new(o), MemberProp::Computed(Box::new(y)));
                        assert(expr_view(r) == ExprV::Member(Box::new(expr_view(o)), PropV::Computed(Box::new(expr_view(y)))));
                        r
                    },
                    MemberProp::Ident(n) => {
                        assert(ev == ExprV::Member(Box::new(objv), PropV::Ident(n@)));
                        let o = self.visit_mut_expr(*obj);
                        let r = Expr::Member(Box::new(o), MemberProp::Ident(n));
                        assert(expr_view(r) == ExprV::Member(Box::new(expr_view(o)), PropV::Ident(n@)));
                        r
                    },
                }
            },
            Expr::Call(callee, args) => {
                let ghost cv = expr_view(*callee);
                let ghost av = args_view(args@);
                assert(ev == ExprV::Call(Box::new(cv), av));
                let c = self.visit_mut_expr(*callee);
                let a = self.visit_mut_args(args);
                let r = Expr::Call(Box::new(c), a);
                assert(expr_view(r) == ExprV::Call(Box::new(expr_view(c)), args_view(a@)));
                r
            },
            Expr::Fn(f) => {
                let ghost fv = fn_view(f);
                assert(ev == ExprV::Fn(fv));
                let FnLit { ident, body } = f;
                match body {
                    Some(ss) => {
                        let ghost sv = stmts_view(ss@);
                        assert(fv == FnV { ident: text_view(ident), body: Some(sv) });
                        assert(no_hooks_expr(ev) ==> no_hooks_fn(fv));
                        assert(no_hooks_fn(fv) ==> no_hooks_stmts(sv));
                        let ss = self.visit_mut_block_stmt(ss);
                        proof {
                            if no_hooks_expr(ev) {
                                lemma_no_hooks_stmts(sv);
                            }
                        }
                        self.wrap_fn_expr(ident, ss)
                    },
                    None => {
                        let r = Expr::Fn(FnLit { ident, body: None });
                        assert(expr_view(r) == ExprV::Fn(FnV { ident: text_view(ident), body: None }));
                        assert(fv == FnV { ident: text_view(ident), body: None });
                        r
                    },
                }
            },
            Expr::Arrow(b) => {
                let ghost bv0 = arrow_view(b);
                assert(ev == ExprV::Arrow(bv0));
                let b = self.visit_mut_arrow_body(b);
                proof {
                    if no_hooks_expr(ev) {
                        lemma_no_hooks_arrow(arrow_view(b));
                    }
                }
                self.wrap_arrow_expr(b)
            },
            Expr::Array(es) => Expr::Array(self.visit_mut_exprs(es)),
            Expr::Other(es) => Expr::Other(self.visit_mut_exprs(es)),
            other => other,
        }
    }

    fn visit_mut_arrow_body(&mut self, b: ArrowBody) -> (r: ArrowBody)
        ensures
            (arrow_view(r), pending_of(*final(self))) == rw_arrow(config_of(*old(self)), binding_names(old(self).scope_binding), pending_of(*old(self)), arrow_view(b)),
            keeps_config(*old(self), *final(self)),
            final(self).extra_stmt@ == old(self).extra_stmt@,
            no_hooks_expr(ExprV::Arrow(arrow_view(b))) ==> arrow_view(r) == arrow_view(b)
                && keeps_pending(*old(self), *final(self)),
        decreases b,
    {
        let ghost c = config_of(*self);
        let ghost ns = binding_names(self.scope_binding);
        let ghost entry = pending_of(*self);
        match b {
            ArrowBody::Block(ss) => {
                let ghost sv = stmts_view(ss@);
                assert(arrow_view(b) == ArrowV::Block(sv));
                let r = self.visit_mut_block_stmt(ss);
                let rb = ArrowBody::Block(r);
                assert(arrow_view(rb) == ArrowV::Block(stmts_view(r@)));
                rb
            },
            ArrowBody::Expr(x) => {
                let ghost xv = expr_view(*x);
                assert(arrow_view(b) == ArrowV::Expr(Box::new(xv)));
                let r = self.visit_mut_expr(*x);
                let rb = ArrowBody::Expr(Box::new(r));
                assert(arrow_view(rb) == ArrowV::Expr(Box::new(expr_view(r))));
                rb
            },
        }
    }

    fn visit_mut_exprs(&mut self, es: Vec<Expr>) -> (r: Vec<Expr>)
        ensures
            (exprs_view(r@), pending_of(*final(self))) == rw_exprs(config_of(*old(self)), binding_names(old(self).scope_binding), pending_of(*old(self)), exprs_view(es@)),
            keeps_config(*old(self), *final(self)),
            final(self).extra_stmt@ == old(self).extra_stmt@,
            no_hooks_exprs(exprs_view(es@))
                ==> exprs_view(r@) == exprs_view(es@) && keeps_pending(*old(self), *final(self)),
        decreases es,
    {
        let ghost c = config_of(*self);
        let ghost ns = binding_names(self.scope_binding);
        let ghost entry = pending_of(*self);
        let ghost orig = es;
        let ghost ov = exprs_view(es@);
        let ghost n = es@.len();
        let ghost free = no_hooks_exprs(ov);
        let mut rest = es;
        let mut out: Vec<Expr> = Vec::new();
        while rest.len() > 0
            invariant
                out@.len() + rest@.len() == n,
                n == orig@.len(),
                orig == es,
                ov == exprs_view(orig@),
                ov.len() == n,
                rest@ == orig@.subrange(out@.len() as int, n as int),
                keeps_config(*old(self), *self),
                self.extra_stmt@ == old(self).extra_stmt@,
                free == no_hooks_exprs(ov),
                c == config_of(*old(self)),
                ns == binding_names(old(self).scope_binding),
                entry == pending_of(*old(self)),
                (exprs_view(out@), pending_of(*self)) == rw_exprs(c, ns, entry, ov.subrange(0, out@.len() as int)),
                free ==> exprs_view(out@) == ov.subrange(0, out@.len() as int) && keeps_pending(
                    *old(self),
                    *self,
                ),
            decreases rest@.len(),
        {
            let ghost k = out@.len() as int;
            let ghost prev = exprs_view(out@);
            let x = rest.remove(0);
            assert(x == orig@[k]);
            assert(decreases_to!(orig => orig[k]));
            assert(ov[k] == expr_view(x));
            let y = self.visit_mut_expr(x);
            out.push(y);
            assert(rest@ =~= orig@.subrange(k + 1, n as int));
            assert(exprs_view(out@) =~= prev.push(expr_view(y)));
            assert(free ==> exprs_view(out@) =~= ov.subrange(0, k + 1));
            assert(ov.subrange(0, k + 1).drop_last() =~= ov.subrange(0, k));
        }
        assert(ov.subrange(0, n as int) =~= ov);
        out
    }

    fn visit_mut_args(&mut self, args: Vec<Arg>) -> (r: Vec<Arg>)
        ensures
            (args_view(r@), pending_of(*final(self))) == rw_args(config_of(*old(self)), binding_names(old(self).scope_binding), pending_of(*old(self)), args_view(args@)),
            keeps_config(*old(self), *final(self)),
            final(self).extra_stmt@ == old(self).extra_stmt@,
            no_hooks_args(args_view(args@))
                ==> args_view(r@) == args_view(args@) && keeps_pending(*old(self), *final(self)),
        decreases args,
    {
        let ghost c = config_of(*self);
        let ghost ns = binding_names(self.scope_binding);
        let ghost entry = pending_of(*self);
        let ghost orig = args;
        let ghost ov = args_view(args@);
        let ghost n = args@.len();
        let ghost free = no_hooks_args(ov);
        let mut rest = args;
        let mut out: Vec<Arg> = Vec::new();
        while rest.len() > 0
            invariant
                out@.len() + rest@.len() == n,
                n == orig@.len(),
                orig == args,
                ov == args_view(orig@),
                ov.len() == n,
                rest@ == orig@.subrange(out@.len() as int, n as int),
                keeps_config(*old(self), *self),
                self.extra_stmt@ == old(self).extra_stmt@,
                free == no_hooks_args(ov),
                c == config_of(*old(self)),
                ns == binding_names(old(self).scope_binding),
                entry == pending_of(*old(self)),
                (args_view(out@), pending_of(*self)) == rw_args(c, ns, entry, ov.subrange(0, out@.len() as int)),
                free ==> args_view(out@) == ov.subrange(0, out@.len() as int) && keeps_pending(
                    *old(self),
                    *self,
                ),
            decreases rest@.len(),
        {
            let ghost k = out@.len() as int;
            let ghost prev = args_view(out@);
            let a = rest.remove(0);
            assert(a == orig@[k]);
            assert(decreases_to!(orig => orig[k]));
            assert(ov[k].expr == expr_view(a.expr));
            let Arg { expr, text } = a;
            let y = self.visit_mut_expr(expr);
            out.push(Arg { expr: y, text });
            assert(rest@ =~= orig@.subrange(k + 1, n as int));
            assert(args_view(out@) =~= prev.push(ArgV { expr: expr_view(y), text: text_view(text) }));
            assert(free ==> args_view(out@) =~= ov.subrange(0, k + 1));
            assert(ov.subrange(0, k + 1).drop_last() =~= ov.subrange(0, k));
        }
        assert(ov.subrange(0, n as int) =~= ov);
        out
    }
}


/// The handle number that follows `h`.
pub open spec fn next_after(h: u64) -> u64 {
    if h < u64::MAX {
        (h + 1) as u64
    } else {
        0
    }
}

/// The binding names after inserting `n`; a name already held keeps its
/// place.
pub open spec fn insert_name(n: Seq<char>, ns: Seq<Seq<char>>) -> Seq<Seq<char>> {
    if ns.contains(n) {
        ns
    } else {
        ns.push(n)
    }
}

/// The binding names after inserting `ns` in order; a name already held
/// keeps its place.
pub open spec fn insert_all(names: Seq<Seq<char>>, ns: Seq<Seq<char>>) -> Seq<Seq<char>>
    decreases ns.len(),
{
    if ns.len() == 0 {
        names
    } else {
        insert_name(ns.last(), insert_all(names, ns.drop_last()))
    }
}

/// The names that a binding pattern binds.
pub open spec fn pat_names(p: PatV) -> Seq<Seq<char>> {
    match p {
        PatV::Ident(n) => seq![n],
        PatV::Handle(_) => seq![],
        PatV::Other(ns) => ns,
    }
}

pub open spec fn decls_names(ds: Seq<DeclV>) -> Seq<Seq<char>>
    decreases ds.len(),
{
    if ds.len() == 0 {
        seq![]
    } else {
        decls_names(ds.drop_last()) + pat_names(ds.last().name)
    }
}

/// The names that a statement declares directly in its block.
pub open spec fn stmt_names(s: StmtV) -> Seq<Seq<char>> {
    match s {
        StmtV::FnDecl(n, _) => seq![n],
        StmtV::DefaultFn(f) => match f.ident {
            Some(n) => seq![n],
            None => seq![],
        },
        StmtV::Var(_, ds) => decls_names(ds),
        _ => seq![],
    }
}

/// The names that the statements of a block declare directly, in order.
pub open spec fn block_names(ss: Seq<StmtV>) -> Seq<Seq<char>>
    decreases ss.len(),
{
    if ss.len() == 0 {
        seq![]
    } else {
        block_names(ss.drop_last()) + stmt_names(ss.last())
    }
}

pub proof fn lemma_insert_all_concat(names: Seq<Seq<char>>, a: Seq<Seq<char>>, b: Seq<Seq<char>>)
    ensures
        insert_all(names, a + b) == insert_all(insert_all(names, a), b),
    decreases b.len(),
{
    if b.len() == 0 {
        assert(a + b =~= a);
    } else {
        assert((a + b).drop_last() =~= a + b.drop_last());
        lemma_insert_all_concat(names, a, b.drop_last());
    }
}

pub proof fn lemma_insert_all_prefix(names: Seq<Seq<char>>, ns: Seq<Seq<char>>)
    ensures
        insert_all(names, ns).len() >= names.len(),
        insert_all(names, ns).subrange(0, names.len() as int) == names,
    decreases ns.len(),
{
    if ns.len() > 0 {
        lemma_insert_all_prefix(names, ns.drop_last());
        let m = insert_all(names, ns.drop_last());
        assert(m.push(ns.last()).subrange(0, names.len() as int) =~= m.subrange(0, names.len() as int));
    }
}

fn bump(h: u64) -> (r: u64)
    ensures
        r == next_after(h),
{
    if h < u64::MAX {
        h + 1
    } else {
        0
    }
}

/// What the pass leaves pending: the handles still to declare, the
/// statements still to place, and the number of the next handle.
pub struct Pending {
    pub ident: Seq<u64>,
    pub extra: Seq<StmtV>,
    pub next: u64,
}

/// What the pass reads and never changes.
pub struct Config {
    pub full: bool,
    pub refresh_sig: Seq<char>,
    pub should_reset: bool,
}

pub open spec fn pending_of(r: HookRegister) -> Pending {
    Pending { ident: r.ident@, extra: stmts_view(r.extra_stmt@), next: r.next_handle }
}

pub open spec fn config_of(r: HookRegister) -> Config {
    Config {
        full: r.options.emit_full_signatures,
        refresh_sig: r.options.refresh_sig@,
        should_reset: r.should_reset,
    }
}

/// The register call of a function with hooks `hs`, under the names `ns`.
pub open spec fn reg_call(c: Config, ns: Seq<Seq<char>>, h: u64, func: ExprV, hs: Seq<HookV>) -> ExprV {
    register_call(
        h,
        func,
        signature_of(hs, c.full),
        force_reset(hs, ns, c.should_reset),
        scoped_customs(hs, ns),
    )
}

/// A function literal after its body was visited: wrapped in place where
/// the body calls hooks.
pub open spec fn wrap_fn_spec(c: Config, ns: Seq<Seq<char>>, p: Pending, ident: Option<Seq<char>>, body: Seq<StmtV>) -> (ExprV, Pending) {
    let hs = hooks_in_stmts(body);
    let h = p.next;
    if hs.len() == 0 {
        (ExprV::Fn(FnV { ident, body: Some(body) }), p)
    } else {
        (
            reg_call(c, ns, h, ExprV::Fn(FnV { ident, body: Some(seq![marker_stmt(h)] + body) }), hs),
            Pending { ident: p.ident.push(h), extra: p.extra, next: next_after(h) },
        )
    }
}

/// An arrow function after its body was visited: wrapped in place where
/// the body calls hooks.
pub open spec fn wrap_arrow_spec(c: Config, ns: Seq<Seq<char>>, p: Pending, b: ArrowV) -> (ExprV, Pending) {
    let hs = hooks_in_arrow(b);
    let h = p.next;
    if hs.len() == 0 {
        (ExprV::Arrow(b), p)
    } else {
        (
            reg_call(c, ns, h, ExprV::Arrow(marked_arrow(b, h)), hs),
            Pending { ident: p.ident.push(h), extra: p.extra, next: next_after(h) },
        )
    }
}

/// A function body bound to `name`, after it was visited: marked, with the
/// register call of the name queued, where it calls hooks.
pub open spec fn register_fn_spec(c: Config, ns: Seq<Seq<char>>, p: Pending, name: Seq<char>, body: Seq<StmtV>) -> (Seq<StmtV>, Pending) {
    let hs = hooks_in_stmts(body);
    let h = p.next;
    if hs.len() == 0 {
        (body, p)
    } else {
        (
            seq![marker_stmt(h)] + body,
            Pending {
                ident: p.ident.push(h),
                extra: p.extra.push(StmtV::Expr(reg_call(c, ns, h, ExprV::Ident(name), hs))),
                next: next_after(h),
            },
        )
    }
}

/// An arrow function body bound to `name`, after it was visited: marked,
/// with the register call of the name queued, where it calls hooks.
pub open spec fn register_arrow_spec(c: Config, ns: Seq<Seq<char>>, p: Pending, name: Seq<char>, b: ArrowV) -> (ArrowV, Pending) {
    let hs = hooks_in_arrow(b);
    let h = p.next;
    if hs.len() == 0 {
        (b, p)
    } else {
        (
            marked_arrow(b, h),
            Pending {
                ident: p.ident.push(h),
                extra: p.extra.push(StmtV::Expr(reg_call(c, ns, h, ExprV::Ident(name), hs))),
                next: next_after(h),
            },
        )
    }
}

/// The pending state inside a new block.
pub open spec fn block_start(p: Pending) -> Pending {
    Pending { ident: seq![], extra: seq![], next: p.next }
}

/// A block after its statements were visited: its handles declared at its
/// top, and the outer pending state back.
pub open spec fn block_finish(c: Config, p: Pending, r: (Seq<StmtV>, Pending)) -> (Seq<StmtV>, Pending) {
    (
        if r.1.ident.len() > 0 {
            seq![handle_decl(r.1.ident, c.refresh_sig)] + r.0
        } else {
            r.0
        },
        Pending { ident: p.ident, extra: p.extra, next: r.1.next },
    )
}

/// The rewrite of an expression under the names `ns`.
pub open spec fn rw_expr(c: Config, ns: Seq<Seq<char>>, p: Pending, e: ExprV) -> (ExprV, Pending)
    decreases e,
{
    match e {
        ExprV::Member(obj, prop) => {
            let o = rw_expr(c, ns, p, *obj);
            match prop {
                PropV::Computed(x) => {
                    let y = rw_expr(c, ns, o.1, *x);
                    (ExprV::Member(Box::new(o.0), PropV::Computed(Box::new(y.0))), y.1)
                },
                PropV::Ident(n) => (ExprV::Member(Box::new(o.0), PropV::Ident(n)), o.1),
            }
        },
        ExprV::Call(callee, args) => {
            let cc = rw_expr(c, ns, p, *callee);
            let aa = rw_args(c, ns, cc.1, args);
            (ExprV::Call(Box::new(cc.0), aa.0), aa.1)
        },
        ExprV::Fn(f) => match f.body {
            Some(ss) => {
                let b = block_finish(c, p, rw_block_body(c, insert_all(ns, block_names(ss)), block_start(p), ss));
                wrap_fn_spec(c, ns, b.1, f.ident, b.0)
            },
            None => (e, p),
        },
        ExprV::Arrow(b) => {
            let r = rw_arrow(c, ns, p, b);
            wrap_arrow_spec(c, ns, r.1, r.0)
        },
        ExprV::Array(es) => {
            let r = rw_exprs(c, ns, p, es);
            (ExprV::Array(r.0), r.1)
        },
        ExprV::Other(es) => {
            let r = rw_exprs(c, ns, p, es);
            (ExprV::Other(r.0), r.1)
        },
        _ => (e, p),
    }
}

pub open spec fn rw_arrow(c: Config, ns: Seq<Seq<char>>, p: Pending, b: ArrowV) -> (ArrowV, Pending)
    decreases b,
{
    match b {
        ArrowV::Block(ss) => {
            let r = block_finish(c, p, rw_block_body(c, insert_all(ns, block_names(ss)), block_start(p), ss));
            (ArrowV::Block(r.0), r.1)
        },
        ArrowV::Expr(x) => {
            let r = rw_expr(c, ns, p, *x);
            (ArrowV::Expr(Box::new(r.0)), r.1)
        },
    }
}

pub open spec fn rw_exprs(c: Config, ns: Seq<Seq<char>>, p: Pending, es: Seq<ExprV>) -> (Seq<ExprV>, Pending)
    decreases es,
{
    if es.len() == 0 {
        (seq![], p)
    } else {
        let front = rw_exprs(c, ns, p, es.drop_last());
        let x = rw_expr(c, ns, front.1, es.last());
        (front.0.push(x.0), x.1)
    }
}

pub open spec fn rw_args(c: Config, ns: Seq<Seq<char>>, p: Pending, args: Seq<ArgV>) -> (Seq<ArgV>, Pending)
    decreases args,
{
    if args.len() == 0 {
        (seq![], p)
    } else {
        let front = rw_args(c, ns, p, args.drop_last());
        let x = rw_expr(c, ns, front.1, args.last().expr);
        (front.0.push(ArgV { expr: x.0, text: args.last().text }), x.1)
    }
}

/// The statements of a block visited in order under the block's names, each
/// followed by the register calls that it queued.
pub open spec fn rw_block_body(c: Config, ns: Seq<Seq<char>>, p: Pending, ss: Seq<StmtV>) -> (Seq<StmtV>, Pending)
    decreases ss,
{
    if ss.len() == 0 {
        (seq![], p)
    } else {
        let front = rw_block_body(c, ns, p, ss.drop_last());
        let y = rw_stmt(c, ns, front.1, ss.last());
        (front.0.push(y.0) + y.1.extra, Pending { ident: y.1.ident, extra: seq![], next: y.1.next })
    }
}

pub open spec fn rw_stmts(c: Config, ns: Seq<Seq<char>>, p: Pending, ss: Seq<StmtV>) -> (Seq<StmtV>, Pending)
    decreases ss,
{
    if ss.len() == 0 {
        (seq![], p)
    } else {
        let front = rw_stmts(c, ns, p, ss.drop_last());
        let y = rw_stmt(c, ns, front.1, ss.last());
        (front.0.push(y.0), y.1)
    }
}

pub open spec fn rw_stmt(c: Config, ns: Seq<Seq<char>>, p: Pending, s: StmtV) -> (StmtV, Pending)
    decreases s,
{
    match s {
        StmtV::Expr(e) => {
            let r = rw_expr(c, ns, p, e);
            (StmtV::Expr(r.0), r.1)
        },
        StmtV::Var(k, ds) => {
            let r = rw_decls(c, ns, p, ds);
            (StmtV::Var(k, r.0), r.1)
        },
        StmtV::FnDecl(n, f) => match f.body {
            Some(ss) => {
                let b = block_finish(c, p, rw_block_body(c, insert_all(ns, block_names(ss)), block_start(p), ss));
                let r = register_fn_spec(c, ns, b.1, n, b.0);
                (StmtV::FnDecl(n, FnV { ident: f.ident, body: Some(r.0) }), r.1)
            },
            None => (s, p),
        },
        StmtV::DefaultFn(f) => match f.body {
            Some(ss) => {
                let b = block_finish(c, p, rw_block_body(c, insert_all(ns, block_names(ss)), block_start(p), ss));
                match f.ident {
                    Some(n) => {
                        let r = register_fn_spec(c, ns, b.1, n, b.0);
                        (StmtV::DefaultFn(FnV { ident: f.ident, body: Some(r.0) }), r.1)
                    },
                    None => (StmtV::DefaultFn(FnV { ident: f.ident, body: Some(b.0) }), b.1),
                }
            },
            None => (s, p),
        },
        StmtV::Return(a) => match a {
            Some(e) => {
                let r = rw_expr(c, ns, p, e);
                (StmtV::Return(Some(r.0)), r.1)
            },
            None => (s, p),
        },
        StmtV::Block(ss) => {
            let b = block_finish(c, p, rw_block_body(c, insert_all(ns, block_names(ss)), block_start(p), ss));
            (StmtV::Block(b.0), b.1)
        },
        StmtV::Other(es, ss) => {
            let a = rw_exprs(c, ns, p, es);
            let b = rw_stmts(c, ns, a.1, ss);
            (StmtV::Other(a.0, b.0), b.1)
        },
    }
}

pub open spec fn rw_decls(c: Config, ns: Seq<Seq<char>>, p: Pending, ds: Seq<DeclV>) -> (Seq<DeclV>, Pending)
    decreases ds,
{
    if ds.len() == 0 {
        (seq![], p)
    } else {
        let front = rw_decls(c, ns, p, ds.drop_last());
        let d = rw_decl(c, ns, front.1, ds.last());
        (front.0.push(d.0), d.1)
    }
}

/// A declarator that binds a single name to a function or arrow literal
/// keeps the literal, and registers it under the name.
pub open spec fn rw_decl(c: Config, ns: Seq<Seq<char>>, p: Pending, d: DeclV) -> (DeclV, Pending)
    decreases d,
{
    match d.init {
        None => (d, p),
        Some(e) => {
            let r = match d.name {
                PatV::Ident(n) => if e is Fn || e is Arrow {
                    rw_named_init(c, ns, p, n, e)
                } else {
                    rw_expr(c, ns, p, e)
                },
                _ => rw_expr(c, ns, p, e),
            };
            (DeclV { name: d.name, text: d.text, init: Some(r.0) }, r.1)
        },
    }
}

/// The rewrite of a function or arrow literal bound to the name `n`.
pub open spec fn rw_named_init(c: Config, ns: Seq<Seq<char>>, p: Pending, n: Seq<char>, e: ExprV) -> (ExprV, Pending)
    decreases e,
{
    match e {
        ExprV::Fn(f) => match f.body {
            Some(ss) => {
                let b = block_finish(c, p, rw_block_body(c, insert_all(ns, block_names(ss)), block_start(p), ss));
                let g = register_fn_spec(c, ns, b.1, n, b.0);
                (ExprV::Fn(FnV { ident: f.ident, body: Some(g.0) }), g.1)
            },
            None => (e, p),
        },
        ExprV::Arrow(b) => {
            let a = rw_arrow(c, ns, p, b);
            let g = register_arrow_spec(c, ns, a.1, n, a.0);
            (ExprV::Arrow(g.0), g.1)
        },
        _ => (e, p),
    }
}

pub open spec fn decl_v(x: VarDeclarator) -> DeclV {
    DeclV {
        name: pat_view(x.name),
        text: text_view(x.text),
        init: match x.init {
            Some(e) => Some(expr_view(e)),
            None => None,
        },
    }
}

/// The rewrite of a block under the names `ns`.
pub open spec fn rw_block(c: Config, ns: Seq<Seq<char>>, p: Pending, ss: Seq<StmtV>) -> (Seq<StmtV>, Pending) {
    block_finish(c, p, rw_block_body(c, insert_all(ns, block_names(ss)), block_start(p), ss))
}

impl HookRegister {
    fn bind_names(&mut self, ns: &Vec<String>)
        ensures
            binding_names(final(self).scope_binding) == insert_all(
                binding_names(old(self).scope_binding),
                names_view(ns@),
            ),
            final(self).options == old(self).options,
            final(self).should_reset == old(self).should_reset,
            keeps_pending(*old(self), *final(self)),
    {
        let ghost start = binding_names(self.scope_binding);
        let ghost nv = names_view(ns@);
        let mut i: usize = 0;
        while i < ns.len()
            invariant
                i <= ns@.len(),
                nv == names_view(ns@),
                binding_names(self.scope_binding) == insert_all(start, nv.subrange(0, i as int)),
                self.options == old(self).options,
                self.should_reset == old(self).should_reset,
                keeps_pending(*old(self), *self),
            decreases ns@.len() - i,
        {
            binding_insert(&mut self.scope_binding, ns[i].clone());
            assert(nv.subrange(0, i + 1).drop_last() =~= nv.subrange(0, i as int));
            i += 1;
        }
        assert(nv.subrange(0, i as int) =~= nv);
    }

    /// Binds the names that the statements of a block declare directly.
    fn bind_block_names(&mut self, stmts: &Vec<Stmt>)
        ensures
            binding_names(final(self).scope_binding) == insert_all(
                binding_names(old(self).scope_binding),
                block_names(stmts_view(stmts@)),
            ),
            final(self).options == old(self).options,
            final(self).should_reset == old(self).should_reset,
            keeps_pending(*old(self), *final(self)),
    {
        let ghost start = binding_names(self.scope_binding);
        let ghost sv = stmts_view(stmts@);
        let mut i: usize = 0;
        while i < stmts.len()
            invariant
                i <= stmts@.len(),
                sv == stmts_view(stmts@),
                sv.len() == stmts@.len(),
                binding_names(self.scope_binding) == insert_all(start, block_names(sv.subrange(0, i as int))),
                self.options == old(self).options,
                self.should_reset == old(self).should_reset,
                keeps_pending(*old(self), *self),
            decreases stmts@.len() - i,
        {
            let ns = stmt_bound_names(&stmts[i]);
            let ghost before = binding_names(self.scope_binding);
            self.bind_names(&ns);
            proof {
                let pre = block_names(sv.subrange(0, i as int));
                assert(sv.subrange(0, i + 1).drop_last() =~= sv.subrange(0, i as int));
                lemma_insert_all_concat(start, pre, stmt_names(sv[i as int]));
            }
            i += 1;
        }
        assert(sv.subrange(0, i as int) =~= sv);
    }

    /// Marks a function body that calls hooks and wraps the function in
    /// place in its register call; a body without hook calls is left as it
    /// is.
    fn wrap_fn_expr(&mut self, ident: Option<String>, body: Vec<Stmt>) -> (r: Expr)
        ensures
            (expr_view(r), pending_of(*final(self))) == wrap_fn_spec(config_of(*old(self)), binding_names(old(self).scope_binding), pending_of(*old(self)), text_view(ident), stmts_view(body@)),
            keeps_config(*old(self), *final(self)),
            final(self).extra_stmt@ == old(self).extra_stmt@,
            ({
                let hs = hooks_in_stmts(stmts_view(body@));
                let h = old(self).next_handle;
                if hs.len() == 0 {
                    expr_view(r) == ExprV::Fn(FnV { ident: text_view(ident), body: Some(stmts_view(body@)) })
                        && keeps_pending(*old(self), *final(self))
                } else {
                    expr_view(r) == old(self).registration(
                        h,
                        ExprV::Fn(FnV { ident: text_view(ident), body: Some(seq![marker_stmt(h)] + stmts_view(body@)) }),
                        hs,
                    ) && final(self).ident@ == old(self).ident@.push(h) && final(self).next_handle
                        == next_after(h)
                }
            }),
    {
        let mut body = body;
        let ghost bv = stmts_view(body@);
        let h = self.next_handle;
        match collect_hooks(&mut body, h) {
            Some(sig) => {
                self.next_handle = bump(h);
                self.ident.push(h);
                let f = FnLit { ident, body: Some(body) };
                assert(fn_view(f) == FnV { ident: text_view(ident), body: Some(seq![marker_stmt(h)] + bv) });
                let func = Expr::Fn(f);
                self.wrap_with_register(h, func, sig.hooks)
            },
            None => {
                let f = FnLit { ident, body: Some(body) };
                assert(fn_view(f) == FnV { ident: text_view(ident), body: Some(bv) });
                Expr::Fn(f)
            },
        }
    }

    /// Marks an arrow function body that calls hooks and wraps the function
    /// in place in its register call; a body without hook calls is left as
    /// it is.
    fn wrap_arrow_expr(&mut self, body: ArrowBody) -> (r: Expr)
        ensures
            (expr_view(r), pending_of(*final(self))) == wrap_arrow_spec(config_of(*old(self)), binding_names(old(self).scope_binding), pending_of(*old(self)), arrow_view(body)),
            keeps_config(*old(self), *final(self)),
            final(self).extra_stmt@ == old(self).extra_stmt@,
            ({
                let hs = hooks_in_arrow(arrow_view(body));
                let h = old(self).next_handle;
                if hs.len() == 0 {
                    expr_view(r) == ExprV::Arrow(arrow_view(body)) && keeps_pending(*old(self), *final(self))
                } else {
                    expr_view(r) == old(self).registration(h, ExprV::Arrow(marked_arrow(arrow_view(body), h)), hs)
                        && final(self).ident@ == old(self).ident@.push(h) && final(self).next_handle
                        == next_after(h)
                }
            }),
    {
        let h = self.next_handle;
        let (b, sig) = collect_hooks_arrow(body, h);
        match sig {
            Some(sig) => {
                self.next_handle = bump(h);
                self.ident.push(h);
                self.wrap_with_register(h, Expr::Arrow(b), sig.hooks)
            },
            None => Expr::Arrow(b),
        }
    }

    /// Marks the body of the function bound to `name` where it calls hooks,
    /// and queues its register call after the current statement.
    pub fn register_named_fn(&mut self, name: &String, body: &mut Vec<Stmt>)
        ensures
            (stmts_view(final(body)@), pending_of(*final(self))) == register_fn_spec(config_of(*old(self)), binding_names(old(self).scope_binding), pending_of(*old(self)), name@, stmts_view(old(body)@)),
            keeps_config(*old(self), *final(self)),
            ({
                let hs = hooks_in_stmts(stmts_view(old(body)@));
                let h = old(self).next_handle;
                if hs.len() == 0 {
                    final(body)@ == old(body)@ && keeps_pending(*old(self), *final(self))
                } else {
                    stmts_view(final(body)@) == seq![marker_stmt(h)] + stmts_view(old(body)@)
                        && final(self).ident@ == old(self).ident@.push(h)
                        && stmts_view(final(self).extra_stmt@) == stmts_view(old(self).extra_stmt@).push(
                        StmtV::Expr(old(self).registration(h, ExprV::Ident(name@), hs)),
                    ) && final(self).next_handle == next_after(h)
                }
            }),
    {
        let h = self.next_handle;
        match collect_hooks(body, h) {
            Some(sig) => {
                self.gen_hook_register_stmt(name.clone(), sig);
                self.next_handle = bump(h);
            },
            None => {},
        }
    }

    /// Marks the body of the arrow function bound to `name` where it calls
    /// hooks, and queues its register call after the current statement.
    pub fn register_named_arrow(&mut self, name: &String, body: ArrowBody) -> (r: ArrowBody)
        ensures
            (arrow_view(r), pending_of(*final(self))) == register_arrow_spec(config_of(*old(self)), binding_names(old(self).scope_binding), pending_of(*old(self)), name@, arrow_view(body)),
            keeps_config(*old(self), *final(self)),
            ({
                let hs = hooks_in_arrow(arrow_view(body));
                let h = old(self).next_handle;
                if hs.len() == 0 {
                    arrow_view(r) == arrow_view(body) && keeps_pending(*old(self), *final(self))
                } else {
                    arrow_view(r) == marked_arrow(arrow_view(body), h)
                        && final(self).ident@ == old(self).ident@.push(h)
                        && stmts_view(final(self).extra_stmt@) == stmts_view(old(self).extra_stmt@).push(
                        StmtV::Expr(old(self).registration(h, ExprV::Ident(name@), hs)),
                    ) && final(self).next_handle == next_after(h)
                }
            }),
    {
        let h = self.next_handle;
        let (b, sig) = collect_hooks_arrow(body, h);
        match sig {
            Some(sig) => {
                self.gen_hook_register_stmt(name.clone(), sig);
                self.next_handle = bump(h);
            },
            None => {},
        }
        b
    }
}

/// The names that a statement declares directly in its block.
fn stmt_bound_names(s: &Stmt) -> (r: Vec<String>)
    ensures
        names_view(r@) == stmt_names(stmt_view(*s)),
{
    let mut out: Vec<String> = Vec::new();
    match s {
        Stmt::FnDecl(n, _) => {
            out.push(n.clone());
            assert(names_view(out@) =~= stmt_names(stmt_view(*s)));
        },
        Stmt::DefaultFn(f) => {
            match &f.ident {
                Some(n) => out.push(n.clone()),
                None => {},
            }
            assert(names_view(out@) =~= stmt_names(stmt_view(*s)));
        },
        Stmt::Var(d) => {
            let ghost dv = decls_view(d.decls@);
            let mut i: usize = 0;
            while i < d.decls.len()
                invariant
                    i <= d.decls@.len(),
                    dv == decls_view(d.decls@),
                    dv.len() == d.decls@.len(),
                    names_view(out@) == decls_names(dv.subrange(0, i as int)),
                decreases d.decls@.len() - i,
            {
                let ghost prev = names_view(out@);
                match &d.decls[i].name {
                    Pat::Ident(n) => out.push(n.clone()),
                    Pat::Handle(_) => {},
                    Pat::Other(ns) => {
                        let mut j: usize = 0;
                        while j < ns.len()
                            invariant
                                j <= ns@.len(),
                                names_view(out@) == prev + names_view(ns@.subrange(0, j as int)),
                            decreases ns@.len() - j,
                        {
                            let ghost before = out@;
                            out.push(ns[j].clone());
                            assert(names_view(ns@.subrange(0, j + 1)) =~= names_view(ns@.subrange(0, j as int)).push(ns@[j as int]@));
                            assert(names_view(out@) =~= names_view(before).push(ns@[j as int]@));
                            j += 1;
                            assert(names_view(out@) =~= prev + names_view(ns@.subrange(0, j as int)));
                        }
                        assert(ns@.subrange(0, j as int) =~= ns@);
                    },
                }
                assert(dv.subrange(0, i + 1).drop_last() =~= dv.subrange(0, i as int));
                assert(names_view(out@) =~= prev + pat_names(dv[i as int].name));
                i += 1;
            }
            assert(dv.subrange(0, i as int) =~= dv);
        },
        _ => {
            assert(names_view(out@) =~= stmt_names(stmt_view(*s)));
        },
    }
    out
}



impl HookRegister {
    /// Visits a block: binds the names that its statements declare for the
    /// time of the block, visits each statement with the names bound by the
    /// statements before it dropped again, puts each statement's queued
    /// register calls right after it, and declares the block's handles in a
    /// statement of its own at its top.
    pub fn visit_mut_block_stmt(&mut self, stmts: Vec<Stmt>) -> (r: Vec<Stmt>)
        ensures
            (stmts_view(r@), pending_of(*final(self))) == rw_block(config_of(*old(self)), binding_names(old(self).scope_binding), pending_of(*old(self)), stmts_view(stmts@)),
            keeps_config(*old(self), *final(self)),
            final(self).ident@ == old(self).ident@,
            final(self).extra_stmt@ == old(self).extra_stmt@,
            no_hooks_stmts(stmts_view(stmts@))
                ==> stmts_view(r@) == stmts_view(stmts@) && final(self).next_handle == old(
                self,
            ).next_handle,
        decreases stmts,
    {
        let ghost c = config_of(*self);
        let ghost ns = binding_names(self.scope_binding);
        let ghost entry = pending_of(*self);
        let ghost names0 = binding_names(self.scope_binding);
        let orig_binding = binding_len(&self.scope_binding);
        self.bind_block_names(&stmts);
        proof {
            lemma_insert_all_prefix(names0, block_names(stmts_view(stmts@)));
        }
        let ghost bound = binding_names(self.scope_binding);
        let current_binding = binding_len(&self.scope_binding);
        let mut old_ident: Vec<u64> = Vec::new();
        std::mem::swap(&mut old_ident, &mut self.ident);
        let mut old_stmts: Vec<Stmt> = Vec::new();
        std::mem::swap(&mut old_stmts, &mut self.extra_stmt);
        let ghost orig = stmts;
        let ghost ov = stmts_view(stmts@);
        let ghost n = stmts@.len();
        let ghost free = no_hooks_stmts(ov);
        let ghost handle0 = self.next_handle;
        let mut rest = stmts;
        let mut out: Vec<Stmt> = Vec::new();
        let mut done: usize = 0;
        while rest.len() > 0
            invariant
                done + rest@.len() == n,
                n == orig.len(),
                orig == stmts,
                ov == stmts_view(orig@),
                ov.len() == n,
                rest@ == orig@.subrange(done as int, n as int),
                binding_names(self.scope_binding) == bound,
                current_binding == bound.len(),
                self.options == old(self).options,
                self.should_reset == old(self).should_reset,
                self.extra_stmt@ == Seq::<Stmt>::empty(),
                free == no_hooks_stmts(ov),
                c == config_of(*old(self)),
                ns == binding_names(old(self).scope_binding),
                entry == pending_of(*old(self)),
                bound == insert_all(ns, block_names(ov)),
                (stmts_view(out@), pending_of(*self)) == rw_block_body(c, bound, block_start(entry), ov.subrange(0, done as int)),
                free ==> stmts_view(out@) == ov.subrange(0, done as int) && self.ident@ == Seq::<
                    u64,
                >::empty() && self.next_handle == handle0,
            decreases rest@.len(),
        {
            let ghost prev = stmts_view(out@);
            let x = rest.remove(0);
            assert(x == orig@[done as int]);
            assert(decreases_to!(orig => orig[done as int]));
            assert(ov[done as int] == stmt_view(x));
            let ghost pb = pending_of(*self);
            let y = self.visit_mut_stmt(x);
            let ghost pa = pending_of(*self);
            binding_truncate(&mut self.scope_binding, current_binding);
            let ghost old_out = out@;
            out.push(y);
            let ghost pushed = out@;
            let ghost extra = self.extra_stmt@;
            out.append(&mut self.extra_stmt);
            assert(stmts_view(out@) =~= stmts_view(pushed) + stmts_view(extra));
            assert(stmts_view(pushed) =~= stmts_view(old_out).push(stmt_view(y)));
            assert(stmts_view(self.extra_stmt@) =~= Seq::<StmtV>::empty());
            assert(ov.subrange(0, done + 1).drop_last() =~= ov.subrange(0, done as int));
            assert(free ==> out@ =~= pushed);
            assert(rest@ =~= orig@.subrange(done + 1, n as int));
            assert(free ==> stmts_view(pushed) =~= prev.push(stmt_view(y)));
            done += 1;
            assert(free ==> stmts_view(out@) =~= ov.subrange(0, done as int));
        }
        assert(ov.subrange(0, n as int) =~= ov);
        let ghost body_out = stmts_view(out@);
        let ghost q = pending_of(*self);
        if self.ident.len() > 0 {
            let d = self.gen_hook_handle();
            let ghost before = out@;
            out.insert(0, d);
            assert(stmts_view(out@) =~= seq![stmt_view(d)] + stmts_view(before));
        }
        binding_truncate(&mut self.scope_binding, orig_binding);
        assert(binding_names(self.scope_binding) =~= names0);
        self.ident = old_ident;
        self.extra_stmt = old_stmts;
        assert(rw_block_body(c, bound, block_start(entry), ov) == (body_out, q));
        out
    }

    fn visit_mut_stmts(&mut self, ss: Vec<Stmt>) -> (r: Vec<Stmt>)
        ensures
            (stmts_view(r@), pending_of(*final(self))) == rw_stmts(config_of(*old(self)), binding_names(old(self).scope_binding), pending_of(*old(self)), stmts_view(ss@)),
            keeps_config(*old(self), *final(self)),
            no_hooks_stmts(stmts_view(ss@))
                ==> stmts_view(r@) == stmts_view(ss@) && keeps_pending(*old(self), *final(self)),
        decreases ss,
    {
        let ghost c = config_of(*self);
        let ghost ns = binding_names(self.scope_binding);
        let ghost entry = pending_of(*self);
        let ghost orig = ss;
        let ghost ov = stmts_view(ss@);
        let ghost n = ss@.len();
        let ghost free = no_hooks_stmts(ov);
        let mut rest = ss;
        let mut out: Vec<Stmt> = Vec::new();
        while rest.len() > 0
            invariant
                out@.len() + rest@.len() == n,
                n == orig@.len(),
                orig == ss,
                ov == stmts_view(orig@),
                ov.len() == n,
                rest@ == orig@.subrange(out@.len() as int, n as int),
                keeps_config(*old(self), *self),
                free == no_hooks_stmts(ov),
                c == config_of(*old(self)),
                ns == binding_names(old(self).scope_binding),
                entry == pending_of(*old(self)),
                (stmts_view(out@), pending_of(*self)) == rw_stmts(c, ns, entry, ov.subrange(0, out@.len() as int)),
                free ==> stmts_view(out@) == ov.subrange(0, out@.len() as int) && keeps_pending(
                    *old(self),
                    *self,
                ),
            decreases rest@.len(),
        {
            let ghost k = out@.len() as int;
            let ghost prev = stmts_view(out@);
            let x = rest.remove(0);
            assert(x == orig@[k]);
            assert(decreases_to!(orig => orig[k]));
            assert(ov[k] == stmt_view(x));
            let y = self.visit_mut_stmt(x);
            out.push(y);
            assert(rest@ =~= orig@.subrange(k + 1, n as int));
            assert(stmts_view(out@) =~= prev.push(stmt_view(y)));
            assert(free ==> stmts_view(out@) =~= ov.subrange(0, k + 1));
            assert(ov.subrange(0, k + 1).drop_last() =~= ov.subrange(0, k));
        }
        assert(ov.subrange(0, n as int) =~= ov);
        out
    }

    /// Visits the parts of a statement.
    fn visit_mut_stmt(&mut self, s: Stmt) -> (r: Stmt)
        ensures
            (stmt_view(r), pending_of(*final(self))) == rw_stmt(config_of(*old(self)), binding_names(old(self).scope_binding), pending_of(*old(self)), stmt_view(s)),
            keeps_config(*old(self), *final(self)),
            no_hooks_stmt(stmt_view(s)) ==> stmt_view(r) == stmt_view(s) && keeps_pending(
                *old(self),
                *final(self),
            ),
        decreases s,
    {
        let ghost c = config_of(*self);
        let ghost ns = binding_names(self.scope_binding);
        let ghost entry = pending_of(*self);
        let ghost sv = stmt_view(s);
        match s {
            Stmt::Expr(e) => {
                let ghost ev = expr_view(e);
                assert(sv == StmtV::Expr(ev));
                let r = self.visit_mut_expr(e);
                assert(stmt_view(Stmt::Expr(r)) == StmtV::Expr(expr_view(r)));
                Stmt::Expr(r)
            },
            Stmt::Var(d) => Stmt::Var(self.visit_mut_var_decl(d)),
            Stmt::FnDecl(n, f) => {
                let f = self.visit_mut_fn_decl(&n, f);
                Stmt::FnDecl(n, f)
            },
            Stmt::DefaultFn(f) => Stmt::DefaultFn(self.visit_mut_default_decl(f)),
            Stmt::Return(a) => match a {
                Some(e) => Stmt::Return(Some(self.visit_mut_expr(e))),
                None => Stmt::Return(None),
            },
            Stmt::Block(ss) => Stmt::Block(self.visit_mut_block_stmt(ss)),
            Stmt::Other(es, ss) => {
                let es = self.visit_mut_exprs(es);
                let ss = self.visit_mut_stmts(ss);
                Stmt::Other(es, ss)
            },
        }
    }

    /// Visits a function declaration: its body first, then, where the body
    /// calls hooks, marks it and queues the register call of its name.
    pub fn visit_mut_fn_decl(&mut self, name: &String, f: FnLit) -> (r: FnLit)
        ensures
            (StmtV::FnDecl(name@, fn_view(r)), pending_of(*final(self))) == rw_stmt(config_of(*old(self)), binding_names(old(self).scope_binding), pending_of(*old(self)), StmtV::FnDecl(name@, fn_view(f))),
            keeps_config(*old(self), *final(self)),
            no_hooks_fn(fn_view(f)) ==> fn_view(r) == fn_view(f) && keeps_pending(*old(self), *final(self)),
        decreases f,
    {
        let ghost c = config_of(*self);
        let ghost ns = binding_names(self.scope_binding);
        let ghost entry = pending_of(*self);
        let ghost fv = fn_view(f);
        let FnLit { ident, body } = f;
        match body {
            Some(ss) => {
                let ghost sv = stmts_view(ss@);
                assert(fv == FnV { ident: text_view(ident), body: Some(sv) });
                let mut ss = self.visit_mut_block_stmt(ss);
                proof {
                    if no_hooks_fn(fv) {
                        lemma_no_hooks_stmts(sv);
                    }
                }
                self.register_named_fn(name, &mut ss);
                let r = FnLit { ident, body: Some(ss) };
                assert(fn_view(r) == FnV { ident: text_view(ident), body: Some(stmts_view(ss@)) });
                r
            },
            None => {
                let r = FnLit { ident, body: None };
                assert(fn_view(r) == FnV { ident: text_view(ident), body: None });
                r
            },
        }
    }

    /// Visits a default-exported function: its body first, then, where it
    /// has a name and its body calls hooks, marks the body and queues the
    /// register call of the name.
    fn visit_mut_default_decl(&mut self, f: FnLit) -> (r: FnLit)
        ensures
            (StmtV::DefaultFn(fn_view(r)), pending_of(*final(self))) == rw_stmt(config_of(*old(self)), binding_names(old(self).scope_binding), pending_of(*old(self)), StmtV::DefaultFn(fn_view(f))),
            keeps_config(*old(self), *final(self)),
            no_hooks_fn(fn_view(f)) ==> fn_view(r) == fn_view(f) && keeps_pending(*old(self), *final(self)),
        decreases f,
    {
        let ghost c = config_of(*self);
        let ghost ns = binding_names(self.scope_binding);
        let ghost entry = pending_of(*self);
        let ghost fv = fn_view(f);
        let FnLit { ident, body } = f;
        match body {
            Some(ss) => {
                let ghost sv = stmts_view(ss@);
                assert(fv == FnV { ident: text_view(ident), body: Some(sv) });
                let mut ss = self.visit_mut_block_stmt(ss);
                proof {
                    if no_hooks_fn(fv) {
                        lemma_no_hooks_stmts(sv);
                    }
                }
                match &ident {
                    Some(n) => self.register_named_fn(n, &mut ss),
                    None => {},
                }
                let r = FnLit { ident, body: Some(ss) };
                assert(fn_view(r) == FnV { ident: text_view(ident), body: Some(stmts_view(ss@)) });
                r
            },
            None => {
                let r = FnLit { ident, body: None };
                assert(fn_view(r) == FnV { ident: text_view(ident), body: None });
                r
            },
        }
    }

    /// Visits a declaration. A declarator that binds a single name to a
    /// function or arrow literal keeps that literal as it is, so that the
    /// function still takes its name from the binding: its body is marked
    /// and the register call of the name is queued instead.
    fn visit_mut_var_decl(&mut self, d: VarDecl) -> (r: VarDecl)
        ensures
            (decls_view(r.decls@), pending_of(*final(self))) == rw_decls(config_of(*old(self)), binding_names(old(self).scope_binding), pending_of(*old(self)), decls_view(d.decls@)),
            keeps_config(*old(self), *final(self)),
            r.kind == d.kind,
            no_hooks_decls(decls_view(d.decls@)) ==> decls_view(r.decls@) == decls_view(d.decls@)
                && keeps_pending(*old(self), *final(self)),
        decreases d,
    {
        let ghost c = config_of(*self);
        let ghost ns = binding_names(self.scope_binding);
        let ghost entry = pending_of(*self);
        let ghost orig = d.decls;
        let ghost ov = decls_view(d.decls@);
        let ghost n = d.decls@.len();
        let ghost free = no_hooks_decls(ov);
        let VarDecl { kind, decls } = d;
        assert(decreases_to!(d => orig));
        let mut rest = decls;
        let mut out: Vec<VarDeclarator> = Vec::new();
        while rest.len() > 0
            invariant
                out@.len() + rest@.len() == n,
                n == orig@.len(),
                orig == d.decls,
                decreases_to!(d => orig),
                ov == decls_view(orig@),
                ov.len() == n,
                rest@ == orig@.subrange(out@.len() as int, n as int),
                keeps_config(*old(self), *self),
                free == no_hooks_decls(ov),
                c == config_of(*old(self)),
                ns == binding_names(old(self).scope_binding),
                entry == pending_of(*old(self)),
                (decls_view(out@), pending_of(*self)) == rw_decls(c, ns, entry, ov.subrange(0, out@.len() as int)),
                free ==> decls_view(out@) == ov.subrange(0, out@.len() as int) && keeps_pending(
                    *old(self),
                    *self,
                ),
            decreases rest@.len(),
        {
            let ghost k = out@.len() as int;
            let ghost prev = decls_view(out@);
            let x = rest.remove(0);
            assert(x == orig@[k]);
            assert(decreases_to!(orig => orig[k]));
            assert(ov[k] == (DeclV {
                name: pat_view(x.name),
                text: text_view(x.text),
                init: match x.init {
                    Some(e) => Some(expr_view(e)),
                    None => None,
                },
            }));
            assert(free ==> no_hooks_init(ov[k].init));
            assert(ov[k] == decl_v(x));
            let y = self.visit_mut_declarator(x);
            let ghost old_out = out@;
            out.push(y);
            proof {
                crate::ast::lemma_decls_view(out@);
                crate::ast::lemma_decls_view(old_out);
                assert(out@[k] == y);
                assert(forall|j: int| 0 <= j < k ==> out@[j] == old_out[j]);
            }
            assert(decls_view(out@)[k] == (DeclV {
                name: pat_view(y.name),
                text: text_view(y.text),
                init: match y.init {
                    Some(e) => Some(expr_view(e)),
                    None => None,
                },
            }));
            assert(forall|j: int| 0 <= j < k ==> decls_view(out@)[j] == prev[j]);
            assert(rest@ =~= orig@.subrange(k + 1, n as int));
            assert(free ==> decls_view(out@) =~= ov.subrange(0, k + 1));
            assert(ov.subrange(0, k + 1).drop_last() =~= ov.subrange(0, k));
            assert(decls_view(out@) =~= prev.push(decl_v(y)));
        }
        assert(ov.subrange(0, n as int) =~= ov);
        VarDecl { kind, decls: out }
    }

    fn visit_mut_declarator(&mut self, x: VarDeclarator) -> (r: VarDeclarator)
        ensures
            (decl_v(r), pending_of(*final(self))) == rw_decl(config_of(*old(self)), binding_names(old(self).scope_binding), pending_of(*old(self)), decl_v(x)),
            keeps_config(*old(self), *final(self)),
            pat_view(r.name) == pat_view(x.name),
            text_view(r.text) == text_view(x.text),
            no_hooks_init(match x.init {
                Some(e) => Some(expr_view(e)),
                None => None,
            }) ==> (match r.init {
                Some(e) => Some(expr_view(e)),
                None => None,
            }) == (match x.init {
                Some(e) => Some(expr_view(e)),
                None => None,
            }) && keeps_pending(*old(self), *final(self)),
        decreases x,
    {
        let ghost c = config_of(*self);
        let ghost ns = binding_names(self.scope_binding);
        let ghost entry = pending_of(*self);
        let VarDeclarator { name, text, init } = x;
        let init = match init {
            None => None,
            Some(e) => {
                let named = match &name {
                    Pat::Ident(_) => match &e {
                        Expr::Fn(_) => true,
                        Expr::Arrow(_) => true,
                        _ => false,
                    },
                    _ => false,
                };
                if named {
                    Some(self.visit_mut_named_init(&name, e))
                } else {
                    Some(self.visit_mut_expr(e))
                }
            },
        };
        VarDeclarator { name, text, init }
    }

    fn visit_mut_named_init(&mut self, name: &Pat, e: Expr) -> (r: Expr)
        requires
            name is Ident,
            e is Fn || e is Arrow,
        ensures
            (expr_view(r), pending_of(*final(self))) == rw_named_init(config_of(*old(self)), binding_names(old(self).scope_binding), pending_of(*old(self)), match name { Pat::Ident(n) => n@, _ => arbitrary() }, expr_view(e)),
            keeps_config(*old(self), *final(self)),
            no_hooks_expr(expr_view(e)) ==> expr_view(r) == expr_view(e) && keeps_pending(
                *old(self),
                *final(self),
            ),
        decreases e,
    {
        let ghost c = config_of(*self);
        let ghost ns = binding_names(self.scope_binding);
        let ghost entry = pending_of(*self);
        let ghost ev = expr_view(e);
        let id = match name {
            Pat::Ident(id) => id,
            _ => {
                return e;
            },
        };
        match e {
            Expr::Fn(f) => {
                let ghost fv = fn_view(f);
                assert(ev == ExprV::Fn(fv));
                let FnLit { ident, body } = f;
                match body {
                    Some(ss) => {
                        let ghost sv = stmts_view(ss@);
                        assert(fv == FnV { ident: text_view(ident), body: Some(sv) });
                        assert(no_hooks_expr(ev) ==> no_hooks_fn(fv));
                        assert(no_hooks_fn(fv) ==> no_hooks_stmts(sv));
                        let mut ss = self.visit_mut_block_stmt(ss);
                        proof {
                            if no_hooks_expr(ev) {
                                lemma_no_hooks_stmts(sv);
                            }
                        }
                        self.register_named_fn(id, &mut ss);
                        let f = FnLit { ident, body: Some(ss) };
                        assert(fn_view(f) == FnV { ident: text_view(ident), body: Some(stmts_view(ss@)) });
                        let r = Expr::Fn(f);
                        assert(expr_view(r) == ExprV::Fn(fn_view(f)));
                        r
                    },
                    None => {
                        let r = Expr::Fn(FnLit { ident, body: None });
                        assert(expr_view(r) == ExprV::Fn(FnV { ident: text_view(ident), body: None }));
                        assert(fv == FnV { ident: text_view(ident), body: None });
                        r
                    },
                }
            },
            Expr::Arrow(b) => {
                let ghost bv0 = arrow_view(b);
                assert(ev == ExprV::Arrow(bv0));
                let b = self.visit_mut_arrow_body(b);
                proof {
                    if no_hooks_expr(ev) {
                        lemma_no_hooks_arrow(arrow_view(b));
                    }
                }
                let rb = self.register_named_arrow(id, b);
                let r = Expr::Arrow(rb);
                assert(expr_view(r) == ExprV::Arrow(arrow_view(rb)));
                r
            },
            other => other,
        }
    }
}


/// Runs the pass over the top-level statements of a program: each function
/// that calls hooks is marked and registered, with the program's top as the
/// place of its handle declarations. New handles are numbered from the first
/// number above every handle already in the program, so they do not repeat
/// one. A program without hook calls comes back as it was.
pub fn refresh_program(options: RefreshOptions, should_reset: bool, program: Vec<Stmt>) -> (r: Vec<Stmt>)
    ensures
        ({
            let first = bound_stmts(0, stmts_view(program@));
            &&& first == u64::MAX || handles_below_stmts(stmts_view(program@), first)
            &&& stmts_view(r@) == rw_block(
                Config {
                    full: options.emit_full_signatures,
                    refresh_sig: options.refresh_sig@,
                    should_reset,
                },
                Seq::<Seq<char>>::empty(),
                Pending { ident: seq![], extra: seq![], next: first },
                stmts_view(program@),
            ).0
        }),
        no_hooks_stmts(stmts_view(program@)) ==> stmts_view(r@) == stmts_view(program@),
{
    let first = handle_bound_stmts(&program, 0);
    let mut register = HookRegister::new(options, should_reset);
    register.next_handle = first;
    assert(stmts_view(register.extra_stmt@) =~= Seq::<StmtV>::empty());
    register.visit_mut_block_stmt(program)
}

} // verus!
