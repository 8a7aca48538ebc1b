use vstd::prelude::*;
use vstd::string::*;
use crate::ast::{
    args_view, decls_view, expr_view, exprs_view, group_view_lemmas, stmt_view, stmts_view,
    text_view, Arg, ArgV, ArrowBody, ArrowV, DeclV, Expr, ExprV, FnV, MemberProp, PropV, Stmt,
    StmtV, VarDeclarator,
};

verus! {

broadcast use vstd::std_specs::vec::group_vec_axioms, group_view_lemmas;

/// The two callee shapes that can name a hook.
#[derive(Debug, PartialEq, Eq)]
pub enum HookCall {
    /// `useFoo(...)`
    Ident(String),
    /// `obj.useFoo(...)`: the object's name where the object is a plain
    /// name, and the property.
    Member(Option<String>, String),
}

/// One hook call found in a function body, with its identity key.
#[derive(Debug, PartialEq, Eq)]
pub struct Hook {
    pub callee: HookCall,
    pub key: String,
}

pub enum HookCallV {
    Ident(Seq<char>),
    Member(Option<Seq<char>>, Seq<char>),
}

pub struct HookV {
    pub callee: HookCallV,
    pub key: Seq<char>,
}

impl View for HookCall {
    type V = HookCallV;

    open spec fn view(&self) -> HookCallV {
        match self {
            HookCall::Ident(n) => HookCallV::Ident(n@),
            HookCall::Member(o, p) => HookCallV::Member(text_view(*o), p@),
        }
    }
}

impl View for Hook {
    type V = HookV;

    open spec fn view(&self) -> HookV {
        HookV { callee: self.callee@, key: self.key@ }
    }
}

pub open spec fn hooks_view(hs: Seq<Hook>) -> Seq<HookV> {
    hs.map_values(|h: Hook| h@)
}

/// A name is hook-like when it starts with `use` and an ASCII capital.
pub open spec fn is_hook_like(name: Seq<char>) -> bool {
    name.len() >= 4 && name[0] == 'u' && name[1] == 's' && name[2] == 'e' && 'A' <= name[3]
        && name[3] <= 'Z'
}

/// The hook name of a callee shape.
pub open spec fn call_name(c: HookCallV) -> Seq<char> {
    match c {
        HookCallV::Ident(n) => n,
        HookCallV::Member(_, p) => p,
    }
}

/// The callee shape of a call, where it is one that can name a hook.
pub open spec fn callee_shape(callee: ExprV) -> Option<HookCallV> {
    match callee {
        ExprV::Ident(n) => Some(HookCallV::Ident(n)),
        ExprV::Member(obj, PropV::Ident(p)) => Some(
            HookCallV::Member(
                match *obj {
                    ExprV::Ident(o) => Some(o),
                    _ => None,
                },
                p,
            ),
        ),
        _ => None,
    }
}

/// Source text, or the empty string where it could not be had.
pub open spec fn text_or_empty(t: Option<Seq<char>>) -> Seq<char> {
    match t {
        Some(s) => s,
        None => seq![],
    }
}

/// What a builtin hook adds to the key: the source text of the argument that
/// holds the initial state.
pub open spec fn state_suffix(name: Seq<char>, args: Seq<ArgV>) -> Seq<char> {
    if name == "useState"@ && args.len() >= 1 {
        "("@ + text_or_empty(args[0].text) + ")"@
    } else if name == "useReducer"@ && args.len() >= 2 {
        "("@ + text_or_empty(args[1].text) + ")"@
    } else {
        seq![]
    }
}

/// The hook that a call is, if any; `base` is the source text of the binding
/// pattern that the call initializes, or empty.
pub open spec fn hook_of_call(callee: ExprV, args: Seq<ArgV>, base: Seq<char>) -> Option<HookV> {
    match callee_shape(callee) {
        Some(c) => if is_hook_like(call_name(c)) {
            Some(HookV { callee: c, key: base + state_suffix(call_name(c), args) })
        } else {
            None
        },
        None => None,
    }
}

pub open spec fn hook_of_expr(e: ExprV, base: Seq<char>) -> Option<HookV> {
    match e {
        ExprV::Call(callee, args) => hook_of_call(*callee, args, base),
        _ => None,
    }
}

pub open spec fn opt_seq(h: Option<HookV>) -> Seq<HookV> {
    match h {
        Some(h) => seq![h],
        None => seq![],
    }
}

/// The hook calls of an expression, in source order, without entering
/// function literals.
pub open spec fn hooks_in_expr(e: ExprV) -> Seq<HookV>
    decreases e,
{
    match e {
        ExprV::Member(obj, prop) => hooks_in_expr(*obj) + (match prop {
            PropV::Computed(p) => hooks_in_expr(*p),
            PropV::Ident(_) => seq![],
        }),
        ExprV::Call(callee, args) => hooks_in_expr(*callee) + hooks_in_args(args) + opt_seq(
            hook_of_call(*callee, args, seq![]),
        ),
        ExprV::Array(es) => hooks_in_exprs(es),
        ExprV::Other(es) => hooks_in_exprs(es),
        _ => seq![],
    }
}

pub open spec fn hooks_in_exprs(es: Seq<ExprV>) -> Seq<HookV>
    decreases es,
{
    if es.len() == 0 {
        seq![]
    } else {
        hooks_in_exprs(es.drop_last()) + hooks_in_expr(es.last())
    }
}

pub open spec fn hooks_in_args(args: Seq<ArgV>) -> Seq<HookV>
    decreases args,
{
    if args.len() == 0 {
        seq![]
    } else {
        hooks_in_args(args.drop_last()) + hooks_in_expr(args.last().expr)
    }
}

/// A direct hook site: the expression itself where it is a hook call, else
/// the hook calls inside it.
pub open spec fn hooks_at_site(e: ExprV, base: Seq<char>) -> Seq<HookV> {
    match hook_of_expr(e, base) {
        Some(h) => seq![h],
        None => hooks_in_expr(e),
    }
}

/// The hook calls of a statement, in source order, without entering
/// function literals, function declarations or blocks.
pub open spec fn hooks_in_stmt(s: StmtV) -> Seq<HookV>
    decreases s,
{
    match s {
        StmtV::Expr(e) => hooks_at_site(e, seq![]),
        StmtV::Var(_, ds) => hooks_in_decls(ds),
        StmtV::Return(Some(e)) => hooks_at_site(e, seq![]),
        StmtV::Other(es, ss) => hooks_in_exprs(es) + hooks_in_stmts(ss),
        _ => seq![],
    }
}

pub open spec fn hooks_in_decls(ds: Seq<DeclV>) -> Seq<HookV>
    decreases ds,
{
    if ds.len() == 0 {
        seq![]
    } else {
        hooks_in_decls(ds.drop_last()) + match ds.last().init {
            Some(e) => hooks_at_site(e, text_or_empty(ds.last().text)),
            None => seq![],
        }
    }
}

pub open spec fn hooks_in_stmts(ss: Seq<StmtV>) -> Seq<HookV>
    decreases ss,
{
    if ss.len() == 0 {
        seq![]
    } else {
        hooks_in_stmts(ss.drop_last()) + hooks_in_stmt(ss.last())
    }
}

/// Relies on regex::Regex: the pattern `^use[A-Z]` matches exactly the names
/// that start with `use` and an ASCII capital letter.
#[verifier::external_body]
fn matches_hook_pattern(name: &str) -> (r: bool)
    ensures
        r == is_hook_like(name@),
{
    regex::Regex::new("^use[A-Z]").unwrap().is_match(name)
}

/// Whether two strings hold the same characters.
pub fn same_text(a: &str, b: &str) -> (r: bool)
    ensures
        r == (a@ == b@),
{
    let n = a.unicode_len();
    if n != b.unicode_len() {
        return false;
    }
    let mut i: usize = 0;
    while i < n
        invariant
            n == a@.len(),
            n == b@.len(),
            i <= n,
            forall|j: int| 0 <= j < i ==> a@[j] == b@[j],
        decreases n - i,
    {
        if a.get_char(i) != b.get_char(i) {
            return false;
        }
        i += 1;
    }
    assert(a@ =~= b@);
    true
}

/// The source text held by a node, or the empty string.
pub fn snippet_text(t: &Option<String>) -> (r: String)
    ensures
        r@ == text_or_empty(text_view(*t)),
{
    match t {
        Some(s) => s.clone(),
        None => String::new(),
    }
}

pub open spec fn opt_call_view(c: Option<HookCall>) -> Option<HookCallV> {
    match c {
        Some(c) => Some(c@),
        None => None,
    }
}

pub open spec fn opt_hook_view(h: Option<Hook>) -> Option<HookV> {
    match h {
        Some(h) => Some(h@),
        None => None,
    }
}

fn callee_shape_of(callee: &Expr) -> (r: Option<HookCall>)
    ensures
        opt_call_view(r) == callee_shape(expr_view(*callee)),
{
    match callee {
        Expr::Ident(n) => {
            let r = HookCall::Ident(n.clone());
            assert(r@ == HookCallV::Ident(n@));
            Some(r)
        },
        Expr::Member(obj, MemberProp::Ident(p)) => {
            let o = match &**obj {
                Expr::Ident(x) => Some(x.clone()),
                _ => None,
            };
            assert(text_view(o) == match expr_view(**obj) {
                ExprV::Ident(x) => Some(x),
                _ => None,
            });
            Some(HookCall::Member(o, p.clone()))
        },
        _ => None,
    }
}

/// The hook that the call `callee(args)` is, if any, with `base` as the seed
/// of its key.
pub fn get_hook_from_call_expr(callee: &Expr, args: &Vec<Arg>, base: String) -> (r: Option<Hook>)
    ensures
        opt_hook_view(r) == hook_of_call(expr_view(*callee), args_view(args@), base@),
{
    let shape = callee_shape_of(callee);
    match shape {
        None => None,
        Some(c) => {
            let name: &String = match &c {
                HookCall::Ident(n) => n,
                HookCall::Member(_, p) => p,
            };
            if !matches_hook_pattern(name.as_str()) {
                return None;
            }
            let ghost av = args_view(args@);
            assert(av.len() == args@.len());
            let mut key = base;
            if same_text(name.as_str(), "useState") && args.len() > 0 {
                key.append("(");
                let t = snippet_text(&args[0].text);
                key.append(t.as_str());
                key.append(")");
                assert(key@ =~= base@ + state_suffix(name@, av));
            } else if same_text(name.as_str(), "useReducer") && args.len() > 1 {
                key.append("(");
                let t = snippet_text(&args[1].text);
                key.append(t.as_str());
                key.append(")");
                assert(key@ =~= base@ + state_suffix(name@, av));
            } else {
                assert(key@ =~= base@ + state_suffix(name@, av));
            }
            Some(Hook { callee: c, key })
        },
    }
}

/// The hook that an expression is, if it is a hook call.
pub fn get_hook_from_expr(e: &Expr, base: String) -> (r: Option<Hook>)
    ensures
        opt_hook_view(r) == hook_of_expr(expr_view(*e), base@),
{
    match e {
        Expr::Call(callee, args) => get_hook_from_call_expr(callee, args, base),
        _ => None,
    }
}


fn push_hook(out: &mut Vec<Hook>, h: Hook)
    ensures
        hooks_view(final(out)@) == hooks_view(old(out)@).push(h@),
{
    out.push(h);
    assert(hooks_view(out@) =~= hooks_view(old(out)@).push(h@));
}

/// Collects the hook calls of an expression, in source order.
fn visit_expr(e: &Expr, out: &mut Vec<Hook>)
    ensures
        hooks_view(final(out)@) == hooks_view(old(out)@) + hooks_in_expr(expr_view(*e)),
    decreases e,
{
    let ghost start = hooks_view(out@);
    match e {
        Expr::Member(obj, prop) => {
            visit_expr(obj, out);
            match prop {
                MemberProp::Computed(p) => visit_expr(p, out),
                MemberProp::Ident(_) => {},
            }
            assert(hooks_view(out@) =~= start + hooks_in_expr(expr_view(*e)));
        },
        Expr::Call(callee, args) => {
            visit_expr(callee, out);
            visit_args(args, out);
            match get_hook_from_call_expr(callee, args, String::new()) {
                Some(h) => push_hook(out, h),
                None => {},
            }
            assert(hooks_view(out@) =~= start + hooks_in_expr(expr_view(*e)));
        },
        Expr::Array(es) => visit_exprs(es, out),
        Expr::Other(es) => visit_exprs(es, out),
        _ => {
            assert(hooks_view(out@) =~= start + hooks_in_expr(expr_view(*e)));
        },
    }
}

fn visit_exprs(es: &Vec<Expr>, out: &mut Vec<Hook>)
    ensures
        hooks_view(final(out)@) == hooks_view(old(out)@) + hooks_in_exprs(exprs_view(es@)),
    decreases es,
{
    let ghost start = hooks_view(out@);
    let ghost v = exprs_view(es@);
    let mut i: usize = 0;
    while i < es.len()
        invariant
            i <= es@.len(),
            v == exprs_view(es@),
            v.len() == es@.len(),
            hooks_view(out@) == start + hooks_in_exprs(v.subrange(0, i as int)),
        decreases es@.len() - i,
    {
        assert(decreases_to!(es => es[i as int]));
        visit_expr(&es[i], out);
        assert(v.subrange(0, i + 1).drop_last() =~= v.subrange(0, i as int));
        i += 1;
        assert(hooks_view(out@) =~= start + hooks_in_exprs(v.subrange(0, i as int)));
    }
    assert(v.subrange(0, i as int) =~= v);
}

fn visit_args(args: &Vec<Arg>, out: &mut Vec<Hook>)
    ensures
        hooks_view(final(out)@) == hooks_view(old(out)@) + hooks_in_args(args_view(args@)),
    decreases args,
{
    let ghost start = hooks_view(out@);
    let ghost v = args_view(args@);
    let mut i: usize = 0;
    while i < args.len()
        invariant
            i <= args@.len(),
            v == args_view(args@),
            v.len() == args@.len(),
            hooks_view(out@) == start + hooks_in_args(v.subrange(0, i as int)),
        decreases args@.len() - i,
    {
        assert(decreases_to!(args => args[i as int]));
        visit_expr(&args[i].expr, out);
        assert(v.subrange(0, i + 1).drop_last() =~= v.subrange(0, i as int));
        i += 1;
        assert(hooks_view(out@) =~= start + hooks_in_args(v.subrange(0, i as int)));
    }
    assert(v.subrange(0, i as int) =~= v);
}

/// A direct hook site: records the expression where it is a hook call, else
/// the hook calls inside it.
fn visit_site(e: &Expr, base: String, out: &mut Vec<Hook>)
    ensures
        hooks_view(final(out)@) == hooks_view(old(out)@) + hooks_at_site(expr_view(*e), base@),
{
    let ghost start = hooks_view(out@);
    match get_hook_from_expr(e, base) {
        Some(h) => push_hook(out, h),
        None => visit_expr(e, out),
    }
    assert(hooks_view(out@) =~= start + hooks_at_site(expr_view(*e), base@));
}

fn visit_decls(ds: &Vec<VarDeclarator>, out: &mut Vec<Hook>)
    ensures
        hooks_view(final(out)@) == hooks_view(old(out)@) + hooks_in_decls(decls_view(ds@)),
{
    let ghost start = hooks_view(out@);
    let ghost v = decls_view(ds@);
    let mut i: usize = 0;
    while i < ds.len()
        invariant
            i <= ds@.len(),
            v == decls_view(ds@),
            v.len() == ds@.len(),
            hooks_view(out@) == start + hooks_in_decls(v.subrange(0, i as int)),
        decreases ds@.len() - i,
    {
        let d = &ds[i];
        match &d.init {
            Some(e) => visit_site(e, snippet_text(&d.text), out),
            None => {},
        }
        assert(v.subrange(0, i + 1).drop_last() =~= v.subrange(0, i as int));
        i += 1;
        assert(hooks_view(out@) =~= start + hooks_in_decls(v.subrange(0, i as int)));
    }
    assert(v.subrange(0, i as int) =~= v);
}

/// Collects the hook calls of a statement, in source order.
fn visit_stmt(s: &Stmt, out: &mut Vec<Hook>)
    ensures
        hooks_view(final(out)@) == hooks_view(old(out)@) + hooks_in_stmt(stmt_view(*s)),
    decreases s,
{
    let ghost start = hooks_view(out@);
    match s {
        Stmt::Expr(e) => visit_site(e, String::new(), out),
        Stmt::Var(d) => visit_decls(&d.decls, out),
        Stmt::Return(Some(e)) => visit_site(e, String::new(), out),
        Stmt::Other(es, ss) => {
            visit_exprs(es, out);
            visit_stmts(ss, out);
            assert(hooks_view(out@) =~= start + hooks_in_stmt(stmt_view(*s)));
        },
        _ => {
            assert(hooks_view(out@) =~= start + hooks_in_stmt(stmt_view(*s)));
        },
    }
}

fn visit_stmts(ss: &Vec<Stmt>, out: &mut Vec<Hook>)
    ensures
        hooks_view(final(out)@) == hooks_view(old(out)@) + hooks_in_stmts(stmts_view(ss@)),
    decreases ss,
{
    let ghost start = hooks_view(out@);
    let ghost v = stmts_view(ss@);
    let mut i: usize = 0;
    while i < ss.len()
        invariant
            i <= ss@.len(),
            v == stmts_view(ss@),
            v.len() == ss@.len(),
            hooks_view(out@) == start + hooks_in_stmts(v.subrange(0, i as int)),
        decreases ss@.len() - i,
    {
        assert(decreases_to!(ss => ss[i as int]));
        visit_stmt(&ss[i], out);
        assert(v.subrange(0, i + 1).drop_last() =~= v.subrange(0, i as int));
        i += 1;
        assert(hooks_view(out@) =~= start + hooks_in_stmts(v.subrange(0, i as int)));
    }
    assert(v.subrange(0, i as int) =~= v);
}

/// A function that calls hooks: its handle and its hook calls in source order.
pub struct HookSig {
    pub handle: u64,
    pub hooks: Vec<Hook>,
}

impl HookSig {
    pub fn new(handle: u64, hooks: Vec<Hook>) -> (r: Self)
        ensures
            r.handle == handle,
            r.hooks == hooks,
    {
        HookSig { handle, hooks }
    }
}

/// The statement `handle();` that marks a signature handle as run.
pub open spec fn marker_stmt(handle: u64) -> StmtV {
    StmtV::Expr(ExprV::Call(Box::new(ExprV::Handle(handle)), seq![]))
}

pub fn make_marker_stmt(handle: u64) -> (r: Stmt)
    ensures
        stmt_view(r) == marker_stmt(handle),
{
    let args: Vec<Arg> = Vec::new();
    assert(args_view(args@) =~= seq![]);
    let callee = Expr::Handle(handle);
    assert(expr_view(callee) == ExprV::Handle(handle));
    let call = Expr::Call(Box::new(callee), args);
    assert(expr_view(call) == ExprV::Call(Box::new(ExprV::Handle(handle)), seq![]));
    Stmt::Expr(call)
}

/// The hook calls of a function body, in source order, where the body is a
/// sequence of statements.
///
/// Where there are any, the marker call of `handle` becomes the body's first
/// statement and the signature is returned; else the body is left as it is.
pub fn collect_hooks(stmts: &mut Vec<Stmt>, handle: u64) -> (r: Option<HookSig>)
    ensures
        hooks_in_stmts(stmts_view(old(stmts)@)).len() == 0 ==> r is None && final(stmts)@ == old(
            stmts,
        )@,
        hooks_in_stmts(stmts_view(old(stmts)@)).len() > 0 ==> r is Some && r->0.handle == handle
            && hooks_view(r->0.hooks@) == hooks_in_stmts(stmts_view(old(stmts)@)) && stmts_view(
            final(stmts)@,
        ) == seq![marker_stmt(handle)] + stmts_view(old(stmts)@),
{
    let mut found: Vec<Hook> = Vec::new();
    assert(hooks_view(found@) =~= seq![]);
    visit_stmts(stmts, &mut found);
    assert(hooks_view(found@) =~= hooks_in_stmts(stmts_view(stmts@)));
    if found.len() > 0 {
        let ghost before = stmts_view(stmts@);
        stmts.insert(0, make_marker_stmt(handle));
        assert(stmts_view(stmts@) =~= seq![marker_stmt(handle)] + before);
        Some(HookSig::new(handle, found))
    } else {
        None
    }
}

/// The hook calls of an arrow function's body.
pub open spec fn hooks_in_arrow(b: ArrowV) -> Seq<HookV> {
    match b {
        ArrowV::Block(ss) => hooks_in_stmts(ss),
        ArrowV::Expr(x) => hooks_in_expr(*x),
    }
}

/// The body of an arrow function that has been marked with `handle`.
pub open spec fn marked_arrow(b: ArrowV, handle: u64) -> ArrowV {
    match b {
        ArrowV::Block(ss) => ArrowV::Block(seq![marker_stmt(handle)] + ss),
        ArrowV::Expr(x) => ArrowV::Block(seq![marker_stmt(handle), StmtV::Return(Some(*x))]),
    }
}

pub open spec fn arrow_view(b: ArrowBody) -> ArrowV {
    match expr_view(Expr::Arrow(b)) {
        ExprV::Arrow(v) => v,
        _ => arbitrary(),
    }
}

/// The hook calls of an arrow function's body. Where there are any, the
/// body is marked with `handle` (an expression body becomes a block that
/// marks and returns it) and the signature is returned.
pub fn collect_hooks_arrow(body: ArrowBody, handle: u64) -> (r: (ArrowBody, Option<HookSig>))
    ensures
        hooks_in_arrow(arrow_view(body)).len() == 0 ==> r.1 is None && arrow_view(r.0)
            == arrow_view(body),
        hooks_in_arrow(arrow_view(body)).len() > 0 ==> r.1 is Some && r.1->0.handle == handle
            && hooks_view(r.1->0.hooks@) == hooks_in_arrow(arrow_view(body)) && arrow_view(r.0)
            == marked_arrow(arrow_view(body), handle),
{
    match body {
        ArrowBody::Block(ss) => {
            let mut ss = ss;
            let sig = collect_hooks(&mut ss, handle);
            (ArrowBody::Block(ss), sig)
        },
        ArrowBody::Expr(x) => {
            let mut found: Vec<Hook> = Vec::new();
            assert(hooks_view(found@) =~= seq![]);
            visit_expr(&x, &mut found);
            assert(hooks_view(found@) =~= hooks_in_expr(expr_view(*x)));
            if found.len() > 0 {
                let mut ss: Vec<Stmt> = Vec::new();
                ss.push(make_marker_stmt(handle));
                ss.push(Stmt::Return(Some(*x)));
                assert(stmts_view(ss@) =~= seq![marker_stmt(handle), StmtV::Return(Some(expr_view(*x)))]);
                (ArrowBody::Block(ss), Some(HookSig::new(handle, found)))
            } else {
                (ArrowBody::Expr(x), None)
            }
        },
    }
}


/// No call anywhere in the expression, function bodies included, is a hook
/// call.
pub open spec fn no_hooks_expr(e: ExprV) -> bool
    decreases e,
{
    match e {
        ExprV::Member(obj, prop) => no_hooks_expr(*obj) && match prop {
            PropV::Computed(p) => no_hooks_expr(*p),
            PropV::Ident(_) => true,
        },
        ExprV::Call(callee, args) => no_hooks_expr(*callee) && no_hooks_args(args) && hook_of_call(
            *callee,
            args,
            seq![],
        ) is None,
        ExprV::Fn(f) => no_hooks_fn(f),
        ExprV::Arrow(b) => match b {
            ArrowV::Block(ss) => no_hooks_stmts(ss),
            ArrowV::Expr(x) => no_hooks_expr(*x),
        },
        ExprV::Array(es) => no_hooks_exprs(es),
        ExprV::Other(es) => no_hooks_exprs(es),
        _ => true,
    }
}

pub open spec fn no_hooks_exprs(es: Seq<ExprV>) -> bool
    decreases es,
{
    forall|i: int| 0 <= i < es.len() ==> no_hooks_expr(#[trigger] es[i])
}

pub open spec fn no_hooks_args(args: Seq<ArgV>) -> bool
    decreases args,
{
    forall|i: int| 0 <= i < args.len() ==> no_hooks_expr(#[trigger] args[i].expr)
}

pub open spec fn no_hooks_fn(f: FnV) -> bool
    decreases f,
{
    match f.body {
        Some(ss) => no_hooks_stmts(ss),
        None => true,
    }
}

pub open spec fn no_hooks_init(init: Option<ExprV>) -> bool
    decreases init,
{
    match init {
        Some(e) => no_hooks_expr(e),
        None => true,
    }
}

pub open spec fn no_hooks_decls(ds: Seq<DeclV>) -> bool
    decreases ds,
{
    forall|i: int| 0 <= i < ds.len() ==> no_hooks_init(#[trigger] ds[i].init)
}

/// No call anywhere in the statement, function bodies included, is a hook
/// call.
pub open spec fn no_hooks_stmt(s: StmtV) -> bool
    decreases s,
{
    match s {
        StmtV::Expr(e) => no_hooks_expr(e),
        StmtV::Var(_, ds) => no_hooks_decls(ds),
        StmtV::FnDecl(_, f) => no_hooks_fn(f),
        StmtV::DefaultFn(f) => no_hooks_fn(f),
        StmtV::Return(a) => no_hooks_init(a),
        StmtV::Block(ss) => no_hooks_stmts(ss),
        StmtV::Other(es, ss) => no_hooks_exprs(es) && no_hooks_stmts(ss),
    }
}

pub open spec fn no_hooks_stmts(ss: Seq<StmtV>) -> bool
    decreases ss,
{
    forall|i: int| 0 <= i < ss.len() ==> no_hooks_stmt(#[trigger] ss[i])
}

pub proof fn lemma_no_hooks_expr(e: ExprV)
    requires
        no_hooks_expr(e),
    ensures
        hooks_in_expr(e) == Seq::<HookV>::empty(),
    decreases e,
{
    match e {
        ExprV::Member(obj, prop) => {
            lemma_no_hooks_expr(*obj);
            match prop {
                PropV::Computed(p) => lemma_no_hooks_expr(*p),
                PropV::Ident(_) => {},
            }
            assert(hooks_in_expr(e) =~= seq![]);
        },
        ExprV::Call(callee, args) => {
            lemma_no_hooks_expr(*callee);
            lemma_no_hooks_args(args);
            assert(hooks_in_expr(e) =~= seq![]);
        },
        ExprV::Array(es) => lemma_no_hooks_exprs(es),
        ExprV::Other(es) => lemma_no_hooks_exprs(es),
        _ => {},
    }
}

pub proof fn lemma_no_hooks_exprs(es: Seq<ExprV>)
    requires
        no_hooks_exprs(es),
    ensures
        hooks_in_exprs(es) == Seq::<HookV>::empty(),
    decreases es,
{
    if es.len() > 0 {
        assert(forall|i: int| 0 <= i < es.drop_last().len() ==> es.drop_last()[i] == es[i]);
        lemma_no_hooks_exprs(es.drop_last());
        lemma_no_hooks_expr(es.last());
        assert(hooks_in_exprs(es) =~= seq![]);
    }
}

pub proof fn lemma_no_hooks_args(args: Seq<ArgV>)
    requires
        no_hooks_args(args),
    ensures
        hooks_in_args(args) == Seq::<HookV>::empty(),
    decreases args,
{
    if args.len() > 0 {
        assert(forall|i: int| 0 <= i < args.drop_last().len() ==> args.drop_last()[i] == args[i]);
        lemma_no_hooks_args(args.drop_last());
        lemma_no_hooks_expr(args.last().expr);
        assert(hooks_in_args(args) =~= seq![]);
    }
}

pub proof fn lemma_no_hooks_site(e: ExprV, base: Seq<char>)
    requires
        no_hooks_expr(e),
    ensures
        hooks_at_site(e, base) == Seq::<HookV>::empty(),
{
    lemma_no_hooks_expr(e);
}

pub proof fn lemma_no_hooks_stmt(s: StmtV)
    requires
        no_hooks_stmt(s),
    ensures
        hooks_in_stmt(s) == Seq::<HookV>::empty(),
    decreases s,
{
    match s {
        StmtV::Expr(e) => lemma_no_hooks_site(e, seq![]),
        StmtV::Var(_, ds) => lemma_no_hooks_decls(ds),
        StmtV::Return(Some(e)) => lemma_no_hooks_site(e, seq![]),
        StmtV::Other(es, ss) => {
            lemma_no_hooks_exprs(es);
            lemma_no_hooks_stmts(ss);
            assert(hooks_in_stmt(s) =~= seq![]);
        },
        _ => {},
    }
}

pub proof fn lemma_no_hooks_decls(ds: Seq<DeclV>)
    requires
        no_hooks_decls(ds),
    ensures
        hooks_in_decls(ds) == Seq::<HookV>::empty(),
    decreases ds.len(),
{
    if ds.len() > 0 {
        assert(forall|i: int| 0 <= i < ds.drop_last().len() ==> ds.drop_last()[i] == ds[i]);
        lemma_no_hooks_decls(ds.drop_last());
        assert(ds[ds.len() - 1] == ds.last());
        assert(no_hooks_init(ds[ds.len() - 1].init));
        match ds.last().init {
            Some(e) => lemma_no_hooks_site(e, text_or_empty(ds.last().text)),
            None => {},
        }
        assert(hooks_in_decls(ds) =~= seq![]);
    }
}

pub proof fn lemma_no_hooks_stmts(ss: Seq<StmtV>)
    requires
        no_hooks_stmts(ss),
    ensures
        hooks_in_stmts(ss) == Seq::<HookV>::empty(),
    decreases ss,
{
    if ss.len() > 0 {
        assert(forall|i: int| 0 <= i < ss.drop_last().len() ==> ss.drop_last()[i] == ss[i]);
        lemma_no_hooks_stmts(ss.drop_last());
        lemma_no_hooks_stmt(ss.last());
        assert(hooks_in_stmts(ss) =~= seq![]);
    }
}

pub proof fn lemma_no_hooks_arrow(b: ArrowV)
    requires
        no_hooks_expr(ExprV::Arrow(b)),
    ensures
        hooks_in_arrow(b) == Seq::<HookV>::empty(),
{
    match b {
        ArrowV::Block(ss) => lemma_no_hooks_stmts(ss),
        ArrowV::Expr(x) => lemma_no_hooks_expr(*x),
    }
}


/// Editing the initial state of a `useState` call changes its key, and a
/// `useState` call without arguments has no parenthesized part in its key.
pub proof fn lemma_use_state_key(callee: ExprV, args1: Seq<ArgV>, args2: Seq<ArgV>, base: Seq<char>)
    requires
        callee_shape(callee) is Some,
        call_name(callee_shape(callee)->0) == "useState"@,
        args1.len() >= 1,
        args2.len() >= 1,
        text_or_empty(args1[0].text) != text_or_empty(args2[0].text),
    ensures
        hook_of_call(callee, args1, base) is Some,
        hook_of_call(callee, args2, base) is Some,
        hook_of_call(callee, args1, base)->0.key != hook_of_call(callee, args2, base)->0.key,
        hook_of_call(callee, Seq::<ArgV>::empty(), base) is Some,
        hook_of_call(callee, Seq::<ArgV>::empty(), base)->0.key == base,
{
    reveal_strlit("useState");
    reveal_strlit("(");
    reveal_strlit(")");
    let t1 = text_or_empty(args1[0].text);
    let t2 = text_or_empty(args2[0].text);
    let k1 = base + "("@ + t1 + ")"@;
    let k2 = base + "("@ + t2 + ")"@;
    assert(hook_of_call(callee, args1, base)->0.key == k1);
    assert(hook_of_call(callee, args2, base)->0.key == k2);
    if k1 == k2 {
        assert(t1.len() == t2.len());
        assert(k1.subrange(base.len() + 1int, base.len() + 1int + t1.len()) =~= t1);
        assert(k2.subrange(base.len() + 1int, base.len() + 1int + t2.len()) =~= t2);
    }
    assert(hook_of_call(callee, Seq::<ArgV>::empty(), base)->0.key =~= base);
}

/// The scan of a function body does not enter nested function literals,
/// function declarations or blocks: the hook calls written there belong to
/// those functions, which are visited on their own.
pub proof fn lemma_nested_functions_not_scanned(f: FnV, b: ArrowV, name: Seq<char>, ss: Seq<StmtV>)
    ensures
        hooks_in_expr(ExprV::Fn(f)) == Seq::<HookV>::empty(),
        hooks_in_expr(ExprV::Arrow(b)) == Seq::<HookV>::empty(),
        hooks_in_stmt(StmtV::FnDecl(name, f)) == Seq::<HookV>::empty(),
        hooks_in_stmt(StmtV::Block(ss)) == Seq::<HookV>::empty(),
{
}


pub proof fn lemma_hooks_in_stmts_concat(a: Seq<StmtV>, b: Seq<StmtV>)
    ensures
        hooks_in_stmts(a + b) == hooks_in_stmts(a) + hooks_in_stmts(b),
    decreases b.len(),
{
    if b.len() == 0 {
        assert(a + b =~= a);
        assert(hooks_in_stmts(a) + hooks_in_stmts(b) =~= hooks_in_stmts(a));
    } else {
        assert((a + b).drop_last() =~= a + b.drop_last());
        assert((a + b).last() == b.last());
        lemma_hooks_in_stmts_concat(a, b.drop_last());
        assert(hooks_in_stmts(a + b) =~= hooks_in_stmts(a) + hooks_in_stmts(b));
    }
}

/// Moving a statement without hook calls to another place among its
/// siblings leaves the body's hook calls, and so its signature, as they were.
pub proof fn lemma_hook_free_statement_moves(a: Seq<StmtV>, s: StmtV, b: Seq<StmtV>, c: Seq<StmtV>)
    requires
        hooks_in_stmt(s) == Seq::<HookV>::empty(),
    ensures
        hooks_in_stmts(a + seq![s] + b + c) == hooks_in_stmts(a + b + seq![s] + c),
{
    let one = seq![s];
    assert(one.drop_last() =~= Seq::<StmtV>::empty());
    assert(one.last() == s);
    assert(hooks_in_stmts(Seq::<StmtV>::empty()) == Seq::<HookV>::empty());
    assert(hooks_in_stmts(one) == hooks_in_stmts(one.drop_last()) + hooks_in_stmt(one.last()));
    assert(hooks_in_stmts(one) =~= Seq::<HookV>::empty());
    lemma_hooks_in_stmts_concat(a, one);
    lemma_hooks_in_stmts_concat(a + one, b);
    lemma_hooks_in_stmts_concat(a + one + b, c);
    lemma_hooks_in_stmts_concat(a, b);
    lemma_hooks_in_stmts_concat(a + b, one);
    lemma_hooks_in_stmts_concat(a + b + one, c);
    assert(hooks_in_stmts(a + one) =~= hooks_in_stmts(a));
    assert(hooks_in_stmts(a + b + one) =~= hooks_in_stmts(a + b));
}

} // verus!
