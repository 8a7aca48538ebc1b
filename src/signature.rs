use vstd::prelude::*;
use vstd::string::*;
use sha1::{Digest, Sha1};
use indexmap::IndexSet;
use crate::ast::{
    args_view, expr_view, fn_view, stmt_view, exprs_view, group_view_lemmas, stmts_view, Arg, ArgV, Expr, ExprV,
    FnLit, FnV, MemberProp, PropV, Stmt, StmtV,
};
use crate::hooks::{call_name, hooks_view, same_text, Hook, HookCall, HookCallV, HookV};
use crate::scope::{binding_contains, binding_names};

verus! {

broadcast use vstd::std_specs::vec::group_vec_axioms, group_view_lemmas;

/// The signature line of one hook: its name, then its key in braces.
pub open spec fn sig_line(h: HookV) -> Seq<char> {
    call_name(h.callee) + "{"@ + h.key + "}"@
}

/// The signature lines of hooks, joined by newlines.
pub open spec fn sig_text(hs: Seq<HookV>) -> Seq<char>
    decreases hs.len(),
{
    if hs.len() == 0 {
        seq![]
    } else if hs.len() == 1 {
        sig_line(hs[0])
    } else {
        sig_text(hs.drop_last()) + "\n"@ + sig_line(hs.last())
    }
}

/// The SHA-1 digest of the UTF-8 encoding of a text.
pub uninterp spec fn sha1_of(text: Seq<char>) -> Seq<u8>;

/// The standard base64 encoding, with padding, of bytes.
pub uninterp spec fn base64_of(bytes: Seq<u8>) -> Seq<char>;

/// Relies on sha1::Sha1 through digest's `Digest` trait: the 20-byte SHA-1
/// digest of the text's UTF-8 bytes.
#[verifier::external_body]
fn sha1_digest(text: &str) -> (r: Vec<u8>)
    ensures
        r@ == sha1_of(text@),
        r@.len() == 20,
{
    let mut hasher = Sha1::new();
    hasher.update(text.as_bytes());
    hasher.finalize().to_vec()
}

/// Relies on base64::encode: the standard alphabet, with padding, so four
/// characters for each started group of three bytes.
#[verifier::external_body]
fn base64_encode(bytes: &Vec<u8>) -> (r: String)
    ensures
        r@ == base64_of(bytes@),
        r@.len() == 4 * ((bytes@.len() + 2) / 3),
{
    base64::encode(bytes)
}

/// The signature string of hooks: the joined lines themselves where full
/// signatures are asked for, else the base64 of their SHA-1 digest.
pub open spec fn signature_of(hs: Seq<HookV>, full: bool) -> Seq<char> {
    if full {
        sig_text(hs)
    } else {
        base64_of(sha1_of(sig_text(hs)))
    }
}

/// The hook names that the framework itself provides.
pub open spec fn is_builtin_hook(name: Seq<char>) -> bool {
    name == "useState"@ || name == "useReducer"@ || name == "useEffect"@ || name
        == "useLayoutEffect"@ || name == "useMemo"@ || name == "useCallback"@ || name == "useRef"@
        || name == "useContext"@ || name == "useImperativeHandle"@ || name == "useDebugValue"@
}

/// A custom hook is one that the framework does not provide. `React.useX` is
/// taken as the framework's own.
pub open spec fn is_custom(c: HookCallV) -> bool {
    match c {
        HookCallV::Ident(n) => !is_builtin_hook(n),
        HookCallV::Member(Some(o), p) => !is_builtin_hook(p) && o != "React"@,
        HookCallV::Member(None, p) => !is_builtin_hook(p),
    }
}

/// Whether the name that a hook is reached through (the callee, or the
/// object of a member call) is bound in `scope`. A member call on an object
/// that is not a plain name is never resolved.
pub open spec fn is_resolved(c: HookCallV, scope: Seq<Seq<char>>) -> bool {
    match c {
        HookCallV::Ident(n) => scope.contains(n),
        HookCallV::Member(Some(o), _) => scope.contains(o),
        HookCallV::Member(None, _) => false,
    }
}

/// The custom hooks whose origin is a bound name, in order.
pub open spec fn scoped_customs(hs: Seq<HookV>, scope: Seq<Seq<char>>) -> Seq<HookCallV>
    decreases hs.len(),
{
    if hs.len() == 0 {
        seq![]
    } else {
        let rest = scoped_customs(hs.drop_last(), scope);
        let c = hs.last().callee;
        if is_custom(c) && is_resolved(c, scope) {
            rest.push(c)
        } else {
            rest
        }
    }
}

/// Whether some custom hook is not resolved in `scope`.
pub open spec fn has_unresolved_custom(hs: Seq<HookV>, scope: Seq<Seq<char>>) -> bool {
    exists|i: int| 0 <= i < hs.len() && is_custom(#[trigger] hs[i].callee) && !is_resolved(hs[i].callee, scope)
}

/// Whether the component must be remounted on every edit.
pub open spec fn force_reset(hs: Seq<HookV>, scope: Seq<Seq<char>>, should_reset: bool) -> bool {
    should_reset || has_unresolved_custom(hs, scope)
}

/// The expression that reads a custom hook again.
pub open spec fn custom_expr(c: HookCallV) -> ExprV {
    match c {
        HookCallV::Ident(n) => ExprV::Ident(n),
        HookCallV::Member(Some(o), p) => ExprV::Member(Box::new(ExprV::Ident(o)), PropV::Ident(p)),
        // never listed: such a hook does not resolve
        HookCallV::Member(None, p) => ExprV::Member(Box::new(ExprV::Other(seq![])), PropV::Ident(p)),
    }
}

pub open spec fn plain_arg(e: ExprV) -> ArgV {
    ArgV { expr: e, text: None }
}

/// `function () { return [custom, ...]; }`
pub open spec fn scope_thunk(customs: Seq<HookCallV>) -> ExprV {
    ExprV::Fn(
        FnV {
            ident: None,
            body: Some(
                seq![StmtV::Return(Some(ExprV::Array(customs.map_values(|c: HookCallV| custom_expr(c)))))],
            ),
        },
    )
}

/// The arguments of a register call: the function, its signature, the reset
/// flag where it is set or custom hooks are listed, and the thunk that reads
/// the listed custom hooks where there are any.
pub open spec fn register_args(func: ExprV, sig: Seq<char>, force: bool, customs: Seq<HookCallV>) -> Seq<ArgV> {
    seq![plain_arg(func), plain_arg(ExprV::Str(sig))] + (if force || customs.len() > 0 {
        seq![plain_arg(ExprV::Bool(force))]
    } else {
        seq![]
    }) + (if customs.len() > 0 {
        seq![plain_arg(scope_thunk(customs))]
    } else {
        seq![]
    })
}

/// `handle(func, sig[, force][, thunk])`
pub open spec fn register_call(handle: u64, func: ExprV, sig: Seq<char>, force: bool, customs: Seq<HookCallV>) -> ExprV {
    ExprV::Call(Box::new(ExprV::Handle(handle)), register_args(func, sig, force, customs))
}


pub open spec fn calls_view(cs: Seq<HookCall>) -> Seq<HookCallV> {
    cs.map_values(|c: HookCall| c@)
}

fn hook_name(c: &HookCall) -> (r: &String)
    ensures
        r@ == call_name(c@),
{
    match c {
        HookCall::Ident(n) => n,
        HookCall::Member(_, p) => p,
    }
}

/// The signature lines of hooks, joined by newlines.
pub fn signature_text(hooks: &Vec<Hook>) -> (r: String)
    ensures
        r@ == sig_text(hooks_view(hooks@)),
{
    let ghost hv = hooks_view(hooks@);
    let mut text = String::new();
    let mut i: usize = 0;
    while i < hooks.len()
        invariant
            i <= hooks@.len(),
            hv == hooks_view(hooks@),
            hv.len() == hooks@.len(),
            text@ == sig_text(hv.subrange(0, i as int)),
        decreases hooks@.len() - i,
    {
        let h = &hooks[i];
        let ghost before = text@;
        if i > 0 {
            text.append("\n");
        }
        text.append(hook_name(&h.callee).as_str());
        text.append("{");
        text.append(h.key.as_str());
        text.append("}");
        let ghost sub = hv.subrange(0, i + 1);
        assert(sub.drop_last() =~= hv.subrange(0, i as int));
        assert(sub.last() == h@);
        if i == 0 {
            assert(text@ =~= sig_line(h@));
        } else {
            assert(text@ =~= before + "\n"@ + sig_line(h@));
        }
        i += 1;
    }
    assert(hv.subrange(0, i as int) =~= hv);
    text
}

/// The signature string of hooks: the joined lines where `full` is set, else
/// the base64 of their SHA-1 digest.
pub fn sign_hooks(hooks: &Vec<Hook>, full: bool) -> (r: String)
    ensures
        r@ == signature_of(hooks_view(hooks@), full),
        !full ==> r@.len() == 28,
{
    let text = signature_text(hooks);
    if full {
        text
    } else {
        let digest = sha1_digest(text.as_str());
        base64_encode(&digest)
    }
}

/// Whether a hook name is one that the framework provides.
pub fn is_builtin(name: &str) -> (r: bool)
    ensures
        r == is_builtin_hook(name@),
{
    same_text(name, "useState") || same_text(name, "useReducer") || same_text(name, "useEffect")
        || same_text(name, "useLayoutEffect") || same_text(name, "useMemo") || same_text(
        name,
        "useCallback",
    ) || same_text(name, "useRef") || same_text(name, "useContext") || same_text(
        name,
        "useImperativeHandle",
    ) || same_text(name, "useDebugValue")
}

/// `None` for a hook that is not custom; else the name that it resolves
/// through, if it has one.
fn custom_origin(c: &HookCall) -> (r: Option<Option<&String>>)
    ensures
        is_custom(c@) == r is Some,
        r is Some && r->0 is Some ==> forall|s: Seq<Seq<char>>| #[trigger] is_resolved(c@, s) == s.contains(r->0->0@),
        r is Some && r->0 is None ==> forall|s: Seq<Seq<char>>| !#[trigger] is_resolved(c@, s),
{
    match c {
        HookCall::Ident(n) => if is_builtin(n.as_str()) {
            None
        } else {
            Some(Some(n))
        },
        HookCall::Member(Some(o), p) => if is_builtin(p.as_str()) || same_text(o.as_str(), "React") {
            None
        } else {
            Some(Some(o))
        },
        HookCall::Member(None, p) => if is_builtin(p.as_str()) {
            None
        } else {
            Some(None)
        },
    }
}

fn copy_call(c: &HookCall) -> (r: HookCall)
    ensures
        r@ == c@,
{
    match c {
        HookCall::Ident(n) => HookCall::Ident(n.clone()),
        HookCall::Member(o, p) => {
            let o2 = match o {
                Some(x) => Some(x.clone()),
                None => None,
            };
            HookCall::Member(o2, p.clone())
        },
    }
}

/// Sorts the custom hooks by whether their origin is bound in `scope`: the
/// result is the reset flag (`should_reset`, or some custom hook unbound)
/// and the bound custom hooks in order.
pub fn classify_hooks(hooks: &Vec<Hook>, scope: &IndexSet<String>, should_reset: bool) -> (r: (
    bool,
    Vec<HookCall>,
))
    ensures
        r.0 == force_reset(hooks_view(hooks@), binding_names(*scope), should_reset),
        calls_view(r.1@) == scoped_customs(hooks_view(hooks@), binding_names(*scope)),
{
    let ghost hv = hooks_view(hooks@);
    let ghost names = binding_names(*scope);
    let mut force = should_reset;
    let mut customs: Vec<HookCall> = Vec::new();
    let mut i: usize = 0;
    while i < hooks.len()
        invariant
            i <= hooks@.len(),
            hv == hooks_view(hooks@),
            hv.len() == hooks@.len(),
            names == binding_names(*scope),
            force == force_reset(hv.subrange(0, i as int), names, should_reset),
            calls_view(customs@) == scoped_customs(hv.subrange(0, i as int), names),
        decreases hooks@.len() - i,
    {
        let h = &hooks[i];
        let ghost sub = hv.subrange(0, i + 1);
        let ghost pre = hv.subrange(0, i as int);
        assert(sub.drop_last() =~= pre);
        assert(sub.last() == h@);
        let ghost prev = customs@;
        match custom_origin(&h.callee) {
            Some(Some(o)) => {
                if binding_contains(scope, o.as_str()) {
                    customs.push(copy_call(&h.callee));
                    assert(calls_view(customs@) =~= calls_view(prev).push(h@.callee));
                } else {
                    force = true;
                    assert(sub[i as int] == h@);
                    assert(!is_resolved(h@.callee, names));
                }
            },
            Some(None) => {
                force = true;
                assert(sub[i as int] == h@);
                assert(!is_resolved(h@.callee, names));
            },
            None => {},
        }
        proof {
            if has_unresolved_custom(sub, names) && !has_unresolved_custom(pre, names) {
                let j = choose|j: int|
                    0 <= j < sub.len() && is_custom(#[trigger] sub[j].callee) && !is_resolved(
                        sub[j].callee,
                        names,
                    );
                if j < i {
                    assert(pre[j] == sub[j]);
                }
            }
            if has_unresolved_custom(pre, names) {
                let j = choose|j: int|
                    0 <= j < pre.len() && is_custom(#[trigger] pre[j].callee) && !is_resolved(
                        pre[j].callee,
                        names,
                    );
                assert(sub[j] == pre[j]);
            }
        }
        i += 1;
    }
    assert(hv.subrange(0, i as int) =~= hv);
    (force, customs)
}

fn custom_hook_expr(c: HookCall) -> (r: Expr)
    ensures
        expr_view(r) == custom_expr(c@),
{
    match c {
        HookCall::Ident(n) => Expr::Ident(n),
        HookCall::Member(Some(o), p) => {
            let obj = Expr::Ident(o);
            assert(expr_view(obj) == ExprV::Ident(o@));
            Expr::Member(Box::new(obj), MemberProp::Ident(p))
        },
        HookCall::Member(None, p) => {
            let none: Vec<Expr> = Vec::new();
            assert(exprs_view(none@) =~= seq![]);
            let obj = Expr::Other(none);
            assert(expr_view(obj) == ExprV::Other(seq![]));
            Expr::Member(Box::new(obj), MemberProp::Ident(p))
        },
    }
}

fn plain(e: Expr) -> (r: Arg)
    ensures
        r.expr == e,
        r.text is None,
{
    Arg { expr: e, text: None }
}

/// `function () { return [custom, ...]; }` for the given custom hooks.
pub fn make_scope_thunk(customs: &Vec<HookCall>) -> (r: Expr)
    ensures
        expr_view(r) == scope_thunk(calls_view(customs@)),
{
    let ghost cv = calls_view(customs@);
    let mut elems: Vec<Expr> = Vec::new();
    let mut i: usize = 0;
    while i < customs.len()
        invariant
            i <= customs@.len(),
            cv == calls_view(customs@),
            cv.len() == customs@.len(),
            exprs_view(elems@) == cv.subrange(0, i as int).map_values(|c: HookCallV| custom_expr(c)),
        decreases customs@.len() - i,
    {
        let ghost prev = exprs_view(elems@);
        let e = custom_hook_expr(copy_call(&customs[i]));
        elems.push(e);
        assert(exprs_view(elems@) =~= prev.push(expr_view(e)));
        i += 1;
        assert(exprs_view(elems@) =~= cv.subrange(0, i as int).map_values(|c: HookCallV| custom_expr(c)));
    }
    assert(cv.subrange(0, i as int) =~= cv);
    let ghost av = ExprV::Array(cv.map_values(|c: HookCallV| custom_expr(c)));
    let array = Expr::Array(elems);
    assert(expr_view(array) == av);
    let ret = Stmt::Return(Some(array));
    assert(stmt_view(ret) == StmtV::Return(Some(av)));
    let mut body: Vec<Stmt> = Vec::new();
    body.push(ret);
    assert(stmts_view(body@) =~= seq![StmtV::Return(Some(av))]);
    let f = FnLit { ident: None, body: Some(body) };
    assert(fn_view(f) == FnV { ident: None, body: Some(seq![StmtV::Return(Some(av))]) });
    let e = Expr::Fn(f);
    assert(expr_view(e) == scope_thunk(cv));
    e
}

/// The register call `handle(func, sig[, force][, thunk])`, from a signature
/// string already made, the reset flag and the bound custom hooks.
pub fn build_register_call(handle: u64, func: Expr, sig: String, force: bool, customs: Vec<HookCall>) -> (r: Expr)
    ensures
        expr_view(r) == register_call(handle, expr_view(func), sig@, force, calls_view(customs@)),
{
    let ghost fv = expr_view(func);
    let ghost cv = calls_view(customs@);
    let mut args: Vec<Arg> = Vec::new();
    args.push(plain(func));
    let s = Expr::Str(sig);
    assert(expr_view(s) == ExprV::Str(sig@));
    args.push(plain(s));
    let has_customs = customs.len() > 0;
    if force || has_customs {
        let b = Expr::Bool(force);
        assert(expr_view(b) == ExprV::Bool(force));
        args.push(plain(b));
    }
    if has_customs {
        args.push(plain(make_scope_thunk(&customs)));
    }
    assert(args_view(args@) =~= register_args(fv, sig@, force, cv));
    let callee = Expr::Handle(handle);
    assert(expr_view(callee) == ExprV::Handle(handle));
    Expr::Call(Box::new(callee), args)
}


/// The signature string depends on the hooks' names and keys alone, in
/// order: two hook lists that agree on them sign alike, hashed or not.
pub proof fn lemma_signature_stable(a: Seq<HookV>, b: Seq<HookV>, full: bool)
    requires
        a.len() == b.len(),
        forall|i: int|
            0 <= i < a.len() ==> call_name(#[trigger] a[i].callee) == call_name(b[i].callee)
                && a[i].key == b[i].key,
    ensures
        sig_text(a) == sig_text(b),
        signature_of(a, full) == signature_of(b, full),
    decreases a.len(),
{
    if a.len() > 1 {
        assert(forall|i: int| 0 <= i < a.len() - 1 ==> a.drop_last()[i] == a[i] && b.drop_last()[i] == b[i]);
        lemma_signature_stable(a.drop_last(), b.drop_last(), full);
        assert(call_name(a[a.len() - 1].callee) == call_name(b[b.len() - 1].callee));
    } else if a.len() == 1 {
        assert(call_name(a[0].callee) == call_name(b[0].callee));
    }
}

/// A custom hook that resolves in scope is listed for the scope thunk and
/// does not force a reset; one that does not resolve (its name is unbound,
/// or it is a member call on an object that is not a plain name) forces it.
pub proof fn lemma_scope_resolution(h: HookV, scope: Seq<Seq<char>>, should_reset: bool)
    requires
        is_custom(h.callee),
    ensures
        is_resolved(h.callee, scope) ==> force_reset(seq![h], scope, should_reset)
            == should_reset && scoped_customs(seq![h], scope) == seq![h.callee],
        !is_resolved(h.callee, scope) ==> force_reset(seq![h], scope, should_reset)
            && scoped_customs(seq![h], scope) == Seq::<HookCallV>::empty(),
{
    let hs = seq![h];
    assert(hs.drop_last() =~= Seq::<HookV>::empty());
    assert(hs[0] == h);
    assert(scoped_customs(Seq::<HookV>::empty(), scope) == Seq::<HookCallV>::empty());
    if !is_resolved(h.callee, scope) {
        assert(has_unresolved_custom(hs, scope));
    }
    assert(seq![h.callee] =~= Seq::<HookCallV>::empty().push(h.callee));
}

} // verus!
