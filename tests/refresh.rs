use refresh_hooks::ast::{Arg, ArrowBody, Expr, FnLit, MemberProp, Pat, Stmt, VarDecl, VarDeclarator, VarKind};
use refresh_hooks::hooks::{collect_hooks, collect_hooks_arrow, Hook, HookCall};
use refresh_hooks::register::{refresh_program, HookRegister, RefreshOptions};
use refresh_hooks::signature::{is_builtin, sign_hooks};

fn s(x: &str) -> String {
    x.to_string()
}

fn id(x: &str) -> Expr {
    Expr::Ident(s(x))
}

fn arg(e: Expr, text: &str) -> Arg {
    Arg { expr: e, text: Some(s(text)) }
}

fn call(callee: Expr, args: Vec<Arg>) -> Expr {
    Expr::Call(Box::new(callee), args)
}

fn num(text: &str) -> Arg {
    arg(Expr::Other(vec![]), text)
}

fn call_stmt(name: &str) -> Stmt {
    Stmt::Expr(call(id(name), vec![]))
}

fn decl(kind: VarKind, name: Pat, text: &str, init: Expr) -> Stmt {
    Stmt::Var(VarDecl { kind, decls: vec![VarDeclarator { name, text: Some(s(text)), init: Some(init) }] })
}

fn pair(a: &str, b: &str) -> Pat {
    Pat::Other(vec![s(a), s(b)])
}

fn func(body: Vec<Stmt>) -> FnLit {
    FnLit { ident: None, body: Some(body) }
}

fn options(full: bool) -> RefreshOptions {
    RefreshOptions { emit_full_signatures: full, refresh_sig: s("$RefreshSig$") }
}

fn marker(h: u64) -> Stmt {
    Stmt::Expr(call(Expr::Handle(h), vec![]))
}

fn plain(e: Expr) -> Arg {
    Arg { expr: e, text: None }
}

fn slot_decl(handles: &[u64]) -> Stmt {
    Stmt::Var(VarDecl {
        kind: VarKind::Var,
        decls: handles
            .iter()
            .map(|h| VarDeclarator {
                name: Pat::Handle(*h),
                text: None,
                init: Some(call(id("$RefreshSig$"), vec![])),
            })
            .collect(),
    })
}

fn app_body() -> Vec<Stmt> {
    vec![
        decl(VarKind::Const, pair("x", "setX"), "[x,setX]", call(id("useState"), vec![num("0")])),
        call_stmt("useCustomHook"),
        Stmt::Return(Some(id("x"))),
    ]
}

fn hook(callee: HookCall, key: &str) -> Hook {
    Hook { callee, key: s(key) }
}

#[test]
fn end_to_end_app_with_unresolved_custom_hook() {
    let program = vec![Stmt::FnDecl(s("App"), func(app_body()))];
    let out = refresh_program(options(true), false, program);
    let mut body = vec![marker(0)];
    body.extend(app_body());
    let expected = vec![
        slot_decl(&[0]),
        Stmt::FnDecl(s("App"), func(body)),
        Stmt::Expr(call(
            Expr::Handle(0),
            vec![
                plain(id("App")),
                plain(Expr::Str(s("useState{[x,setX](0)}\nuseCustomHook{}"))),
                plain(Expr::Bool(true)),
            ],
        )),
    ];
    assert_eq!(out, expected);
}

#[test]
fn end_to_end_app_hashed_signature() {
    let program = vec![Stmt::FnDecl(s("App"), func(app_body()))];
    let out = refresh_program(options(false), false, program);
    match &out[2] {
        Stmt::Expr(Expr::Call(_, args)) => {
            assert_eq!(args[1].expr, Expr::Str(s("L+u3mnaH8Oyxpu7H1RhY5S2Lca4=")));
            assert_eq!(args.len(), 3);
        }
        other => panic!("unexpected statement {:?}", other),
    }
}

#[test]
fn function_without_hooks_is_unchanged() {
    let body = vec![
        decl(VarKind::Let, Pat::Ident(s("n")), "n", call(id("compute"), vec![num("1")])),
        call_stmt("user"),
        call_stmt("useless"),
        Stmt::Return(Some(Expr::Fn(func(vec![call_stmt("render")])))),
    ];
    let program = vec![Stmt::FnDecl(s("Plain"), func(body))];
    let expected = vec![Stmt::FnDecl(
        s("Plain"),
        func(vec![
            decl(VarKind::Let, Pat::Ident(s("n")), "n", call(id("compute"), vec![num("1")])),
            call_stmt("user"),
            call_stmt("useless"),
            Stmt::Return(Some(Expr::Fn(func(vec![call_stmt("render")])))),
        ]),
    )];
    assert_eq!(refresh_program(options(false), false, program), expected);
}

#[test]
fn hash_depends_on_names_and_keys_only() {
    let a = vec![hook(HookCall::Ident(s("useState")), "[a,setA](0)")];
    let b = vec![hook(HookCall::Member(Some(s("React")), s("useState")), "[a,setA](0)")];
    let c = vec![hook(HookCall::Ident(s("useState")), "[a,setA](1)")];
    assert_eq!(sign_hooks(&a, false), s("JEh2TjfCfAweKjGlqz1N/b1k23E="));
    assert_eq!(sign_hooks(&a, false), sign_hooks(&b, false));
    assert_eq!(sign_hooks(&c, false), s("HwL8z7DdCCTrsVE9xEqxNTmIU/k="));
    assert_ne!(sign_hooks(&a, false), sign_hooks(&c, false));
    assert_eq!(sign_hooks(&a, true), s("useState{[a,setA](0)}"));
}

#[test]
fn signature_lines_are_joined_in_order() {
    let hs = vec![
        hook(HookCall::Ident(s("useRef")), ""),
        hook(HookCall::Member(Some(s("store")), s("useStore")), "st"),
        hook(HookCall::Ident(s("useMemo")), ""),
    ];
    assert_eq!(sign_hooks(&hs, true), s("useRef{}\nuseStore{st}\nuseMemo{}"));
    assert_eq!(sign_hooks(&vec![], true), s(""));
}

fn scanned(body: Vec<Stmt>) -> Vec<Hook> {
    let mut body = body;
    match collect_hooks(&mut body, 7) {
        Some(sig) => {
            assert_eq!(sig.handle, 7);
            assert_eq!(body[0], marker(7));
            sig.hooks
        }
        None => vec![],
    }
}

#[test]
fn use_state_key_depends_on_initial_value() {
    let k0 = scanned(vec![decl(VarKind::Const, pair("a", "setA"), "[a,setA]", call(id("useState"), vec![num("0")]))]);
    let k1 = scanned(vec![decl(VarKind::Const, pair("a", "setA"), "[a,setA]", call(id("useState"), vec![num("1")]))]);
    let none = scanned(vec![call_stmt("useState")]);
    assert_eq!(k0[0].key, s("[a,setA](0)"));
    assert_eq!(k1[0].key, s("[a,setA](1)"));
    assert_ne!(k0[0].key, k1[0].key);
    assert_eq!(none[0].key, s(""));
}

#[test]
fn use_reducer_key_takes_second_argument() {
    let two = scanned(vec![decl(
        VarKind::Const,
        pair("st", "dispatch"),
        "[st, dispatch]",
        call(id("useReducer"), vec![arg(id("reducer"), "reducer"), num("init")]),
    )]);
    let one = scanned(vec![call_stmt("useReducer")]);
    assert_eq!(two[0].key, s("[st, dispatch](init)"));
    assert_eq!(one[0].key, s(""));
}

#[test]
fn missing_source_text_gives_empty_key_parts() {
    let hs = scanned(vec![Stmt::Var(VarDecl {
        kind: VarKind::Const,
        decls: vec![VarDeclarator {
            name: Pat::Ident(s("v")),
            text: None,
            init: Some(call(id("useState"), vec![Arg { expr: Expr::Other(vec![]), text: None }])),
        }],
    })]);
    assert_eq!(hs[0].key, s("()"));
}

#[test]
fn hook_names_need_a_capital_after_use() {
    let hs = scanned(vec![
        call_stmt("user"),
        call_stmt("use"),
        call_stmt("usefulThing"),
        call_stmt("useX"),
        Stmt::Expr(call(Expr::Member(Box::new(id("obj")), MemberProp::Computed(Box::new(id("useY")))), vec![])),
    ]);
    assert_eq!(hs, vec![hook(HookCall::Ident(s("useX")), "")]);
}

#[test]
fn nested_calls_are_found_in_source_order() {
    let inner = call(id("useB"), vec![]);
    let outer = call(id("f"), vec![plain(Expr::Array(vec![inner])), plain(call(id("useC"), vec![]))]);
    let hs = scanned(vec![
        Stmt::Other(vec![id("cond")], vec![call_stmt("useA")]),
        Stmt::Expr(outer),
        Stmt::Block(vec![call_stmt("useD")]),
        Stmt::Return(Some(call(Expr::Member(Box::new(id("React")), MemberProp::Ident(s("useE"))), vec![]))),
    ]);
    assert_eq!(
        hs,
        vec![
            hook(HookCall::Ident(s("useA")), ""),
            hook(HookCall::Ident(s("useB")), ""),
            hook(HookCall::Ident(s("useC")), ""),
            hook(HookCall::Member(Some(s("React")), s("useE")), ""),
        ]
    );
}

#[test]
fn nested_function_hooks_are_not_attributed_to_outer() {
    let hs = scanned(vec![
        Stmt::Expr(Expr::Fn(func(vec![call_stmt("useState")]))),
        Stmt::Expr(Expr::Arrow(ArrowBody::Expr(Box::new(call(id("useRef"), vec![]))))),
        Stmt::FnDecl(s("inner"), func(vec![call_stmt("useMemo")])),
    ]);
    assert!(hs.is_empty());
}

#[test]
fn nested_arrow_gets_its_own_registration() {
    let arrow = Expr::Arrow(ArrowBody::Block(vec![call_stmt("useState")]));
    let app = Stmt::FnDecl(s("App"), func(vec![decl(VarKind::Const, Pat::Ident(s("f")), "f", arrow)]));
    let out = refresh_program(options(true), false, vec![app]);
    let expected_inner = vec![
        slot_decl(&[0]),
        decl(
            VarKind::Const,
            Pat::Ident(s("f")),
            "f",
            Expr::Arrow(ArrowBody::Block(vec![marker(0), call_stmt("useState")])),
        ),
        Stmt::Expr(call(Expr::Handle(0), vec![plain(id("f")), plain(Expr::Str(s("useState{}")))])),
    ];
    assert_eq!(out, vec![Stmt::FnDecl(s("App"), func(expected_inner))]);
}

#[test]
fn custom_hook_declared_in_scope_is_captured() {
    let program = vec![
        Stmt::FnDecl(s("useCustom"), func(vec![])),
        Stmt::FnDecl(s("App"), func(vec![call_stmt("useCustom")])),
    ];
    let out = refresh_program(options(true), false, program);
    let thunk = Expr::Fn(func(vec![Stmt::Return(Some(Expr::Array(vec![id("useCustom")])))]));
    assert_eq!(
        out[3],
        Stmt::Expr(call(
            Expr::Handle(0),
            vec![plain(id("App")), plain(Expr::Str(s("useCustom{}"))), plain(Expr::Bool(false)), plain(thunk)],
        ))
    );
    assert_eq!(out[0], slot_decl(&[0]));
    assert_eq!(out.len(), 4);
}

#[test]
fn custom_hook_out_of_scope_forces_reset() {
    let program = vec![Stmt::FnDecl(s("App"), func(vec![call_stmt("useCustom")]))];
    let out = refresh_program(options(true), false, program);
    assert_eq!(
        out[2],
        Stmt::Expr(call(
            Expr::Handle(0),
            vec![plain(id("App")), plain(Expr::Str(s("useCustom{}"))), plain(Expr::Bool(true))],
        ))
    );
}

#[test]
fn member_custom_hook_and_react_namespace() {
    let program = vec![
        decl(VarKind::Const, Pat::Ident(s("store")), "store", call(id("make"), vec![])),
        Stmt::FnDecl(
            s("App"),
            func(vec![
                Stmt::Expr(call(Expr::Member(Box::new(id("store")), MemberProp::Ident(s("useStore"))), vec![])),
                Stmt::Expr(call(Expr::Member(Box::new(id("React")), MemberProp::Ident(s("useFancy"))), vec![])),
            ]),
        ),
    ];
    let out = refresh_program(options(true), false, program);
    let thunk = Expr::Fn(func(vec![Stmt::Return(Some(Expr::Array(vec![Expr::Member(
        Box::new(id("store")),
        MemberProp::Ident(s("useStore")),
    )])))]));
    assert_eq!(
        out[3],
        Stmt::Expr(call(
            Expr::Handle(0),
            vec![
                plain(id("App")),
                plain(Expr::Str(s("useStore{}\nuseFancy{}"))),
                plain(Expr::Bool(false)),
                plain(thunk),
            ],
        ))
    );
}

#[test]
fn baseline_reset_is_passed_through() {
    let program = vec![Stmt::FnDecl(s("App"), func(vec![call_stmt("useEffect")]))];
    let out = refresh_program(options(true), true, program);
    assert_eq!(
        out[2],
        Stmt::Expr(call(
            Expr::Handle(0),
            vec![plain(id("App")), plain(Expr::Str(s("useEffect{}"))), plain(Expr::Bool(true))],
        ))
    );
    let calm = refresh_program(options(true), false, vec![Stmt::FnDecl(s("App"), func(vec![call_stmt("useEffect")]))]);
    assert_eq!(
        calm[2],
        Stmt::Expr(call(Expr::Handle(0), vec![plain(id("App")), plain(Expr::Str(s("useEffect{}")))]))
    );
}

#[test]
fn function_argument_is_wrapped_in_place() {
    let program = vec![Stmt::Expr(call(id("memo"), vec![plain(Expr::Fn(func(vec![call_stmt("useRef")])))]))];
    let out = refresh_program(options(true), false, program);
    let wrapped = call(
        Expr::Handle(0),
        vec![plain(Expr::Fn(func(vec![marker(0), call_stmt("useRef")]))), plain(Expr::Str(s("useRef{}")))],
    );
    assert_eq!(out, vec![slot_decl(&[0]), Stmt::Expr(call(id("memo"), vec![plain(wrapped)]))]);
}

#[test]
fn arrow_assigned_to_variable_keeps_its_binding() {
    let arrow = Expr::Arrow(ArrowBody::Expr(Box::new(call(id("useContext"), vec![arg(id("Ctx"), "Ctx")]))));
    let program = vec![decl(VarKind::Const, Pat::Ident(s("useTheme")), "useTheme", arrow)];
    let out = refresh_program(options(true), false, program);
    let marked = Expr::Arrow(ArrowBody::Block(vec![
        marker(0),
        Stmt::Return(Some(call(id("useContext"), vec![arg(id("Ctx"), "Ctx")]))),
    ]));
    assert_eq!(
        out,
        vec![
            slot_decl(&[0]),
            decl(VarKind::Const, Pat::Ident(s("useTheme")), "useTheme", marked),
            Stmt::Expr(call(Expr::Handle(0), vec![plain(id("useTheme")), plain(Expr::Str(s("useContext{}")))])),
        ]
    );
}

#[test]
fn default_export_with_name_gets_sibling_registration() {
    let named = Stmt::DefaultFn(FnLit { ident: Some(s("Page")), body: Some(vec![call_stmt("useMemo")]) });
    let anonymous = Stmt::DefaultFn(FnLit { ident: None, body: Some(vec![call_stmt("useMemo")]) });
    let out = refresh_program(options(true), false, vec![named]);
    assert_eq!(
        out[2],
        Stmt::Expr(call(Expr::Handle(0), vec![plain(id("Page")), plain(Expr::Str(s("useMemo{}")))]))
    );
    let untouched = refresh_program(options(true), false, vec![anonymous]);
    assert_eq!(untouched, vec![Stmt::DefaultFn(FnLit { ident: None, body: Some(vec![call_stmt("useMemo")]) })]);
}

#[test]
fn handles_are_declared_together_and_numbered_in_order() {
    let program = vec![
        Stmt::FnDecl(s("A"), func(vec![call_stmt("useState")])),
        Stmt::FnDecl(s("B"), func(vec![call_stmt("useRef")])),
    ];
    let out = refresh_program(options(true), false, program);
    assert_eq!(out[0], slot_decl(&[0, 1]));
    assert_eq!(out[1], Stmt::FnDecl(s("A"), func(vec![marker(0), call_stmt("useState")])));
    assert_eq!(out[3], Stmt::FnDecl(s("B"), func(vec![marker(1), call_stmt("useRef")])));
    assert_eq!(out.len(), 5);
}

#[test]
fn gen_hook_handle_takes_pending_handles() {
    let mut register = HookRegister::new(options(true), false);
    register.ident = vec![3, 5];
    let stmt = register.gen_hook_handle();
    assert_eq!(stmt, slot_decl(&[3, 5]));
    assert!(register.ident.is_empty());
}

#[test]
fn arrow_scan_without_hooks_keeps_expression_body() {
    let body = ArrowBody::Expr(Box::new(call(id("render"), vec![])));
    let (b, sig) = collect_hooks_arrow(body, 2);
    assert!(sig.is_none());
    assert_eq!(b, ArrowBody::Expr(Box::new(call(id("render"), vec![]))));
}

#[test]
fn builtin_hook_names() {
    for n in ["useState", "useReducer", "useEffect", "useLayoutEffect", "useMemo", "useCallback", "useRef", "useContext", "useImperativeHandle", "useDebugValue"] {
        assert!(is_builtin(n));
    }
    assert!(!is_builtin("useCustom"));
    assert!(!is_builtin("useStates"));
}

#[test]
fn names_of_a_nested_block_do_not_leak() {
    let program = vec![
        Stmt::Block(vec![Stmt::FnDecl(s("useLocal"), func(vec![]))]),
        Stmt::FnDecl(s("App"), func(vec![call_stmt("useLocal")])),
    ];
    let out = refresh_program(options(true), false, program);
    assert_eq!(out[0], slot_decl(&[0]));
    assert_eq!(out[1], Stmt::Block(vec![Stmt::FnDecl(s("useLocal"), func(vec![]))]));
    assert_eq!(
        out[3],
        Stmt::Expr(call(
            Expr::Handle(0),
            vec![plain(id("App")), plain(Expr::Str(s("useLocal{}"))), plain(Expr::Bool(true))],
        ))
    );
}

#[test]
fn custom_hook_declared_later_in_block_resolves() {
    let program = vec![
        Stmt::FnDecl(s("App"), func(vec![call_stmt("useLater")])),
        decl(VarKind::Const, Pat::Ident(s("useLater")), "useLater", call(id("makeHook"), vec![])),
    ];
    let out = refresh_program(options(true), false, program);
    let thunk = Expr::Fn(func(vec![Stmt::Return(Some(Expr::Array(vec![id("useLater")])))]));
    assert_eq!(
        out[2],
        Stmt::Expr(call(
            Expr::Handle(0),
            vec![plain(id("App")), plain(Expr::Str(s("useLater{}"))), plain(Expr::Bool(false)), plain(thunk)],
        ))
    );
}

#[test]
fn member_hook_on_non_plain_object_forces_reset() {
    let obj = Expr::Member(Box::new(id("a")), MemberProp::Ident(s("b")));
    let program = vec![Stmt::FnDecl(
        s("App"),
        func(vec![
            Stmt::Expr(call(Expr::Member(Box::new(obj), MemberProp::Ident(s("useThing"))), vec![])),
        ]),
    )];
    let out = refresh_program(options(true), false, program);
    assert_eq!(
        out[2],
        Stmt::Expr(call(
            Expr::Handle(0),
            vec![plain(id("App")), plain(Expr::Str(s("useThing{}"))), plain(Expr::Bool(true))],
        ))
    );
}

#[test]
fn builtin_member_hook_on_non_plain_object_is_not_custom() {
    let obj = Expr::Member(Box::new(id("a")), MemberProp::Ident(s("b")));
    let program = vec![Stmt::FnDecl(
        s("App"),
        func(vec![Stmt::Expr(call(Expr::Member(Box::new(obj), MemberProp::Ident(s("useRef"))), vec![]))]),
    )];
    let out = refresh_program(options(true), false, program);
    assert_eq!(
        out[2],
        Stmt::Expr(call(Expr::Handle(0), vec![plain(id("App")), plain(Expr::Str(s("useRef{}")))]))
    );
}

#[test]
fn hashed_signature_is_twenty_eight_characters() {
    let hs = vec![hook(HookCall::Ident(s("useState")), ""), hook(HookCall::Ident(s("useCustom")), "")];
    assert_eq!(sign_hooks(&hs, false).len(), 28);
    assert_eq!(sign_hooks(&vec![], false).len(), 28);
}

#[test]
fn second_run_numbers_handles_above_existing_ones() {
    let program = vec![Stmt::FnDecl(s("App"), func(vec![call_stmt("useState")]))];
    let once = refresh_program(options(true), false, program);
    assert_eq!(once[0], slot_decl(&[0]));
    let twice = refresh_program(options(true), false, once);
    assert_eq!(twice[0], slot_decl(&[1]));
    assert_eq!(twice[1], slot_decl(&[0]));
    assert_eq!(twice[2], Stmt::FnDecl(s("App"), func(vec![marker(1), marker(0), call_stmt("useState")])));
}
