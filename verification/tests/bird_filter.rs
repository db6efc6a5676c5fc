use lr_cli::bird_filter::{translate_body, translate_body_inner, translate_function, Ctx};
use lr_cli::bird_set::{
    collect_roas, draft_filters, draft_where, settle_filters, settle_where, Arm, BirdFilterSource,
    CompileOutcome, Expr, Filter, Function, Stmt, TranslatedFilters,
};
use lr_cli::conf::{Named, NamedLines, RoaRow, RoaTable};

fn named(name: &str, text: &str) -> Named {
    Named {
        name: name.to_string(),
        text: text.to_string(),
    }
}

fn source() -> BirdFilterSource {
    BirdFilterSource {
        defines: vec![],
        functions: vec![],
        filters: vec![],
        roa_tables: vec![],
    }
}

fn compiled() -> CompileOutcome {
    CompileOutcome::Parsed(Filter {
        functions: vec![],
        body: vec![],
    })
}

/// Translates a source; the compiler says the same of every body.
fn translate(src: &BirdFilterSource, compiler: impl Fn() -> CompileOutcome) -> TranslatedFilters {
    let drafts = draft_filters(src);
    let outcomes: Vec<CompileOutcome> = drafts.iter().map(|_| compiler()).collect();
    settle_filters(src, drafts, &outcomes)
}

fn ctx(defines: &[(&str, &str)], roa_tables: usize) -> Ctx {
    Ctx {
        defines: defines.iter().map(|(a, b)| named(a, b)).collect(),
        roa_tables,
    }
}

fn body_ok(body: &str, c: &Ctx) -> String {
    translate_body(body, c).expect("translation succeeds")
}

fn body_fails(body: &str, c: &Ctx) -> Vec<String> {
    translate_body(body, c).expect_err("translation fails")
}

#[test]
fn empty_body_translates_to_empty() {
    let c = ctx(&[], 0);
    let (out, notes) = translate_body_inner("", &c);
    assert!(out.is_empty());
    assert!(notes.is_empty());
}

#[test]
fn boolean_operators_pass_through_symbols_only() {
    // BIRD 2 has no and/or/not keywords (verified against
    // filter/config.Y) — the symbols are shared with lr. BIRD `=`
    // is equality and becomes lr's `==`.
    let c = ctx(&[], 0);
    let out = body_ok("if 1 = 1 && 2 = 2 || !false then accept;", &c);
    assert_eq!(out, "if 1 == 1 && 2 == 2 || !false then accept;");
}

#[test]
fn bgp_attribute_renames() {
    let c = ctx(&[], 0);
    let out = body_ok("bgp_local_pref := 200; bgp_med := 10;", &c);
    assert!(out.contains("bgp.local_pref = 200;"));
    assert!(out.contains("bgp.med = 10;"));
}

#[test]
fn path_method_calls_rename() {
    let c = ctx(&[], 0);
    let out = body_ok("bgp_path.prepend(64512);", &c);
    assert!(out.contains("bgp.as_path.prepend(64512);"));
}

#[test]
fn path_accessors_are_unfaithful() {
    let c = ctx(&[], 0);
    let notes = body_fails("if bgp_path.first = 64512 then accept;", &c);
    assert!(notes.iter().any(|n| n.contains("bgp_path.first")));
}

#[test]
fn community_sets_pass_through() {
    let c = ctx(&[], 0);
    let out = body_ok("if net ~ [ 10.0.0.0/8, 192.0.2.0/24 ] then accept;", &c);
    // Untouched tokens keep their original spelling and spacing.
    assert!(out.contains("net ~ [ 10.0.0.0/8, 192.0.2.0/24 ]"));
}

#[test]
fn community_literals_keep_colons() {
    let c = ctx(&[], 0);
    let out = body_ok("bgp_community.add(64512:100);", &c);
    assert!(out.contains("bgp.communities.add(64512:100);"));
}

#[test]
fn typed_declarations_become_let() {
    let c = ctx(&[], 0);
    let out = body_ok("int x := 5; x := x + 1;", &c);
    assert!(out.contains("let x = 5;"));
    assert!(out.contains("x = x + 1;"));
    // Bare declaration: typed zero value.
    let out = body_ok("bool flag; flag := true;", &c);
    assert!(out.contains("let flag = false;"));
    // Two-word type.
    let out = body_ok("ip prefix p := 10.0.0.0/8;", &c);
    assert!(out.contains("let p = 10.0.0.0/8;"));
}

#[test]
fn uninitialised_non_scalar_is_unfaithful() {
    let c = ctx(&[], 0);
    let notes = body_fails("clist l; l := -empty-;", &c);
    assert!(notes
        .iter()
        .any(|n| n.contains("has no lr default") && n.contains("`l`")));
}

#[test]
fn proto_comparisons_are_unfaithful() {
    // BIRD's proto is the protocol instance name; lr's is the
    // protocol type — a comparison would silently change meaning.
    let c = ctx(&[], 0);
    let notes = body_fails("if proto = \"uplink\" then accept;", &c);
    assert!(notes.iter().any(|n| n.contains("`proto`")));
}

#[test]
fn bird_only_attributes_are_unfaithful() {
    let c = ctx(&[], 0);
    for snippet in [
        "if from = 192.0.2.9 then accept;",
        "if gw = 192.0.2.1 then accept;",
        "if ifname = \"eth0\" then accept;",
        "if preference = 100 then accept;",
        "if ospf_router_id = 1.2.3.4 then accept;",
        "if krt_source = 0 then accept;",
        "if source = RTS_BGP then accept;",
    ] {
        let notes = body_fails(snippet, &c);
        assert!(
            notes.iter().any(|n| n.contains("no faithful lr mapping")),
            "{snippet} should be unfaithful"
        );
    }
}

#[test]
fn print_and_case_are_unfaithful() {
    let c = ctx(&[], 0);
    assert!(body_fails("print \"x\";", &c)
        .iter()
        .any(|n| n.contains("`print`")));
    assert!(body_fails("case net { else: accept; }", &c)
        .iter()
        .any(|n| n.contains("`case`")));
}

#[test]
fn not_match_is_unfaithful() {
    let c = ctx(&[], 0);
    let notes = body_fails("if net !~ 10.0.0.0/8 then accept;", &c);
    assert!(notes.iter().any(|n| n.contains("`!~`")));
}

#[test]
fn defines_are_substituted() {
    let c = ctx(&[("MY_ASN", "64512"), ("CUST_NETS", "[ 10.0.0.0/8 ]")], 0);
    let out = body_ok(
        "bgp_path.prepend(MY_ASN); if net ~ CUST_NETS then accept;",
        &c,
    );
    assert!(out.contains("bgp.as_path.prepend(64512);"));
    assert!(out.contains("if net ~ [ 10.0.0.0/8 ] then accept;"));
}

#[test]
fn single_table_roa_check_maps() {
    let c = ctx(&[], 1);
    let out = body_ok("if roa_check(t4) = ROA_INVALID then reject; accept;", &c);
    assert!(out.contains("if roa.state == \"invalid\" then reject;"));
}

#[test]
fn multi_table_roa_check_is_unfaithful() {
    let c = ctx(&[], 2);
    let notes = body_fails("if roa_check(t4) = ROA_INVALID then reject;", &c);
    assert!(notes.iter().any(|n| n.contains("roa_check")));
}

#[test]
fn explicit_arg_roa_check_is_unfaithful() {
    let c = ctx(&[], 1);
    let notes = body_fails(
        "if roa_check(t4, net, 64512) = ROA_INVALID then reject;",
        &c,
    );
    assert!(notes.iter().any(|n| n.contains("roa_check")));
}

#[test]
fn origin_literals_map_to_integers() {
    let c = ctx(&[], 0);
    let out = body_ok("if bgp_origin = ORIGIN_IGP then accept;", &c);
    assert!(out.contains("if bgp.origin == 0 then accept;"));
}

#[test]
fn reject_reason_strings_pass_through() {
    let c = ctx(&[], 0);
    let out = body_ok("reject \"policy says no\";", &c);
    assert!(out.contains("reject \"policy says no\";"));
}

#[test]
fn functions_strip_parameter_types() {
    let c = ctx(&[], 0);
    let decl = translate_function(
        "function tag_routes(int cost, ip prefix p) { bgp_med := cost; return true; }",
        &c,
    )
    .expect("function translates");
    assert!(decl.starts_with("function tag_routes(cost, p)"));
    assert!(decl.contains("bgp.med = cost;"));
}

#[test]
fn where_expressions_wrap_into_accept_reject() {
    let src = source();
    let draft = draft_where("net ~ 10.0.0.0/8", &src);
    let body = settle_where(draft, &compiled()).expect("where translates");
    assert_eq!(body, "if net ~ 10.0.0.0/8 then accept;\nreject;");
}

#[test]
fn full_pipeline_emits_compiling_filters() {
    let src = BirdFilterSource {
        defines: vec![named("MY_ASN", "64512")],
        functions: vec![named(
            "set_pref",
            "function set_pref(int p) { bgp_local_pref := p; return true; }",
        )],
        filters: vec![NamedLines {
            name: "export_to_lr".into(),
            lines: vec![
                "if net ~ [ 10.0.0.0/8 ] then {".to_string(),
                "    bgp_path.prepend(MY_ASN);".to_string(),
                "    set_pref(200);".to_string(),
                "    accept;".to_string(),
                "}".to_string(),
                "reject;".to_string(),
            ],
        }],
        roa_tables: vec![RoaTable {
            rows: vec![RoaRow {
                prefix: "203.0.113.0/24".into(),
                max_length: Some(24),
                asn: 64512,
            }],
        }],
    };
    let out = translate(&src, compiled);
    let roas = collect_roas(&src);
    assert_eq!(roas.len(), 1);
    assert_eq!(out.ok.len(), 1);
    let f = &out.ok[0];
    assert_eq!(f.name, "export_to_lr");
    assert!(f.text.contains("function set_pref(p)"));
    assert!(f.text.contains("bgp.as_path.prepend(64512);"));
    assert!(f.text.contains("set_pref(200);"));
}

#[test]
fn unfaithful_function_blocks_the_filter() {
    let src = BirdFilterSource {
        defines: vec![],
        functions: vec![named("debug", "function debug() { print \"hi\"; }")],
        filters: vec![NamedLines {
            name: "f".into(),
            lines: vec!["debug(); accept;".to_string()],
        }],
        roa_tables: vec![],
    };
    let out = translate(&src, compiled);
    assert!(out.ok.is_empty());
    assert!(out.failed.iter().any(|f| f.name == "f" || f.name == "debug"));
}

#[test]
fn a_body_that_does_not_compile_is_reported() {
    let src = BirdFilterSource {
        filters: vec![NamedLines {
            name: "f".into(),
            lines: vec!["accept;".to_string()],
        }],
        ..source()
    };
    let out = translate(&src, || CompileOutcome::Broken("line 1: nope".into()));
    assert!(out.ok.is_empty());
    assert_eq!(
        out.failed[0].lines,
        vec!["translated body does not compile in the lr filter DSL: line 1: nope".to_string()]
    );
    let body = draft_where("net ~ 10.0.0.0/8", &src);
    assert_eq!(
        settle_where(body, &CompileOutcome::Broken("nope".into())),
        Err(vec![
            "translated `where` expression does not compile in the lr filter DSL: nope".to_string()
        ])
    );
}

#[test]
fn names_that_nothing_introduces_fail_a_filter() {
    let src = BirdFilterSource {
        filters: vec![NamedLines {
            name: "f".into(),
            lines: vec!["if x = 1 then accept;".to_string()],
        }],
        ..source()
    };
    let ast = || {
        CompileOutcome::Parsed(Filter {
            functions: vec![Function {
                params: vec!["p".into()],
                body: vec![Stmt::Use(Expr::Var("p".into()))],
            }],
            body: vec![
                Stmt::Block(vec![Stmt::Let {
                    name: "inner".into(),
                    value: Expr::Leaf,
                }]),
                Stmt::Use(Expr::Var("inner".into())),
                Stmt::Let {
                    name: "y".into(),
                    value: Expr::Leaf,
                },
                Stmt::If {
                    cond: Expr::Node(vec![Expr::Var("y".into()), Expr::Var("x".into())]),
                    yes: Box::new(Stmt::Plain),
                    no: Some(Box::new(Stmt::Assign {
                        name: "z".into(),
                        value: Expr::Var("x".into()),
                    })),
                },
                Stmt::Case {
                    scrutinee: Expr::Var("y".into()),
                    arms: vec![Arm {
                        patterns: vec![Expr::Var("p".into())],
                        body: vec![Stmt::Plain],
                    }],
                },
            ],
        })
    };
    let out = translate(&src, ast);
    assert!(out.ok.is_empty());
    let tail = "is never introduced — a BIRD `define`/local that did not translate";
    assert_eq!(
        out.failed[0].lines,
        vec![
            "assignment to `z` which nothing introduced — a BIRD `define`/local that did not translate"
                .to_string(),
            format!("variable or constant `inner` {tail}"),
            format!("variable or constant `p` {tail}"),
            format!("variable or constant `x` {tail}"),
        ]
    );
}

/// Constants take their value before the body is translated, so the value is
/// translated too.
#[test]
fn constants_are_translated_with_the_body() {
    let c = ctx(&[("WANTED", "ROA_VALID"), ("LIMIT", "24")], 1);
    assert_eq!(
        body_ok("if roa_check(t) = WANTED then accept;", &c),
        "if roa.state == \"valid\" then accept;"
    );
    assert_eq!(
        body_ok("bgp_local_pref := LIMIT; accept;", &c),
        "bgp.local_pref = 24; accept;"
    );
}

/// A constant that leaves a string open replaces nothing and is noted.
#[test]
fn open_constants_are_noted() {
    let (text, notes) = translate_body_inner("if FOO = BAR then accept;", &ctx(&[("FOO", "\"x"), ("BAR", "5")], 0));
    assert_eq!(notes[0], "constant `FOO` leaves a string open");
    assert!(text.contains("FOO"));
    assert!(!text.contains("BAR"));
    let (_, notes) = translate_body_inner("if FOO = 5 then accept;", &ctx(&[("FOO", "\"x\\\"")], 0));
    assert_eq!(notes[0], "constant `FOO` leaves a string open");
    let (text, notes) = translate_body_inner("print FOO;", &ctx(&[("FOO", "\"x y\"")], 0));
    assert!(notes.iter().all(|n| !n.contains("string open")));
    assert!(text.contains("\"x y\""));
}
