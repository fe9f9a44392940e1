use typepython_checking::call_edges::{collect_expr_call_edges, collect_guard_call_edges, effect_call_edges, effect_owner_lookup};
use typepython_checking::capability_check::{
    EffectCheckConfig, collect_effect_summary_facts, effect_capability_diagnostics, effect_checks, visible_effect_summaries,
};
use typepython_checking::diagnostics::SourceKind;
use typepython_checking::effect_collect::{
    adapter_effect_rows, collect_capability_scopes, collect_local_effect_summaries,
    collect_stdlib_effect_summaries, framework_capability_effect_kind, is_taint_effect_label,
    summary_effect_facts,
};
use typepython_checking::effect_row::{EffectKind, EffectRow};
use typepython_checking::effect_summary::{EffectSource, EffectSummary};
use typepython_checking::inference::{EffectCallCallee, EffectCallEdge};
use typepython_checking::signatures::parse_import_target_ref;
use typepython_checking::sites::{
    AssignmentSite, CallSite, DirectCallContextSite, GuardCondition, GuardSite, MethodCallSite,
    ModuleSites, ReturnSite,
};
use typepython_checking::taint_check::{DecoratedCallable, FrameworkCapability, FrameworkProvider};
use typepython_checking::taint_flow::{ComprehensionMeta, DictEntryMeta, ExprMeta};

fn meta() -> ExprMeta {
    ExprMeta {
        value_callee: None,
        value_method_owner_name: None,
        value_method_name: None,
        value_name: None,
        value_subscript_target: None,
        value_if_true: None,
        value_if_false: None,
        value_bool_left: None,
        value_bool_right: None,
        value_binop_left: None,
        value_binop_right: None,
        value_list_elements: None,
        value_set_elements: None,
        value_dict_entries: None,
        value_list_comprehension: None,
        value_generator_comprehension: None,
    }
}

fn call_meta(callee: &str) -> ExprMeta {
    let mut m = meta();
    m.value_callee = Some(callee.to_string());
    m
}

fn empty_sites() -> ModuleSites {
    ModuleSites {
        assignments: vec![],
        returns: vec![],
        yields: vec![],
        if_guards: vec![],
        asserts: vec![],
        matches: vec![],
        for_loops: vec![],
        with_statements: vec![],
        call_context_sites: vec![],
        nested_call_sites: vec![],
        calls: vec![],
        method_calls: vec![],
    }
}

fn callee_name(e: &EffectCallEdge) -> String {
    match &e.callee {
        EffectCallCallee::Function(n) => n.clone(),
        EffectCallCallee::Method { owner_type_name, method_name } => format!("{owner_type_name}.{method_name}"),
    }
}

#[test]
fn taint_labels() {
    assert!(is_taint_effect_label("taint.source"));
    assert!(!is_taint_effect_label("io.fs"));
}

#[test]
fn framework_capabilities_map_to_effects() {
    assert_eq!(framework_capability_effect_kind(&FrameworkCapability::EffectIoNet).unwrap().label(), "io.net");
    assert_eq!(framework_capability_effect_kind(&FrameworkCapability::ValidatorWitness).unwrap().label(), "runtime.validation");
    assert_eq!(framework_capability_effect_kind(&FrameworkCapability::TaintSink).unwrap().label(), "taint.sink");
    assert!(framework_capability_effect_kind(&FrameworkCapability::Other).is_none());
}

#[test]
fn adapter_rows_come_from_function_decorator_providers() {
    let providers = vec![
        FrameworkProvider { name: "route".to_string(), function_decorator: true, capabilities: vec![FrameworkCapability::EffectIoNet, FrameworkCapability::EffectTime] },
        FrameworkProvider { name: "model".to_string(), function_decorator: false, capabilities: vec![FrameworkCapability::EffectIoNet] },
        FrameworkProvider { name: "noop".to_string(), function_decorator: true, capabilities: vec![FrameworkCapability::Other] },
    ];
    let table = adapter_effect_rows(&providers);
    let (row, source) = table.get(&None, "route").unwrap();
    assert_eq!(row.labels(), vec!["io.net".to_string(), "time".to_string()]);
    assert!(matches!(source, EffectSource::Decorator(s) if s == "framework_transform capability on `route`"));
    assert!(table.get(&None, "model").is_none());
    assert!(table.get(&None, "noop").is_none());
}

#[test]
fn local_summaries_read_decorators() {
    let providers = vec![FrameworkProvider { name: "route".to_string(), function_decorator: true, capabilities: vec![FrameworkCapability::EffectIoNet] }];
    let adapter = adapter_effect_rows(&providers);
    let callables = vec![
        DecoratedCallable { name: "calc".to_string(), owner_type_name: None, decorators: vec!["effect_pure".to_string()], line: 1 },
        DecoratedCallable { name: "plain".to_string(), owner_type_name: None, decorators: vec!["cache".to_string()], line: 4 },
        DecoratedCallable { name: "save".to_string(), owner_type_name: Some("Repo".to_string()), decorators: vec!["effects.effect_io_fs".to_string(), "must_close".to_string()], line: 8 },
        DecoratedCallable { name: "index".to_string(), owner_type_name: None, decorators: vec!["app.route".to_string()], line: 12 },
    ];
    let summaries = collect_local_effect_summaries(&callables, &adapter);
    assert_eq!(summaries.len(), 3);
    assert!(summaries[0].pure);
    assert!(summaries[0].row.is_empty());
    assert_eq!(summaries[1].callable, "save");
    assert_eq!(summaries[1].row.labels(), vec!["io.fs".to_string(), "resource.lifecycle".to_string()]);
    assert!(matches!(&summaries[1].sources[1], EffectSource::Lifecycle(d) if d == "must_close"));
    assert_eq!(summaries[2].callable, "index");
    assert_eq!(summaries[2].row.labels(), vec!["io.net".to_string()]);
}

#[test]
fn capability_scopes_fall_back_to_unsafe_sites() {
    let scopes = collect_capability_scopes(vec![(2, 4)], &vec![(9, true)]);
    assert_eq!(scopes.len(), 1);
    assert_eq!((scopes[0].line_start, scopes[0].line_end), (2, 4));
    assert_eq!(scopes[0].grants.labels(), vec!["unsafe".to_string()]);
    let fallback = collect_capability_scopes(vec![], &vec![(9, true), (10, false), (11, true)]);
    let lines: Vec<(usize, usize)> = fallback.iter().map(|s| (s.line_start, s.line_end)).collect();
    assert_eq!(lines, vec![(9, 9), (11, 11)]);
}

#[test]
fn stdlib_imports_give_summaries() {
    let imports = vec![
        ("rm".to_string(), parse_import_target_ref("os.remove").unwrap()),
        ("harmless".to_string(), parse_import_target_ref("os.path.join").unwrap()),
    ];
    let summaries = collect_stdlib_effect_summaries(&imports);
    assert!(!summaries.is_empty());
    assert_eq!(summaries[0].callable, "rm");
    assert!(summaries[0].owner_type_name.is_none());
    assert_eq!(summaries[0].row.labels(), vec!["io.fs".to_string()]);
    assert!(matches!(&summaries[0].sources[0], EffectSource::Stdlib(s) if s == "os.remove"));
    assert_eq!(summaries[0].line, 1);
}

fn summary(name: &str, owner: Option<&str>, pure: bool, kinds: Vec<EffectKind>, line: usize) -> EffectSummary {
    let mut row = EffectRow::empty();
    for k in kinds {
        row.insert(k);
    }
    EffectSummary {
        callable: name.to_string(),
        owner_type_name: owner.map(|o| o.to_string()),
        pure,
        row,
        sources: vec![EffectSource::Inferred("x".to_string()), EffectSource::UnsafeBlock],
        line,
    }
}

#[test]
fn summary_facts_filter_labels_and_sort() {
    let summaries = vec![
        summary("b", Some("T"), false, vec![EffectKind::IoFs], 3),
        summary("a", None, false, vec![EffectKind::Declared("taint.source".to_string())], 9),
        summary("c", None, true, vec![], 1),
        summary("a", None, false, vec![EffectKind::Time], 2),
    ];
    let facts = summary_effect_facts(&summaries, true, false);
    let keys: Vec<(Option<String>, String, usize)> = facts.iter().map(|f| (f.owner_type_name.clone(), f.name.clone(), f.line)).collect();
    assert_eq!(
        keys,
        vec![(None, "a".to_string(), 2), (None, "c".to_string(), 1), (Some("T".to_string()), "b".to_string(), 3)]
    );
    assert_eq!(facts[0].sources, vec!["inferred:x".to_string(), "unsafe:".to_string()]);
    let taint_only = summary_effect_facts(&summaries, false, true);
    assert_eq!(taint_only.len(), 1);
    assert_eq!(taint_only[0].effects, vec!["taint.source".to_string()]);
}

#[test]
fn expression_edges_follow_the_tree() {
    let mut inner = call_meta("g");
    inner.value_method_owner_name = Some("Db".to_string());
    inner.value_method_name = Some("query".to_string());
    let mut outer = call_meta("f");
    outer.value_binop_left = Some(Box::new(inner));
    outer.value_list_elements = Some(vec![call_meta("h")]);
    outer.value_dict_entries = Some(vec![DictEntryMeta { key_value: Some(Box::new(call_meta("k"))), value: call_meta("v") }]);
    outer.value_list_comprehension = Some(Box::new(ComprehensionMeta { key: None, element: call_meta("e"), clause_iters: vec![call_meta("it")] }));
    let mut edges = Vec::new();
    collect_expr_call_edges(Some(&outer), &None, "main", 3, &mut edges);
    let names: Vec<String> = edges.iter().map(callee_name).collect();
    assert_eq!(names, vec!["f", "g", "Db.query", "h", "k", "v", "e", "it"]);
    assert!(edges.iter().all(|e| e.owner_name == "main" && e.line == 3));
    let mut none = Vec::new();
    collect_expr_call_edges(None, &None, "main", 3, &mut none);
    assert!(none.is_empty());
}

#[test]
fn guard_edges_collect_predicate_calls() {
    let guard = GuardCondition::And(vec![
        GuardCondition::PredicateCall { callee: "is_ok".to_string() },
        GuardCondition::Not(Box::new(GuardCondition::PredicateCall { callee: "is_bad".to_string() })),
        GuardCondition::IsNone,
    ]);
    let mut edges = Vec::new();
    collect_guard_call_edges(Some(&guard), &Some("T".to_string()), "m", 5, &mut edges);
    let names: Vec<String> = edges.iter().map(callee_name).collect();
    assert_eq!(names, vec!["is_ok", "is_bad"]);
    assert_eq!(edges[0].owner_type_name.as_deref(), Some("T"));
}

fn sample_sites() -> ModuleSites {
    let mut sites = empty_sites();
    sites.assignments.push(AssignmentSite {
        name: "x".to_string(),
        owner_name: Some("main".to_string()),
        owner_type_name: None,
        line: 2,
        annotation: None,
        value: Some(call_meta("write")),
        value_callee: Some("write".to_string()),
        value_method_owner_name: None,
        value_method_name: None,
        value_binop_left_name: None,
        value_binop_operator: None,
        has_value_binop_right: false,
    });
    sites.returns.push(ReturnSite {
        owner_name: "helper".to_string(),
        owner_type_name: None,
        line: 6,
        value: None,
        value_callee: None,
        value_method_owner_name: None,
        value_method_name: None,
        value_name: None,
        value_member_owner_name: None,
        value_member_name: None,
        value_subscript_string_key: None,
        value_has_lambda: false,
        value_has_list_elements: false,
        value_has_set_elements: false,
        value_has_dict_entries: false,
        value_has_subscript_target: false,
    });
    sites.if_guards.push(GuardSite { owner_name: Some("main".to_string()), owner_type_name: None, line: 3, guard: Some(GuardCondition::PredicateCall { callee: "ready".to_string() }) });
    sites.calls.push(CallSite {
        callee: "log".to_string(),
        line: 6,
        arg_count: 1,
        keyword_names: vec![],
        arg_values: vec![call_meta("fmt")],
        starred_arg_values: vec![],
        keyword_arg_values: vec![],
        keyword_expansion_values: vec![],
    });
    sites.calls.push(CallSite {
        callee: "lost".to_string(),
        line: 40,
        arg_count: 0,
        keyword_names: vec![],
        arg_values: vec![],
        starred_arg_values: vec![],
        keyword_arg_values: vec![],
        keyword_expansion_values: vec![],
    });
    sites.method_calls.push(MethodCallSite {
        current_owner_name: Some("main".to_string()),
        current_owner_type_name: None,
        owner_name: "Db".to_string(),
        method: "query".to_string(),
        line: 7,
        arg_values: vec![],
        starred_arg_values: vec![],
        keyword_arg_values: vec![],
        keyword_expansion_values: vec![],
    });
    sites.call_context_sites.push(DirectCallContextSite { owner_name: Some("main".to_string()), owner_type_name: None, callee: "write".to_string(), line: 2 });
    sites
}

#[test]
fn module_edges_in_section_order() {
    let sites = sample_sites();
    let lookup = effect_owner_lookup(&sites);
    assert_eq!(lookup.get(&None, 6).map(|v| v.1.clone()), Some("helper".to_string()));
    assert!(lookup.get(&None, 40).is_none());
    let edges = effect_call_edges(&sites);
    let pairs: Vec<(String, String)> = edges.iter().map(|e| (e.owner_name.clone(), callee_name(e))).collect();
    assert_eq!(
        pairs,
        vec![
            ("main".to_string(), "write".to_string()),
            ("main".to_string(), "ready".to_string()),
            ("main".to_string(), "write".to_string()),
            ("helper".to_string(), "log".to_string()),
            ("helper".to_string(), "fmt".to_string()),
            ("main".to_string(), "Db.query".to_string()),
        ]
    );
}

#[test]
fn checks_then_diagnostics_for_a_strict_module() {
    let sites = sample_sites();
    let edges = effect_call_edges(&sites);
    let checks = effect_checks(&sites, &edges);
    assert_eq!(checks.len(), 3 + edges.len());
    let mut write_row = EffectRow::empty();
    write_row.insert(EffectKind::IoFs);
    let summaries = vec![
        EffectSummary { callable: "write".to_string(), owner_type_name: None, pure: false, row: write_row, sources: vec![EffectSource::Decorator("effect_io_fs".to_string())], line: 1 },
    ];
    let config = EffectCheckConfig { strict: true, module_kind: SourceKind::TypePython, effect_rows_enabled: true, taint_enabled: false };
    let diags = effect_capability_diagnostics(&config, "m.tpy", &sites, None, &vec![], &vec![], &summaries, &vec![]);
    assert_eq!(diags.len(), 1);
    assert_eq!(diags[0].code, "TPY4026");
    assert_eq!(diags[0].message, "function `main` calls effectful function `write` with uncovered effect row `io.fs`");
    let lax = EffectCheckConfig { strict: false, ..config };
    assert!(effect_capability_diagnostics(&lax, "m.tpy", &sites, None, &vec![], &vec![], &summaries, &vec![]).is_empty());
    let python = EffectCheckConfig { module_kind: SourceKind::Python, ..config };
    assert!(effect_capability_diagnostics(&python, "m.py", &sites, None, &vec![], &vec![], &summaries, &vec![]).is_empty());
}

#[test]
fn visible_summaries_add_inferred_callers() {
    let sites = sample_sites();
    let callables = vec![DecoratedCallable { name: "write".to_string(), owner_type_name: None, decorators: vec!["effect_io_fs".to_string()], line: 1 }];
    let visible = visible_effect_summaries(Some(&callables), &vec![], vec![], &vec![], &sites);
    let names: Vec<&str> = visible.iter().map(|s| s.callable.as_str()).collect();
    assert_eq!(names, vec!["write", "main"]);
    assert_eq!(visible[1].row.labels(), vec!["io.fs".to_string()]);
}

#[test]
fn module_summary_facts_include_inferred_callers() {
    let callables = vec![
        DecoratedCallable { name: "calc".to_string(), owner_type_name: None, decorators: vec!["effect_pure".to_string()], line: 1 },
        DecoratedCallable { name: "save".to_string(), owner_type_name: None, decorators: vec!["effects.effect_io_fs".to_string()], line: 4 },
    ];
    let mut sites = empty_sites();
    sites.call_context_sites.push(DirectCallContextSite { owner_name: Some("main".to_string()), owner_type_name: None, callee: "save".to_string(), line: 7 });
    let facts = collect_effect_summary_facts(true, false, &callables, &vec![], &vec![], &sites);
    let names: Vec<String> = facts.iter().map(|f| f.name.clone()).collect();
    assert_eq!(names, vec!["calc".to_string(), "main".to_string(), "save".to_string()]);
    assert!(facts[0].pure);
    assert_eq!(facts[1].effects, vec!["io.fs".to_string()]);
    assert_eq!(facts[2].effects, vec!["io.fs".to_string()]);
    assert!(collect_effect_summary_facts(false, false, &callables, &vec![], &vec![], &sites).is_empty());
    let taint_only = collect_effect_summary_facts(false, true, &callables, &vec![], &vec![], &sites);
    assert!(taint_only.is_empty());
}
