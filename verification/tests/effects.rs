use typepython_checking::effect_row::{EffectKind, EffectRow, effect_kind_from_label};
use typepython_checking::effect_summary::{
    CapabilityScope, EffectSource, EffectSummary, SummaryEffectFact, caller_effect_row_allows,
    capability_scopes_allow, effect_source_from_fact_source, effect_summary_from_function_fact,
    effect_summary_from_method_fact,
};
use typepython_checking::effect_diagnostics::{effect_call_warnings, effect_source_note, EffectCheck};
use typepython_checking::inference::{EffectCallCallee, EffectCallEdge, collect_inferred_effect_summaries};

fn row_of(kinds: Vec<EffectKind>) -> EffectRow {
    let mut row = EffectRow::empty();
    for k in kinds {
        row.insert(k);
    }
    row
}

fn summary(name: &str, owner: Option<&str>, pure: bool, kinds: Vec<EffectKind>, sources: Vec<EffectSource>, line: usize) -> EffectSummary {
    EffectSummary {
        callable: name.to_string(),
        owner_type_name: owner.map(|o| o.to_string()),
        pure,
        row: row_of(kinds),
        sources,
        line,
    }
}

#[test]
fn effect_rows_render_deterministically() {
    let mut row = EffectRow::empty();
    row.insert(EffectKind::Random);
    row.insert(EffectKind::IoNet);

    assert_eq!(row.labels(), vec![String::from("io.net"), String::from("random")]);
}

#[test]
fn capability_scope_can_represent_unsafe_grants() {
    let mut grants = EffectRow::empty();
    grants.insert(EffectKind::Unsafe);
    let scope = CapabilityScope {
        line_start: 3,
        line_end: 5,
        grants,
        source: EffectSource::UnsafeBlock,
    };

    assert_eq!(scope.grants.labels(), vec![String::from("unsafe")]);
}

#[test]
fn effect_row_insert_is_idempotent_and_ordered() {
    let mut row = EffectRow::empty();
    row.insert(EffectKind::Declared("zeta".to_string()));
    row.insert(EffectKind::Time);
    row.insert(EffectKind::Unsafe);
    row.insert(EffectKind::Time);
    row.insert(EffectKind::Declared("alpha".to_string()));
    assert_eq!(
        row.labels(),
        vec!["unsafe".to_string(), "time".to_string(), "alpha".to_string(), "zeta".to_string()]
    );
}

#[test]
fn effect_row_from_labels_round_trips_builtin_labels() {
    let labels = vec!["random".to_string(), "io.fs".to_string(), "taint.sanitize".to_string()];
    let row = EffectRow::from_labels(labels);
    assert_eq!(row.labels(), vec!["io.fs".to_string(), "random".to_string(), "taint.sanitize".to_string()]);
    let again = EffectRow::from_labels(row.labels());
    assert!(again.same_row(&row));
}

#[test]
fn effect_kind_from_label_maps_unknown_labels_to_declared() {
    assert_eq!(effect_kind_from_label("io.proc").label(), "io.proc");
    assert_eq!(effect_kind_from_label("custom.thing").label(), "custom.thing");
    assert!(matches!(effect_kind_from_label("custom.thing"), EffectKind::Declared(_)));
}

#[test]
fn effect_row_covers_subsets_only() {
    let big = row_of(vec![EffectKind::IoFs, EffectKind::IoNet]);
    let small = row_of(vec![EffectKind::IoNet]);
    assert!(big.covers(&small));
    assert!(!small.covers(&big));
    assert!(big.covers(&EffectRow::empty()));
}

#[test]
fn effect_row_extend_unions_rows() {
    let mut a = row_of(vec![EffectKind::Random]);
    let b = row_of(vec![EffectKind::IoFs, EffectKind::Random]);
    a.extend(&b);
    assert_eq!(a.labels(), vec!["io.fs".to_string(), "random".to_string()]);
}

#[test]
fn caller_row_allows_only_covered_effects() {
    let caller = summary("f", None, false, vec![EffectKind::IoFs], vec![EffectSource::Decorator("effect_io_fs".to_string())], 1);
    assert!(caller_effect_row_allows(Some(&caller), &row_of(vec![EffectKind::IoFs])));
    let inferred_only = summary("g", None, false, vec![EffectKind::IoFs], vec![EffectSource::Inferred("f".to_string())], 1);
    assert!(!caller_effect_row_allows(Some(&inferred_only), &row_of(vec![EffectKind::IoFs])));
    assert!(!caller_effect_row_allows(Some(&caller), &row_of(vec![EffectKind::IoNet])));
    assert!(!caller_effect_row_allows(None, &row_of(vec![EffectKind::IoNet])));
}

#[test]
fn capability_scopes_allow_inside_scope_lines() {
    let scope = CapabilityScope { line_start: 3, line_end: 5, grants: row_of(vec![EffectKind::Unsafe]), source: EffectSource::UnsafeBlock };
    let scopes = vec![scope];
    let unsafe_row = row_of(vec![EffectKind::Unsafe]);
    assert!(capability_scopes_allow(&scopes, 4, &unsafe_row));
    assert!(capability_scopes_allow(&scopes, 3, &unsafe_row));
    assert!(!capability_scopes_allow(&scopes, 6, &unsafe_row));
    assert!(!capability_scopes_allow(&scopes, 4, &row_of(vec![EffectKind::IoFs])));
    assert!(!capability_scopes_allow(&scopes, 4, &EffectRow::empty()));
}

#[test]
fn summary_display_names_and_declared_rows() {
    let m = summary("run", Some("Job"), false, vec![EffectKind::Time], vec![EffectSource::Inferred("x".to_string())], 2);
    assert_eq!(m.display_name(), "Job.run");
    assert!(!m.has_declared_effect_row());
    let f = summary("go", None, false, vec![EffectKind::Time], vec![EffectSource::Decorator("effect:time".to_string())], 2);
    assert_eq!(f.display_name(), "go");
    assert!(f.has_declared_effect_row());
}

#[test]
fn stored_sources_are_read_back() {
    assert!(matches!(effect_source_from_fact_source("inferred:f".to_string()), EffectSource::Inferred(n) if n == "f"));
    assert!(matches!(effect_source_from_fact_source("stdlib:os.remove".to_string()), EffectSource::Stdlib(n) if n == "os.remove"));
    assert!(matches!(effect_source_from_fact_source("effect:io.fs".to_string()), EffectSource::Decorator(n) if n == "effect:io.fs"));
}

#[test]
fn summaries_from_imported_facts_take_local_names() {
    let fact = SummaryEffectFact {
        name: "fetch".to_string(),
        owner_type_name: None,
        pure: false,
        effects: vec!["io.net".to_string()],
        sources: vec!["effect:io.net".to_string()],
        line: 7,
    };
    let s = effect_summary_from_function_fact("get".to_string(), fact.clone());
    assert_eq!(s.callable, "get");
    assert!(s.owner_type_name.is_none());
    assert_eq!(s.row.labels(), vec!["io.net".to_string()]);
    assert_eq!(s.line, 7);
    let m = effect_summary_from_method_fact("Client".to_string(), fact);
    assert_eq!(m.callable, "fetch");
    assert_eq!(m.owner_type_name.as_deref(), Some("Client"));
}

#[test]
fn effect_source_note_names_the_first_source_and_line() {
    let s = summary("f", None, false, vec![EffectKind::IoFs], vec![EffectSource::Decorator("effect_io_fs".to_string())], 12);
    assert_eq!(effect_source_note(&s), "effect declared by `effect_io_fs` on line 12");
    let none = summary("f", None, false, vec![EffectKind::IoFs], vec![], 3);
    assert_eq!(effect_source_note(&none), "effect source is unknown on line 3");
}

#[test]
fn uncovered_effect_calls_warn_once() {
    let summaries = vec![
        summary("write", None, false, vec![EffectKind::IoFs], vec![EffectSource::Decorator("effect_io_fs".to_string())], 1),
        summary("main", None, true, vec![], vec![EffectSource::Decorator("effect_pure".to_string())], 5),
    ];
    let check = |line: usize| EffectCheck {
        owner: "main".to_string(),
        owner_type_name: None,
        callee: EffectCallCallee::Function("write".to_string()),
        line,
    };
    let checks = vec![check(6), check(6), check(7)];
    let warnings = effect_call_warnings("m.tpy", &summaries, &[], &checks);
    assert_eq!(warnings.len(), 2);
    assert_eq!(warnings[0].code, "TPY4026");
    assert_eq!(
        warnings[0].message,
        "pure function `main` calls effectful function `write` with uncovered effect row `io.fs`"
    );
    assert_eq!(warnings[0].span.as_ref().unwrap().line, 6);
    assert_eq!(warnings[1].span.as_ref().unwrap().line, 7);
}

#[test]
fn covered_effect_calls_do_not_warn() {
    let summaries = vec![
        summary("write", None, false, vec![EffectKind::IoFs], vec![], 1),
        summary("main", None, false, vec![EffectKind::IoFs], vec![EffectSource::Decorator("effect_io_fs".to_string())], 5),
    ];
    let checks = vec![EffectCheck {
        owner: "main".to_string(),
        owner_type_name: None,
        callee: EffectCallCallee::Function("write".to_string()),
        line: 6,
    }];
    assert!(effect_call_warnings("m.tpy", &summaries, &[], &checks).is_empty());
}

#[test]
fn inference_propagates_effects_along_edges() {
    let seeds = vec![summary("write", None, false, vec![EffectKind::IoFs], vec![EffectSource::Decorator("effect_io_fs".to_string())], 1)];
    let edges = vec![
        EffectCallEdge { owner_type_name: None, owner_name: "save".to_string(), callee: EffectCallCallee::Function("write".to_string()), line: 9 },
        EffectCallEdge { owner_type_name: None, owner_name: "main".to_string(), callee: EffectCallCallee::Function("save".to_string()), line: 20 },
    ];
    let inferred = collect_inferred_effect_summaries(&edges, &seeds);
    assert_eq!(inferred.len(), 2);
    assert_eq!(inferred[0].callable, "main");
    assert_eq!(inferred[1].callable, "save");
    assert_eq!(inferred[0].row.labels(), vec!["io.fs".to_string()]);
    assert!(matches!(&inferred[1].sources[0], EffectSource::Inferred(n) if n == "write"));
    assert!(matches!(&inferred[0].sources[0], EffectSource::Inferred(n) if n == "save"));
    assert_eq!(inferred[1].line, 9);
}

#[test]
fn inference_without_edges_infers_nothing() {
    let seeds = vec![summary("write", None, false, vec![EffectKind::IoFs], vec![], 1)];
    assert!(collect_inferred_effect_summaries(&[], &seeds).is_empty());
}
