use typepython_checking::decorators::{decorator_is_semantic_metadata_only, taint_decorator_facts_from_effect_summary};
use typepython_checking::taint::{
    TaintContexts, TaintFact, TaintFacts, sanitizer_context_covers, sanitizer_contexts_cover_all,
    taint_context_matches, taint_contexts_matching_required, taint_sanitizer_contexts, taint_sink_contexts,
    taint_source_contexts, unsanitized_contexts_after_sanitizer,
};

fn ctx(c: &str) -> Option<String> {
    Some(c.to_string())
}

fn contexts(items: Vec<Option<String>>) -> TaintContexts {
    let mut out = TaintContexts::new();
    for c in items {
        out.insert(c);
    }
    out
}

fn sorted(c: &TaintContexts) -> Vec<Option<String>> {
    let mut v: Vec<Option<String>> = (0..c.len()).map(|i| c.get(i)).collect();
    v.sort();
    v
}

#[test]
fn context_matching_is_symmetric_and_unrestricted_matches_all() {
    assert!(taint_context_matches(&None, &ctx("sql")));
    assert!(taint_context_matches(&ctx("sql"), &None));
    assert!(taint_context_matches(&ctx("sql"), &ctx("sql")));
    assert!(!taint_context_matches(&ctx("sql"), &ctx("html")));
    assert!(!taint_context_matches(&ctx("html"), &ctx("sql")));
}

#[test]
fn sanitizer_covers_its_own_context_or_everything() {
    assert!(sanitizer_context_covers(&None, &ctx("sql")));
    assert!(sanitizer_context_covers(&None, &None));
    assert!(sanitizer_context_covers(&ctx("sql"), &ctx("sql")));
    assert!(!sanitizer_context_covers(&ctx("sql"), &None));
    assert!(!sanitizer_context_covers(&ctx("sql"), &ctx("html")));
    assert!(sanitizer_contexts_cover_all(&contexts(vec![ctx("sql"), None])));
    assert!(!sanitizer_contexts_cover_all(&contexts(vec![ctx("sql")])));
}

#[test]
fn facts_give_contexts_by_role() {
    let mut facts = TaintFacts::new();
    assert!(facts.is_empty());
    facts.insert(TaintFact::source(ctx("sql")));
    facts.insert(TaintFact::sink(None));
    facts.insert(TaintFact::source(ctx("html")));
    assert_eq!(sorted(&taint_source_contexts(&facts).unwrap()), vec![ctx("html"), ctx("sql")]);
    assert_eq!(sorted(&taint_sink_contexts(&facts).unwrap()), vec![None]);
    assert!(taint_sanitizer_contexts(&facts).is_none());
}

#[test]
fn contexts_matching_required_keep_reaching_ones() {
    let given = contexts(vec![ctx("sql"), ctx("html"), None]);
    let required = contexts(vec![ctx("sql")]);
    assert_eq!(sorted(&taint_contexts_matching_required(&given, Some(&required))), vec![None, ctx("sql")]);
    assert_eq!(sorted(&taint_contexts_matching_required(&given, None)), vec![None, ctx("html"), ctx("sql")]);
}

#[test]
fn unsanitized_contexts_are_required_ones_left_over() {
    let required = contexts(vec![ctx("sql"), ctx("html")]);
    let sql_only = contexts(vec![ctx("sql")]);
    assert_eq!(sorted(&unsanitized_contexts_after_sanitizer(&sql_only, Some(&required))), vec![ctx("html")]);
    let everything = contexts(vec![None]);
    assert!(unsanitized_contexts_after_sanitizer(&everything, Some(&required)).is_empty());
    assert!(unsanitized_contexts_after_sanitizer(&sql_only, None).is_empty());
}

#[test]
fn context_sets_insert_remove_and_extend() {
    let mut c = contexts(vec![ctx("a"), ctx("a"), None]);
    assert_eq!(c.len(), 2);
    assert!(c.contains(&ctx("a")));
    c.remove(&ctx("a"));
    assert!(!c.contains(&ctx("a")));
    c.extend(&contexts(vec![ctx("b")]));
    assert_eq!(sorted(&c), vec![None, ctx("b")]);
    assert_eq!(sorted(&c.clone_set()), vec![None, ctx("b")]);
}

fn stored(effects: &[&str], sources: &[&str]) -> typepython_checking::effect_summary::SummaryEffectFact {
    typepython_checking::effect_summary::SummaryEffectFact {
        name: "load".to_string(),
        owner_type_name: None,
        pure: false,
        effects: effects.iter().map(|e| e.to_string()).collect(),
        sources: sources.iter().map(|s| s.to_string()).collect(),
        line: 4,
    }
}

#[test]
fn stored_summaries_take_taint_from_sources_before_labels() {
    let facts = taint_decorator_facts_from_effect_summary(&stored(&["taint.sink"], &["app.hooks.source:sql"]));
    assert_eq!(sorted(&taint_source_contexts(&facts).unwrap()), vec![ctx("sql")]);
    assert!(taint_sink_contexts(&facts).is_none());
    let facts = taint_decorator_facts_from_effect_summary(&stored(&["taint.sink", "io.net"], &["app.cache"]));
    assert_eq!(sorted(&taint_sink_contexts(&facts).unwrap()), vec![None]);
    assert!(taint_source_contexts(&facts).is_none());
}

#[test]
fn semantic_metadata_decorators_are_recognised_by_short_name() {
    for d in ["effect", "typepython.effect_io_net", "pkg.sink:sql", "must_close", "validator"] {
        assert!(decorator_is_semantic_metadata_only(d), "{d}");
    }
    for d in ["property", "functools.cache", "pkg.sinks"] {
        assert!(!decorator_is_semantic_metadata_only(d), "{d}");
    }
}
