use typepython_checking::diagnostics::Diagnostic;
use typepython_checking::method_call_variants::{
    CandidateResolution, MethodCallFacts, OverloadSelection, direct_method_call_variant_diagnostics,
};
use typepython_checking::sites::MethodCallSite;
use typepython_checking::variant_merge::{merge_receiver_variant_diagnostics, merge_variant_diagnostics, same_diagnostic};

fn call(method: &str, line: usize) -> MethodCallSite {
    MethodCallSite {
        current_owner_name: Some("main".to_string()),
        current_owner_type_name: None,
        owner_name: "repo".to_string(),
        method: method.to_string(),
        line,
        arg_values: vec![],
        starred_arg_values: vec![],
        keyword_arg_values: vec![],
        keyword_expansion_values: vec![],
    }
}

fn checks(codes: &[&str]) -> Vec<Diagnostic> {
    codes.iter().map(|c| Diagnostic::error(c, format!("{c} check"))).collect()
}

fn callable(overloads: Option<OverloadSelection>, candidate: CandidateResolution) -> MethodCallFacts {
    MethodCallFacts::Callable {
        class_name: "Repo".to_string(),
        overloads,
        candidate,
        fallback_checks: checks(&["TPY4002"]),
    }
}

fn codes(diags: &[Diagnostic]) -> Vec<&str> {
    diags.iter().map(|d| d.code.as_str()).collect()
}

#[test]
fn calls_without_a_class_report_nothing() {
    assert!(direct_method_call_variant_diagnostics("app.tpy", "app", &call("save", 3), MethodCallFacts::NoClass).is_empty());
}

#[test]
fn non_callable_members_are_reported() {
    let facts = MethodCallFacts::NoCallable { class_name: "Repo".to_string(), member_type: Some(("int".to_string(), false)) };
    let diags = direct_method_call_variant_diagnostics("app.tpy", "app", &call("size", 12), facts);
    assert_eq!(diags.len(), 1);
    assert_eq!(diags[0].code, "TPY4001");
    assert_eq!(diags[0].message, "member `size` on type `Repo` has non-callable type `int`");
    assert_eq!(diags[0].span.as_ref().unwrap().line, 12);
    let callable_member = MethodCallFacts::NoCallable { class_name: "Repo".to_string(), member_type: Some(("Callable[[], None]".to_string(), true)) };
    assert!(direct_method_call_variant_diagnostics("app.tpy", "app", &call("hook", 12), callable_member).is_empty());
    let missing = MethodCallFacts::NoCallable { class_name: "Repo".to_string(), member_type: None };
    assert!(direct_method_call_variant_diagnostics("app.tpy", "app", &call("gone", 12), missing).is_empty());
}

#[test]
fn a_selected_overload_decides_the_checks() {
    let facts = callable(Some(OverloadSelection::Selected(checks(&["TPY4001", "TPY4003"]))), CandidateResolution::Resolved(checks(&["TPY4009"])));
    assert_eq!(codes(&direct_method_call_variant_diagnostics("app.tpy", "app", &call("save", 3), facts)), vec!["TPY4001", "TPY4003"]);
}

#[test]
fn ambiguous_overloads_are_reported_with_their_count() {
    let facts = callable(Some(OverloadSelection::Ambiguous(3)), CandidateResolution::Failed);
    let diags = direct_method_call_variant_diagnostics("app.tpy", "app", &call("save", 3), facts);
    assert_eq!(diags.len(), 1);
    assert_eq!(diags[0].code, "TPY4012");
    assert_eq!(diags[0].message, "call to `Repo.save` in module `app.tpy` is ambiguous across 3 overloads after applicability filtering");
    assert!(diags[0].span.is_none());
}

#[test]
fn unresolved_generic_parameter_lists_are_reported() {
    let facts = callable(Some(OverloadSelection::NotApplicable(Some("P is unbound".to_string()))), CandidateResolution::Failed);
    let diags = direct_method_call_variant_diagnostics("app.tpy", "pkg.app", &call("run", 8), facts);
    assert_eq!(diags.len(), 1);
    assert_eq!(diags[0].code, "TPY4014");
    assert_eq!(
        diags[0].message,
        "call to `Repo.run` in module `pkg.app` is invalid because generic parameter list of `Repo.run` could not be resolved from this call"
    );
    assert_eq!(diags[0].notes, vec!["P is unbound".to_string()]);
    let method_failure = callable(None, CandidateResolution::GenericFailure("Ts is unbound".to_string()));
    let diags = direct_method_call_variant_diagnostics("app.tpy", "pkg.app", &call("run", 8), method_failure);
    assert_eq!(codes(&diags), vec!["TPY4014"]);
    assert_eq!(diags[0].notes, vec!["Ts is unbound".to_string()]);
}

#[test]
fn the_method_or_its_declared_parameters_decide_otherwise() {
    let resolved = callable(Some(OverloadSelection::NotApplicable(None)), CandidateResolution::Resolved(checks(&["TPY4009"])));
    assert_eq!(codes(&direct_method_call_variant_diagnostics("app.tpy", "app", &call("save", 3), resolved)), vec!["TPY4009"]);
    let fallback = callable(None, CandidateResolution::Failed);
    assert_eq!(codes(&direct_method_call_variant_diagnostics("app.tpy", "app", &call("save", 3), fallback)), vec!["TPY4002"]);
}

fn diag(code: &str, message: &str) -> Diagnostic {
    Diagnostic::error(code, message.to_string())
}

#[test]
fn receiver_variants_report_shared_diagnostics_once() {
    let merged = merge_receiver_variant_diagnostics(vec![
        vec![diag("TPY4001", "a"), diag("TPY4001", "b")],
        vec![diag("TPY4001", "b"), diag("TPY4002", "c")],
        vec![diag("TPY4001", "a"), diag("TPY4001", "a")],
    ]);
    let messages: Vec<&str> = merged.iter().map(|d| d.message.as_str()).collect();
    assert_eq!(messages, vec!["a", "b", "c", "a"]);
    assert!(merge_receiver_variant_diagnostics(vec![]).is_empty());
}

#[test]
fn merging_what_was_already_reported_adds_nothing() {
    let mut branch = vec![diag("TPY4001", "x"), diag("TPY4001", "x")];
    merge_variant_diagnostics(&mut branch, vec![diag("TPY4001", "x"), diag("TPY4001", "x")]);
    assert_eq!(branch.len(), 2);
}

#[test]
fn diagnostics_differing_in_any_part_are_not_the_same() {
    let plain = diag("TPY4001", "m");
    assert!(same_diagnostic(&plain, &diag("TPY4001", "m")));
    assert!(!same_diagnostic(&plain, &diag("TPY4002", "m")));
    assert!(!same_diagnostic(&plain, &diag("TPY4001", "m").with_note("n".to_string())));
    assert!(!same_diagnostic(&plain, &Diagnostic::warning("TPY4001", "m".to_string())));
}
