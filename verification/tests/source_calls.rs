use typepython_checking::generic_solution::FunctionParamSite;
use typepython_checking::source_calls::{
    KeywordExpansion, direct_source_function_arity_diagnostic, direct_source_function_keyword_diagnostics,
};
use typepython_checking::sites::CallSite;
use typepython_checking::typed_dict::{TypedDictExtraItemsShape, TypedDictFieldShape, TypedDictShape};

fn param(name: &str) -> FunctionParamSite {
    FunctionParamSite {
        name: name.to_string(),
        annotation: Some("int".to_string()),
        has_default: false,
        positional_only: false,
        keyword_only: false,
        variadic: false,
        keyword_variadic: false,
    }
}

fn call(arg_count: usize, keywords: &[&str]) -> CallSite {
    CallSite {
        callee: "f".to_string(),
        line: 2,
        arg_count,
        keyword_names: keywords.iter().map(|k| k.to_string()).collect(),
        arg_values: vec![],
        starred_arg_values: vec![],
        keyword_arg_values: vec![],
        keyword_expansion_values: vec![],
    }
}

fn field(required: bool) -> TypedDictFieldShape {
    TypedDictFieldShape { value_type: "int".to_string(), required, readonly: false }
}

fn shape(name: &str, fields: Vec<(&str, bool)>, closed: bool) -> TypedDictShape {
    TypedDictShape {
        name: name.to_string(),
        fields: fields.into_iter().map(|(k, r)| (k.to_string(), field(r))).collect(),
        closed,
        extra_items: None,
    }
}

fn messages(ds: &[typepython_checking::diagnostics::Diagnostic]) -> Vec<String> {
    ds.iter().map(|d| format!("{} {}", d.code, d.message)).collect()
}

#[test]
fn keywords_are_checked_against_the_signature() {
    let mut a = param("a");
    a.positional_only = true;
    let sig = vec![a, param("b"), param("c")];
    let ds = direct_source_function_keyword_diagnostics("m.tpy", &call(2, &["a", "zz", "b", "c"]), &sig, None, 2, &vec![]);
    assert_eq!(
        messages(&ds),
        vec![
            "TPY4001 call to `f` in module `m.tpy` passes positional-only parameter `a` as a keyword".to_string(),
            "TPY4001 call to `f` in module `m.tpy` uses unknown keyword `zz`".to_string(),
            "TPY4001 call to `f` in module `m.tpy` binds parameter `a` both positionally and by keyword".to_string(),
            "TPY4001 call to `f` in module `m.tpy` binds parameter `b` both positionally and by keyword".to_string(),
        ]
    );
}

#[test]
fn kwargs_take_unknown_keywords() {
    let mut kw = param("kwargs");
    kw.keyword_variadic = true;
    let sig = vec![param("a"), kw];
    assert!(direct_source_function_keyword_diagnostics("m.tpy", &call(0, &["x", "y"]), &sig, None, 0, &vec![]).is_empty());
}

#[test]
fn unpacked_typed_dict_keywords_need_a_declared_key() {
    let mut kw = param("kwargs");
    kw.keyword_variadic = true;
    let sig = vec![param("a"), kw];
    let opts = shape("Opts", vec![("debug", false)], true);
    let ds = direct_source_function_keyword_diagnostics("m.tpy", &call(1, &["debug", "verbose"]), &sig, Some(&opts), 1, &vec![]);
    assert_eq!(messages(&ds), vec!["TPY4001 call to `f` in module `m.tpy` uses unknown unpacked keyword `verbose`".to_string()]);
    let mut open = shape("Opts", vec![("debug", false)], false);
    open.extra_items = Some(TypedDictExtraItemsShape { value_type: "str".to_string(), readonly: false });
    assert!(direct_source_function_keyword_diagnostics("m.tpy", &call(1, &["verbose"]), &sig, Some(&open), 1, &vec![]).is_empty());
}

#[test]
fn typed_dict_expansions_are_checked_key_by_key() {
    let mut a = param("a");
    a.positional_only = true;
    let mut d = param("d");
    d.has_default = true;
    let sig = vec![a, param("b"), param("c"), d];
    let td = shape("Args", vec![("a", true), ("b", true), ("c", false), ("d", false), ("e", true)], false);
    let ds = direct_source_function_keyword_diagnostics(
        "m.tpy",
        &call(0, &["b"]),
        &sig,
        None,
        0,
        &vec![KeywordExpansion::TypedDict(td), KeywordExpansion::Mapping("int".to_string())],
    );
    assert_eq!(
        messages(&ds),
        vec![
            "TPY4013 call to `f` in module `m.tpy` cannot satisfy positional-only parameter `a` via `**Args`".to_string(),
            "TPY4013 call to `f` in module `m.tpy` expands `**Args` with duplicate key `b`".to_string(),
            "TPY4013 call to `f` in module `m.tpy` cannot satisfy required parameter `c` from optional TypedDict key in `**Args`".to_string(),
            "TPY4013 call to `f` in module `m.tpy` uses unknown `**Args` key `e`".to_string(),
            "TPY4013 call to `f` in module `m.tpy` cannot expand open TypedDict `Args` because it may contain undeclared keys".to_string(),
            "TPY4001 call to `f` in module `m.tpy` cannot expand `**dict[str, int]` without `**kwargs`".to_string(),
        ]
    );
}

#[test]
fn extra_items_of_an_expansion_need_kwargs() {
    let sig = vec![param("a")];
    let mut td = shape("Args", vec![("a", true)], true);
    td.extra_items = Some(TypedDictExtraItemsShape { value_type: "str".to_string(), readonly: false });
    let ds = direct_source_function_keyword_diagnostics("m.tpy", &call(0, &[]), &sig, None, 0, &vec![KeywordExpansion::TypedDict(td)]);
    assert_eq!(
        messages(&ds),
        vec!["TPY4013 call to `f` in module `m.tpy` cannot expand additional `**Args` keys of type `str` without `**kwargs`".to_string()]
    );
}

#[test]
fn a_clean_keyword_call_gets_no_errors() {
    let sig = vec![param("a"), param("b"), param("c")];
    assert!(direct_source_function_keyword_diagnostics("m.tpy", &call(1, &["c", "b"]), &sig, None, 1, &vec![]).is_empty());
}

#[test]
fn arity_reports_extra_positional_arguments() {
    let sig = vec![param("a"), param("b")];
    let d = direct_source_function_arity_diagnostic("m.tpy", &call(3, &[]), &sig, None, 3, 0, &vec![]).unwrap();
    assert_eq!(d.code, "TPY4001");
    assert_eq!(d.message, "call to `f` in module `m.tpy` expects at most 2 positional argument(s) but received 3");
    let d = direct_source_function_arity_diagnostic("m.tpy", &call(1, &[]), &sig, None, 1, 1, &vec![]).unwrap();
    assert_eq!(d.message, "call to `f` in module `m.tpy` expects at most 2 positional argument(s) but received 1");
    let mut dotted = call(1, &[]);
    dotted.callee = "obj.f".to_string();
    assert!(direct_source_function_arity_diagnostic("m.tpy", &dotted, &sig, None, 1, 1, &vec![]).is_none());
    let mut args = param("args");
    args.variadic = true;
    let open = vec![param("a"), args];
    assert!(direct_source_function_arity_diagnostic("m.tpy", &call(4, &[]), &open, None, 4, 1, &vec![]).is_none());
}

#[test]
fn arity_reports_missing_parameters_and_unpacked_keys() {
    let mut b = param("b");
    b.has_default = true;
    let mut k = param("k");
    k.keyword_only = true;
    let mut j = param("j");
    j.keyword_only = true;
    let mut kw = param("kwargs");
    kw.keyword_variadic = true;
    let sig = vec![param("a"), b, param("c"), k, j, kw];
    let opts = shape("Opts", vec![("debug", true), ("level", false), ("mode", true)], true);
    let supplied = shape("Given", vec![("j", true)], true);
    let d = direct_source_function_arity_diagnostic(
        "m.tpy",
        &call(1, &["mode"]),
        &sig,
        Some(&opts),
        1,
        0,
        &vec![KeywordExpansion::TypedDict(supplied)],
    )
    .unwrap();
    assert_eq!(d.message, "call to `f` in module `m.tpy` is missing required argument(s): c, k, debug");
    let all = direct_source_function_arity_diagnostic("m.tpy", &call(1, &["c", "k", "j"]), &sig, None, 1, 0, &vec![]);
    assert!(all.is_none());
}
