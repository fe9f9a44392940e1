use typepython_checking::argument_types::{TypeVerdict, positional_and_keyword_type_diagnostics};
use typepython_checking::diagnostics::Diagnostic;
use typepython_checking::sites::CallSite;
use typepython_checking::source_calls::KeywordExpansion;
use typepython_checking::typed_dict::{TypedDictExtraItemsShape, TypedDictFieldShape, TypedDictShape};

fn call(keywords: &[&str]) -> CallSite {
    CallSite {
        callee: "build".to_string(),
        line: 4,
        arg_count: 0,
        keyword_names: keywords.iter().map(|k| k.to_string()).collect(),
        arg_values: vec![],
        starred_arg_values: vec![],
        keyword_arg_values: vec![],
        keyword_expansion_values: vec![],
    }
}

fn strings(items: &[&str]) -> Vec<String> {
    items.iter().map(|s| s.to_string()).collect()
}

fn verdict(expected: &str, actual: &str, ok: bool, notes: &[&str]) -> TypeVerdict {
    TypeVerdict { expected: expected.to_string(), actual: actual.to_string(), assignable: ok, matches: ok, notes: strings(notes) }
}

fn shape(name: &str, fields: &[(&str, &str)], extra: Option<&str>) -> TypedDictShape {
    TypedDictShape {
        name: name.to_string(),
        fields: fields
            .iter()
            .map(|(k, t)| (k.to_string(), TypedDictFieldShape { value_type: t.to_string(), required: true, readonly: false }))
            .collect(),
        closed: extra.is_some(),
        extra_items: extra.map(|t| TypedDictExtraItemsShape { value_type: t.to_string(), readonly: false }),
    }
}

fn messages(diags: &[Diagnostic]) -> Vec<&str> {
    diags.iter().map(|d| d.message.as_str()).collect()
}

#[test]
fn positional_and_variadic_arguments_are_checked() {
    let verdicts = vec![verdict("int", "str", false, &["source: `str`", "target: `int`"]), verdict("bytes", "int", false, &[])];
    let diags = positional_and_keyword_type_diagnostics(
        "app.tpy",
        &call(&[]),
        &strings(&["str", "int", "int", ""]),
        &vec![],
        &strings(&["int", "int"]),
        &strings(&["a", "b"]),
        Some("bytes"),
        None,
        None,
        &strings(&["int"]),
        &vec![],
        &verdicts,
    );
    assert_eq!(
        messages(&diags),
        vec![
            "call to `build` in module `app.tpy` passes `str` where parameter expects `int`",
            "call to `build` in module `app.tpy` passes `int` where variadic parameter expects `bytes`",
            "call to `build` in module `app.tpy` expands `*args` element type `int` where variadic parameter expects `bytes`",
        ]
    );
    assert_eq!(diags[0].notes, strings(&["source: `str`", "target: `int`"]));
    assert!(diags.iter().all(|d| d.code == "TPY4001" && d.span.is_none()));
}

#[test]
fn keywords_go_to_parameters_unpacked_keys_or_kwargs() {
    let unpack = shape("Options", &[("debug", "bool")], None);
    let verdicts = vec![verdict("int", "str", false, &[]), verdict("bool", "int", false, &[]), verdict("float", "str", false, &[])];
    let diags = positional_and_keyword_type_diagnostics(
        "app.tpy",
        &call(&["size", "debug", "other"]),
        &vec![],
        &strings(&["str", "int", "str"]),
        &strings(&["int"]),
        &strings(&["size"]),
        None,
        Some("float"),
        Some(&unpack),
        &vec![],
        &vec![],
        &verdicts,
    );
    assert_eq!(
        messages(&diags),
        vec![
            "call to `build` in module `app.tpy` passes `str` for keyword `size` where parameter expects `int`",
            "call to `build` in module `app.tpy` passes `int` for unpacked keyword `debug` where TypedDict key expects `bool`",
            "call to `build` in module `app.tpy` passes `str` for keyword `other` where variadic keyword parameter expects `float`",
        ]
    );
}

#[test]
fn expansions_are_checked_key_by_key() {
    let expanded = shape("Cfg", &[("size", "str"), ("color", "int")], Some("bytes"));
    let verdicts = vec![
        verdict("int", "str", false, &["ignored"]),
        verdict("float", "int", false, &[]),
        verdict("float", "bytes", false, &[]),
        verdict("float", "list[int]", false, &[]),
    ];
    let diags = positional_and_keyword_type_diagnostics(
        "app.tpy",
        &call(&[]),
        &vec![],
        &vec![],
        &strings(&["int"]),
        &strings(&["size"]),
        None,
        Some("float"),
        None,
        &vec![],
        &vec![KeywordExpansion::TypedDict(expanded), KeywordExpansion::Mapping("list[int]".to_string())],
        &verdicts,
    );
    assert_eq!(
        messages(&diags),
        vec![
            "call to `build` in module `app.tpy` expands `**Cfg` key `size` with type `str` where parameter expects `int`",
            "call to `build` in module `app.tpy` expands `**Cfg` key `color` with type `int` where `**kwargs` expects `float`",
            "call to `build` in module `app.tpy` expands additional `**Cfg` keys of type `bytes` where extra keywords expect `float`",
            "call to `build` in module `app.tpy` expands `**dict[str, list[int]]` where `**kwargs` expects `float`",
        ]
    );
    let codes: Vec<&str> = diags.iter().map(|d| d.code.as_str()).collect();
    assert_eq!(codes, vec!["TPY4013", "TPY4013", "TPY4013", "TPY4001"]);
    assert!(diags[0].notes.is_empty());
}

#[test]
fn fitting_or_unknown_types_report_nothing() {
    let verdicts = vec![verdict("int", "bool", true, &[])];
    let diags = positional_and_keyword_type_diagnostics(
        "app.tpy",
        &call(&["n"]),
        &strings(&["bool", "str"]),
        &strings(&[""]),
        &strings(&["int", ""]),
        &strings(&["n"]),
        None,
        None,
        None,
        &strings(&["str"]),
        &vec![KeywordExpansion::Mapping("int".to_string())],
        &verdicts,
    );
    assert!(diags.is_empty());
}
