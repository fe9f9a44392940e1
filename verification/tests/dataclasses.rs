use typepython_checking::dataclass_checks::{
    DataclassTransformClassShape, DataclassTransformFieldShape, dataclass_transform_constructor_arity_diagnostic,
    dataclass_transform_constructor_keyword_diagnostics,
};
use typepython_checking::dataclass_shapes::{
    DataclassClassSite, DataclassFieldSite, DataclassTransformMetadata, synthesize_dataclass_transform_shape,
    synthesize_plain_dataclass_shape,
};
use typepython_checking::declarations::{Declaration, DeclarationKind, DeclarationOwner, DeclarationOwnerKind};
use typepython_checking::sites::CallSite;

fn field(name: &str, required: bool, kw_only: bool) -> DataclassTransformFieldShape {
    DataclassTransformFieldShape {
        name: name.to_string(),
        keyword_name: name.to_string(),
        annotation: "int".to_string(),
        required,
        kw_only,
    }
}

fn shape(fields: Vec<DataclassTransformFieldShape>) -> DataclassTransformClassShape {
    DataclassTransformClassShape { fields, frozen: false, has_explicit_init: false }
}

fn call(arg_count: usize, keywords: &[&str]) -> CallSite {
    CallSite {
        callee: "Point".to_string(),
        line: 3,
        arg_count,
        keyword_names: keywords.iter().map(|k| k.to_string()).collect(),
        arg_values: vec![],
        starred_arg_values: vec![],
        keyword_arg_values: vec![],
        keyword_expansion_values: vec![],
    }
}

fn messages(ds: &[typepython_checking::diagnostics::Diagnostic]) -> Vec<String> {
    ds.iter().map(|d| format!("{} {}", d.code, d.message)).collect()
}

#[test]
fn arity_reports_too_many_positional_arguments() {
    let s = shape(vec![field("x", true, false), field("y", true, false), field("tag", false, true)]);
    let d = dataclass_transform_constructor_arity_diagnostic("app.py", &call(3, &[]), &s).unwrap();
    assert_eq!(d.code, "TPY4001");
    assert_eq!(
        d.message,
        "call to `Point` in module `app.py` expects at most 2 positional argument(s) but received 3"
    );
}

#[test]
fn arity_reports_missing_required_fields_in_field_order() {
    let s = shape(vec![
        field("x", true, false),
        field("y", true, false),
        field("label", false, false),
        field("tag", true, true),
    ]);
    let d = dataclass_transform_constructor_arity_diagnostic("app.py", &call(1, &[]), &s).unwrap();
    assert_eq!(
        d.message,
        "call to `Point` in module `app.py` is missing required synthesized dataclass-transform field(s): y, tag"
    );
}

#[test]
fn arity_accepts_fields_passed_by_keyword() {
    let s = shape(vec![field("x", true, false), field("y", true, false), field("tag", true, true)]);
    assert!(dataclass_transform_constructor_arity_diagnostic("app.py", &call(1, &["y", "tag"]), &s).is_none());
    assert!(dataclass_transform_constructor_arity_diagnostic("app.py", &call(2, &["tag"]), &s).is_none());
}

#[test]
fn arity_counts_positions_over_all_fields() {
    // The keyword-only field sits before `y`; the positional argument count is compared with the
    // index of `y` among all fields, so two positional arguments do not reach it.
    let s = shape(vec![field("x", true, false), field("tag", false, true), field("y", true, false)]);
    let d = dataclass_transform_constructor_arity_diagnostic("app.py", &call(2, &[]), &s).unwrap();
    assert_eq!(
        d.message,
        "call to `Point` in module `app.py` is missing required synthesized dataclass-transform field(s): y"
    );
}

#[test]
fn keyword_diagnostics_report_unknown_then_double_bound() {
    let s = shape(vec![field("x", true, false), field("y", true, false), field("tag", false, true)]);
    let ds = dataclass_transform_constructor_keyword_diagnostics("app.py", &call(1, &["x", "z", "tag", "w"]), &s);
    assert_eq!(
        messages(&ds),
        vec![
            "TPY4001 call to `Point` in module `app.py` uses unknown synthesized dataclass-transform keyword `z`"
                .to_string(),
            "TPY4001 call to `Point` in module `app.py` uses unknown synthesized dataclass-transform keyword `w`"
                .to_string(),
            "TPY4001 call to `Point` in module `app.py` binds synthesized field `x` both positionally and by keyword"
                .to_string(),
        ]
    );
}

#[test]
fn keyword_diagnostics_accept_a_clean_call() {
    let s = shape(vec![field("x", true, false), field("y", true, false), field("tag", false, true)]);
    assert!(dataclass_transform_constructor_keyword_diagnostics("app.py", &call(1, &["y", "tag"]), &s).is_empty());
}

fn site_field(name: &str) -> DataclassFieldSite {
    DataclassFieldSite {
        name: name.to_string(),
        annotation: "int".to_string(),
        has_default: false,
        is_class_var: false,
        field_specifier_name: None,
        field_specifier_init: None,
        field_specifier_kw_only: None,
        field_specifier_alias: None,
        field_specifier_has_default: false,
        field_specifier_has_default_factory: false,
        value_is_descriptor: false,
    }
}

fn class_site(decorators: &[&str], fields: Vec<DataclassFieldSite>) -> DataclassClassSite {
    DataclassClassSite {
        name: "Point".to_string(),
        decorators: decorators.iter().map(|d| d.to_string()).collect(),
        methods: vec![],
        fields,
        plain_dataclass_init: true,
        plain_dataclass_kw_only: false,
        plain_dataclass_frozen: true,
    }
}

fn decl(name: &str, kind: DeclarationKind, owner: Option<&str>) -> Declaration {
    Declaration {
        name: name.to_string(),
        kind,
        detail: String::new(),
        owner: owner.map(|o| DeclarationOwner { name: o.to_string(), kind: DeclarationOwnerKind::Class }),
        method_kind: None,
        is_abstract_method: false,
        is_final: false,
        is_class_var: false,
        bound_params: None,
        value_annotation: None,
        import_target: None,
        class_kind: None,
        bases: vec![],
        type_params: vec![],
        is_override: false,
        is_final_decorator: false,
    }
}

fn names(shape: &DataclassTransformClassShape) -> Vec<(String, String, bool, bool)> {
    shape.fields.iter().map(|f| (f.name.clone(), f.keyword_name.clone(), f.required, f.kw_only)).collect()
}

#[test]
fn plain_dataclass_fields_follow_inherited_ones_and_replace_by_name() {
    let base = shape(vec![field("x", true, false), field("y", true, false)]);
    let mut y = site_field("y");
    y.has_default = true;
    let mut hidden = site_field("hidden");
    hidden.field_specifier_name = Some("field".to_string());
    hidden.field_specifier_init = Some(false);
    let mut tag = site_field("tag");
    tag.field_specifier_name = Some("dataclasses.field".to_string());
    tag.field_specifier_has_default_factory = true;
    tag.field_specifier_kw_only = Some(true);
    let mut counter = site_field("counter");
    counter.is_class_var = true;
    let site = class_site(&["dataclass"], vec![y, hidden, tag, counter, site_field("z")]);
    let shape = synthesize_plain_dataclass_shape(&decl("Point", DeclarationKind::Class, None), &site, &vec![base]).unwrap();
    assert_eq!(
        names(&shape),
        vec![
            ("x".to_string(), "x".to_string(), true, false),
            ("y".to_string(), "y".to_string(), false, false),
            ("tag".to_string(), "tag".to_string(), false, true),
            ("z".to_string(), "z".to_string(), true, false),
        ]
    );
    assert!(shape.frozen);
    assert!(!shape.has_explicit_init);
    let other = class_site(&["functools.total_ordering"], vec![site_field("z")]);
    assert!(synthesize_plain_dataclass_shape(&decl("Point", DeclarationKind::Class, None), &other, &vec![]).is_none());
}

#[test]
fn transform_fields_use_specifiers_aliases_and_defaults() {
    let meta = DataclassTransformMetadata {
        field_specifiers: vec!["models.model_field".to_string()],
        kw_only_default: true,
        frozen_default: false,
    };
    let mut aliased = site_field("user_id");
    aliased.field_specifier_name = Some("model_field".to_string());
    aliased.field_specifier_alias = Some("userId".to_string());
    aliased.field_specifier_kw_only = Some(false);
    let mut described = site_field("slot");
    described.value_is_descriptor = true;
    let mut skipped = site_field("cache");
    skipped.field_specifier_name = Some("model_field".to_string());
    skipped.field_specifier_init = Some(false);
    let mut plain = site_field("name");
    plain.has_default = true;
    let site = class_site(&["model"], vec![aliased, described, skipped, plain]);
    let decls = vec![decl("Point", DeclarationKind::Class, None), decl("__init__", DeclarationKind::Function, Some("Point"))];
    let shape = synthesize_dataclass_transform_shape(&decls, "Point", &site, &meta, &vec![]);
    assert_eq!(
        names(&shape),
        vec![
            ("user_id".to_string(), "userId".to_string(), true, false),
            ("name".to_string(), "name".to_string(), false, true),
        ]
    );
    assert!(!shape.frozen);
    assert!(shape.has_explicit_init);
}
