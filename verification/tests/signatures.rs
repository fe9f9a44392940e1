use typepython_checking::annotations::{
    FrameworkOwnedDecoratorKind, deprecated_diagnostic, extract_param_spec_args_name,
    extract_param_spec_kwargs_name, final_attribute_reassignment_diagnostic,
    framework_owned_decorator_kind, instance_initializer_access_cutoff, is_final_annotation_text,
    is_typed_dict_base_name, standard_object_member,
};
use typepython_checking::declarations::{Declaration, DeclarationKind};
use typepython_checking::diagnostics::{DiagnosticLevel, Severity};
use typepython_checking::signatures::{
    callable_has_unresolved_paramlist, callable_param_expr_mentions_param_spec, callable_params_are_unresolved, direct_param_count,
    direct_param_names, direct_param_types, direct_signature_params, parse_direct_signature_params,
    parse_import_target_ref, split_top_level_type_args,
};
use typepython_checking::typed_dict::{
    TypedDictExtraItemsShape, TypedDictFieldShape, TypedDictFieldShapeRef, TypedDictShape,
    typed_dict_known_or_extra_field, typed_dict_shape_has_unbounded_extra_keys,
};

#[test]
fn split_respects_brackets() {
    assert_eq!(
        split_top_level_type_args("int, dict[str, int], Callable[[int], str]"),
        vec!["int".to_string(), " dict[str, int]".to_string(), " Callable[[int], str]".to_string()]
    );
    assert_eq!(split_top_level_type_args("x"), vec!["x".to_string()]);
    assert_eq!(split_top_level_type_args("a,"), vec!["a".to_string(), String::new()]);
}

#[test]
fn signature_params_are_read_with_markers() {
    let params = direct_signature_params("(a: int, /, b: str = ..., *args: int, c: bool, **kw: str) -> None").unwrap();
    assert_eq!(params.len(), 5);
    assert_eq!(params[0].name, "a");
    assert_eq!(params[0].annotation, "int");
    assert!(params[0].positional_only);
    assert!(!params[0].keyword_only);
    assert_eq!(params[1].name, "b");
    assert_eq!(params[1].annotation, "str = ...");
    assert!(!params[1].positional_only);
    assert_eq!(params[2].name, "args");
    assert!(params[2].variadic);
    assert!(!params[2].keyword_only);
    assert_eq!(params[3].name, "c");
    assert!(params[3].keyword_only);
    assert_eq!(params[4].name, "kw");
    assert!(params[4].keyword_variadic);
    assert!(!params[4].keyword_only);
}

#[test]
fn signature_defaults_and_bare_star() {
    let params = parse_direct_signature_params("(x=, *, y: int=)").unwrap();
    assert_eq!(params.len(), 2);
    assert_eq!(params[0].name, "x");
    assert!(params[0].has_default);
    assert!(!params[0].keyword_only);
    assert_eq!(params[1].name, "y");
    assert_eq!(params[1].annotation, "int");
    assert!(params[1].has_default);
    assert!(params[1].keyword_only);
}

#[test]
fn signatures_without_parentheses_have_no_params() {
    assert!(direct_signature_params("int").is_none());
    assert!(direct_signature_params("(a, b").is_none());
    assert_eq!(direct_param_count("()"), Some(0));
    assert_eq!(direct_param_count("(a, b) -> int"), Some(2));
    assert_eq!(direct_param_names("(self, x: int)"), Some(vec!["self".to_string(), "x".to_string()]));
    assert_eq!(direct_param_types("(self, x: int)"), Some(vec![String::new(), "int".to_string()]));
    assert_eq!(direct_param_types("x"), None);
}

#[test]
fn unresolved_param_lists() {
    assert!(!callable_params_are_unresolved("..."));
    assert!(!callable_params_are_unresolved("  "));
    assert!(!callable_params_are_unresolved("[int, str]"));
    assert!(callable_params_are_unresolved("P"));
    assert!(callable_params_are_unresolved("Concatenate[int, P]"));
    assert!(!callable_params_are_unresolved("Concatenate[int, ...]"));
}

#[test]
fn param_spec_mentions() {
    let names = vec!["P".to_string()];
    assert!(callable_param_expr_mentions_param_spec(" P ", &names));
    assert!(callable_param_expr_mentions_param_spec("Concatenate[int, P]", &names));
    assert!(!callable_param_expr_mentions_param_spec("Concatenate[P, int]", &names));
    assert!(!callable_param_expr_mentions_param_spec("Q", &names));
}

#[test]
fn import_targets_split_at_the_last_dot() {
    let t = parse_import_target_ref("pkg.mod.symbol").unwrap();
    assert_eq!(t.raw_target, "pkg.mod.symbol");
    assert_eq!(t.module_target, "pkg.mod.symbol");
    let s = t.symbol_target.unwrap();
    assert_eq!(s.module_key, "pkg.mod");
    assert_eq!(s.symbol_name, "symbol");
    assert!(parse_import_target_ref("os").unwrap().symbol_target.is_none());
    assert!(parse_import_target_ref("").is_none());
}

#[test]
fn final_annotations() {
    assert!(is_final_annotation_text(" Final "));
    assert!(is_final_annotation_text("Final[int]"));
    assert!(is_final_annotation_text("typing.Final[str]"));
    assert!(!is_final_annotation_text("FinalThing"));
    assert!(!is_final_annotation_text("int"));
}

#[test]
fn typed_dict_bases() {
    assert!(is_typed_dict_base_name("TypedDict"));
    assert!(is_typed_dict_base_name(" typing_extensions.TypedDict "));
    assert!(!is_typed_dict_base_name("Dict"));
}

#[test]
fn param_spec_component_names() {
    assert_eq!(extract_param_spec_args_name("P.args"), Some("P".to_string()));
    assert_eq!(extract_param_spec_kwargs_name(" P .kwargs"), Some("P".to_string()));
    assert_eq!(extract_param_spec_args_name(".args"), None);
    assert_eq!(extract_param_spec_args_name("P.kwargs"), None);
}

#[test]
fn object_members() {
    assert!(standard_object_member("__init__"));
    assert!(standard_object_member("__subclasshook__"));
    assert!(!standard_object_member("__len__"));
}

#[test]
fn framework_decorators() {
    assert_eq!(framework_owned_decorator_kind("field_validator"), Some(FrameworkOwnedDecoratorKind::FieldValidator));
    assert_eq!(framework_owned_decorator_kind("pydantic.computed_field"), Some(FrameworkOwnedDecoratorKind::ComputedField));
    assert_eq!(framework_owned_decorator_kind("my_field_validator"), None);
    assert_eq!(framework_owned_decorator_kind("field_validator.x"), None);
    assert_eq!(framework_owned_decorator_kind("pydantic.model_serializer"), Some(FrameworkOwnedDecoratorKind::ModelSerializer));
    assert_eq!(FrameworkOwnedDecoratorKind::ModelSerializer.label(), "model_serializer");
}

#[test]
fn initializer_cutoff_only_in_own_init() {
    let class_decl = Declaration {
        name: "C".to_string(),
        kind: DeclarationKind::Class,
        detail: String::new(),
        owner: None,
        method_kind: None,
        is_abstract_method: false,
        is_final: false,
        is_class_var: false,
        bound_params: None,
        value_annotation: None,
        import_target: None,
        class_kind: None,
        bases: vec![],
        type_params: vec![],
        is_override: false,
        is_final_decorator: false,
    };
    let init = Some("__init__".to_string());
    let c = Some("C".to_string());
    assert_eq!(instance_initializer_access_cutoff("self", &init, &c, &class_decl, 7), Some(7));
    assert_eq!(instance_initializer_access_cutoff("other", &init, &c, &class_decl, 7), None);
    assert_eq!(instance_initializer_access_cutoff("self", &Some("run".to_string()), &c, &class_decl, 7), None);
    assert_eq!(instance_initializer_access_cutoff("self", &init, &Some("D".to_string()), &class_decl, 7), None);
}

#[test]
fn final_attribute_reassignment_message() {
    let d = final_attribute_reassignment_diagnostic("m.tpy", "C", "x");
    assert_eq!(d.code, "TPY4006");
    assert_eq!(d.message, "type `C` in module `m.tpy` reassigns Final binding `x`");
}

#[test]
fn deprecated_uses_follow_the_configured_level() {
    assert!(deprecated_diagnostic(DiagnosticLevel::Ignore, "old".to_string(), &None).is_none());
    let w = deprecated_diagnostic(DiagnosticLevel::Warning, "old".to_string(), &Some("use new".to_string())).unwrap();
    assert_eq!(w.code, "TPY4101");
    assert_eq!(w.severity, Severity::Warning);
    assert_eq!(w.notes, vec!["use new".to_string()]);
    let e = deprecated_diagnostic(DiagnosticLevel::Error, "old".to_string(), &Some(String::new())).unwrap();
    assert_eq!(e.severity, Severity::Error);
    assert!(e.notes.is_empty());
}

#[test]
fn typed_dict_fields_and_extra_items() {
    let shape = TypedDictShape {
        name: "Movie".to_string(),
        fields: vec![(
            "title".to_string(),
            TypedDictFieldShape { value_type: "str".to_string(), required: true, readonly: true },
        )],
        closed: false,
        extra_items: Some(TypedDictExtraItemsShape { value_type: "int".to_string(), readonly: false }),
    };
    let known = typed_dict_known_or_extra_field(&shape, "title").unwrap();
    assert!(matches!(known, TypedDictFieldShapeRef::Known(_)));
    assert_eq!(known.value_type(), "str");
    assert!(known.readonly());
    let extra = typed_dict_known_or_extra_field(&shape, "year").unwrap();
    assert_eq!(extra.value_type(), "int");
    assert!(!extra.readonly());
    assert!(!typed_dict_shape_has_unbounded_extra_keys(&shape));
    let open = TypedDictShape { name: "M".to_string(), fields: vec![], closed: false, extra_items: None };
    assert!(typed_dict_known_or_extra_field(&open, "year").is_none());
    assert!(typed_dict_shape_has_unbounded_extra_keys(&open));
}

#[test]
fn callable_types_with_a_pending_paramspec_are_unresolved() {
    assert!(callable_has_unresolved_paramlist("Callable[P, int]"));
    assert!(callable_has_unresolved_paramlist("Callable[Concatenate[int, P], str]"));
    assert!(!callable_has_unresolved_paramlist("Callable[[int, str], bool]"));
    assert!(!callable_has_unresolved_paramlist("Callable[..., bool]"));
    assert!(!callable_has_unresolved_paramlist("Callable[P]"));
    assert!(!callable_has_unresolved_paramlist("list[P]"));
    assert!(!callable_has_unresolved_paramlist("Callable["));
}
