use typepython_checking::declaration_semantics::{
    declaration_import_target_ref, declaration_signature_param_count, declaration_signature_param_names,
    declaration_signature_param_types, declaration_value_annotation_text,
};
use typepython_checking::declarations::{Declaration, DeclarationKind};
use typepython_checking::match_cases::{match_case_insertion_edit, source_lines};
use typepython_checking::reporting::SemanticTypeAssignabilityFailure;
use typepython_checking::return_trace::{describe_return_trace_expression, same_return_owner};
use typepython_checking::semantic_types::{
    MatchPattern, SemanticCallableParam, SemanticCallableParams, SemanticType, decorated_function_return_semantic_type_from_semantic_callable,
    dynamic_callable_boundary, enum_member_name_from_pattern, expected_type_pack_index,
    keyword_duplicates_positional_arguments, pattern_class_name, semantic_callable_has_unresolved_paramlist,
    semantic_callable_params_are_unresolved, semantic_type_missing, substitute_self_semantic_type,
};
use typepython_checking::signatures::{DirectSignatureParam, parse_import_target_ref};
use typepython_checking::sites::{CallSite, ReturnSite};

fn name(n: &str) -> SemanticType {
    SemanticType::Name(n.to_string())
}

fn is_name(t: &SemanticType, n: &str) -> bool {
    matches!(t, SemanticType::Name(x) if x == n)
}

fn decl(kind: DeclarationKind, detail: &str) -> Declaration {
    Declaration {
        name: "f".to_string(),
        kind,
        detail: detail.to_string(),
        owner: None,
        method_kind: None,
        is_abstract_method: false,
        is_final: false,
        is_class_var: false,
        bound_params: None,
        value_annotation: None,
        import_target: None,
        class_kind: None,
        bases: vec![],
        type_params: vec![],
        is_override: false,
        is_final_decorator: false,
    }
}

fn ret(owner: &str) -> ReturnSite {
    ReturnSite {
        owner_name: owner.to_string(),
        owner_type_name: None,
        line: 1,
        value: None,
        value_callee: None,
        value_method_owner_name: None,
        value_method_name: None,
        value_name: None,
        value_member_owner_name: None,
        value_member_name: None,
        value_subscript_string_key: None,
        value_has_lambda: false,
        value_has_list_elements: false,
        value_has_set_elements: false,
        value_has_dict_entries: false,
        value_has_subscript_target: false,
    }
}

fn param(n: &str, keyword_only: bool, variadic: bool) -> SemanticCallableParam {
    SemanticCallableParam {
        name: n.to_string(),
        annotation_text: None,
        annotation: None,
        has_default: false,
        positional_only: false,
        keyword_only,
        variadic,
        keyword_variadic: false,
    }
}

fn call(arg_count: usize, keywords: &[&str]) -> CallSite {
    CallSite {
        callee: "f".to_string(),
        line: 1,
        arg_count,
        keyword_names: keywords.iter().map(|k| k.to_string()).collect(),
        arg_values: vec![],
        starred_arg_values: vec![],
        keyword_arg_values: vec![],
        keyword_expansion_values: vec![],
    }
}

#[test]
fn substitute_self_replaces_every_self_name() {
    let ty = SemanticType::Generic { head: "list".to_string(), args: vec![name("Self"), name("int")] };
    let owner = name("Box");
    match substitute_self_semantic_type(&ty, Some(&owner)) {
        SemanticType::Generic { head, args } => {
            assert_eq!(head, "list");
            assert!(is_name(&args[0], "Box"));
            assert!(is_name(&args[1], "int"));
        }
        other => panic!("unexpected {:?}", other),
    }
    assert!(is_name(&substitute_self_semantic_type(&name("Self"), None), "Self"));
}

#[test]
fn callable_parts_and_boundary() {
    let boundary = dynamic_callable_boundary();
    match &boundary {
        SemanticType::Callable { params: SemanticCallableParams::Ellipsis, return_type } => {
            assert!(is_name(return_type, "dynamic"))
        }
        other => panic!("unexpected {:?}", other),
    }
    let ret_ty = decorated_function_return_semantic_type_from_semantic_callable(&boundary).unwrap();
    assert!(is_name(&ret_ty, "dynamic"));
    assert!(decorated_function_return_semantic_type_from_semantic_callable(&name("int")).is_none());
    assert!(!semantic_callable_has_unresolved_paramlist(&boundary));
    let single = SemanticType::Callable {
        params: SemanticCallableParams::Single(Box::new(name("P"))),
        return_type: Box::new(name("int")),
    };
    assert!(semantic_callable_has_unresolved_paramlist(&single));
    assert!(semantic_callable_params_are_unresolved(&SemanticCallableParams::Concatenate(vec![name("int")])));
    assert!(!semantic_callable_params_are_unresolved(&SemanticCallableParams::ParamList(vec![])));
    assert!(semantic_type_missing(&name("")));
    assert!(!semantic_type_missing(&name("int")));
}

#[test]
fn type_pack_index_needs_exactly_one_unpack() {
    let packs = vec!["Ts".to_string()];
    let args = vec![name("int"), SemanticType::Unpack(Box::new(name(" Ts ")))];
    assert_eq!(expected_type_pack_index(&args, &packs), Some((1, "Ts".to_string())));
    let twice = vec![SemanticType::Unpack(Box::new(name("Ts"))), SemanticType::Unpack(Box::new(name("Ts")))];
    assert_eq!(expected_type_pack_index(&twice, &packs), None);
    let other = vec![SemanticType::Unpack(Box::new(name("Us")))];
    assert_eq!(expected_type_pack_index(&other, &packs), None);
}

#[test]
fn keyword_that_repeats_a_positional_argument_is_found() {
    let params = vec![param("a", false, false), param("b", false, false), param("c", true, false)];
    assert!(keyword_duplicates_positional_arguments(&call(1, &["a"]), &params));
    assert!(!keyword_duplicates_positional_arguments(&call(1, &["b"]), &params));
    assert!(!keyword_duplicates_positional_arguments(&call(3, &["c"]), &params));
    assert!(keyword_duplicates_positional_arguments(&call(5, &["b"]), &params));
    let variadic = vec![param("args", false, true), param("a", false, false)];
    assert!(!keyword_duplicates_positional_arguments(&call(1, &["args"]), &variadic));
}

#[test]
fn patterns_name_classes_and_enum_members() {
    assert_eq!(pattern_class_name(&MatchPattern::Class("Point".to_string())), Some("Point"));
    assert_eq!(pattern_class_name(&MatchPattern::Other), None);
    let lit = MatchPattern::Literal("Color.RED".to_string());
    assert_eq!(enum_member_name_from_pattern(&lit, "Color"), Some("RED".to_string()));
    assert_eq!(enum_member_name_from_pattern(&lit, "Shade"), None);
    assert_eq!(enum_member_name_from_pattern(&MatchPattern::Literal("RED".to_string()), "Color"), None);
}

#[test]
fn declaration_params_come_from_bound_facts_or_detail() {
    let f = decl(DeclarationKind::Function, "(x: int, y: str) -> None");
    assert_eq!(declaration_signature_param_count(&f), Some(2));
    assert_eq!(declaration_signature_param_names(&f), Some(vec!["x".to_string(), "y".to_string()]));
    assert_eq!(declaration_signature_param_types(&f), Some(vec!["int".to_string(), "str".to_string()]));
    let mut bound = decl(DeclarationKind::Function, "(x: int, y: str) -> None");
    bound.bound_params = Some(vec![DirectSignatureParam {
        name: "z".to_string(),
        annotation: "bytes".to_string(),
        has_default: false,
        positional_only: false,
        keyword_only: false,
        variadic: false,
        keyword_variadic: false,
    }]);
    assert_eq!(declaration_signature_param_count(&bound), Some(1));
    assert_eq!(declaration_signature_param_names(&bound), Some(vec!["z".to_string()]));
    assert_eq!(declaration_signature_param_count(&decl(DeclarationKind::Value, "(x: int) -> None")), None);
}

#[test]
fn value_annotation_and_import_target() {
    assert_eq!(declaration_value_annotation_text(&decl(DeclarationKind::Value, "int")), Some("int".to_string()));
    assert_eq!(declaration_value_annotation_text(&decl(DeclarationKind::Value, "   ")), None);
    let mut v = decl(DeclarationKind::Value, "int");
    v.value_annotation = Some("str".to_string());
    assert_eq!(declaration_value_annotation_text(&v), Some("str".to_string()));
    let imp = declaration_import_target_ref(&decl(DeclarationKind::Import, "pkg.mod.Thing")).unwrap();
    assert_eq!(imp.raw_target, "pkg.mod.Thing");
    let sym = imp.symbol_target.unwrap();
    assert_eq!(sym.module_key, "pkg.mod");
    assert_eq!(sym.symbol_name, "Thing");
    let mut bound = decl(DeclarationKind::Import, "ignored");
    bound.import_target = parse_import_target_ref("os");
    let os = declaration_import_target_ref(&bound).unwrap();
    assert_eq!(os.raw_target, "os");
    assert!(os.symbol_target.is_none());
    assert!(declaration_import_target_ref(&decl(DeclarationKind::Value, "os")).is_none());
}

#[test]
fn return_trace_descriptions() {
    assert_eq!(describe_return_trace_expression(&ret("f")), "bare return");
    let mut named = ret("f");
    named.value_name = Some("x".to_string());
    assert_eq!(describe_return_trace_expression(&named), "return x");
    let mut method = ret("f");
    method.value_method_owner_name = Some("self".to_string());
    method.value_method_name = Some("build".to_string());
    assert_eq!(describe_return_trace_expression(&method), "return self.build(...)");
    let mut callee = ret("f");
    callee.value_callee = Some("make".to_string());
    assert_eq!(describe_return_trace_expression(&callee), "return make(...)");
    let mut lambda = ret("f");
    lambda.value_has_lambda = true;
    assert_eq!(describe_return_trace_expression(&lambda), "return lambda");
    let mut subscript = ret("f");
    subscript.value_has_subscript_target = true;
    subscript.value_subscript_string_key = Some("k".to_string());
    assert_eq!(describe_return_trace_expression(&subscript), "return [...][\"k\"]");
    let mut dict = ret("f");
    dict.value_has_dict_entries = true;
    assert_eq!(describe_return_trace_expression(&dict), "return dict literal");
    assert!(same_return_owner(&ret("f"), &ret("f")));
    assert!(!same_return_owner(&ret("f"), &ret("g")));
}

#[test]
fn assignability_reason_note() {
    let failure = SemanticTypeAssignabilityFailure {
        expected: "int".to_string(),
        actual: "str".to_string(),
        mismatch_path: vec![],
        detail: None,
    };
    assert_eq!(failure.primary_reason_note(), "reason: `str` is not assignable to `int` under semantic type checking");
}

#[test]
fn source_lines_split_like_str_lines() {
    assert_eq!(source_lines("a\r\nb\n\nc"), vec!["a", "b", "", "c"]);
    assert_eq!(source_lines("a\n"), vec!["a"]);
    assert_eq!(source_lines(""), Vec::<String>::new());
}

#[test]
fn missing_case_arms_are_inserted_after_the_match_block() {
    let source = "def f(x):\n    match x:\n        case 1:\n            pass\n    return x\n";
    let (span, text) = match_case_insertion_edit(
        "m.py",
        Some(source),
        2,
        &vec![3],
        &vec!["case 2:\n  pass".to_string()],
    )
    .unwrap();
    assert_eq!((span.line, span.column, span.end_line, span.end_column), (5, 1, 5, 1));
    assert_eq!(span.path, "m.py");
    assert_eq!(text, "        case 2:\n            pass\n");
}

#[test]
fn missing_case_arms_go_to_the_end_when_the_block_runs_out() {
    let source = "match x:\n    case 1:\n        pass";
    let (span, text) =
        match_case_insertion_edit("m.py", Some(source), 1, &vec![], &vec!["case _:\npass".to_string()]).unwrap();
    assert_eq!((span.line, span.column), (3, 13));
    assert_eq!(text, "\n    case _:\n        pass\n");
    assert!(match_case_insertion_edit("m.py", Some(source), 1, &vec![], &vec![]).is_none());
    assert!(match_case_insertion_edit("m.py", None, 1, &vec![], &vec!["case _:".to_string()]).is_none());
    assert!(match_case_insertion_edit("m.py", Some(source), 9, &vec![], &vec!["case _:".to_string()]).is_none());
    assert!(match_case_insertion_edit("m.py", Some(source), 0, &vec![], &vec!["case _:".to_string()]).is_none());
}
