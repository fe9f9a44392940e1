use typepython_checking::declarations::{Declaration, DeclarationKind, GenericTypeParam, GenericTypeParamKind};
use typepython_checking::generic_solution::{
    FunctionParamSite, GenericSolution, ParamListBinding, TypePackBinding, combine_generic_substitutions,
    generic_binding_count, insert_param_spec_binding, synthesize_param_list_binding, select_best_union_branch_binding,
    without_shadowed_generic_params,
};
use typepython_checking::semantic_types::SemanticType;

fn name(n: &str) -> SemanticType {
    SemanticType::Name(n.to_string())
}

fn param(n: &str, annotation: Option<&str>) -> FunctionParamSite {
    FunctionParamSite {
        name: n.to_string(),
        annotation: annotation.map(|a| a.to_string()),
        has_default: false,
        positional_only: false,
        keyword_only: false,
        variadic: false,
        keyword_variadic: false,
    }
}

fn solution(types: &[(&str, &str)]) -> GenericSolution {
    let mut s = GenericSolution::empty();
    for (k, v) in types {
        s.types.set(k.to_string(), name(v));
    }
    s
}

fn type_of(s: &GenericSolution, k: &str) -> Option<String> {
    match s.types.get(k) {
        Some(SemanticType::Name(n)) => Some(n.clone()),
        _ => None,
    }
}

#[test]
fn binding_count_adds_all_tables() {
    let mut s = solution(&[("T", "int"), ("U", "str")]);
    s.type_packs.set("Ts".to_string(), TypePackBinding { types: vec![name("int")] });
    assert_eq!(generic_binding_count(&s), 3);
    s.types.set("T".to_string(), name("bytes"));
    assert_eq!(generic_binding_count(&s), 3);
    assert_eq!(generic_binding_count(&GenericSolution::empty()), 0);
}

#[test]
fn combining_prefers_inferred_bindings() {
    let existing = solution(&[("T", "int"), ("U", "str")]);
    let inferred = solution(&[("U", "bytes"), ("V", "float")]);
    let combined = combine_generic_substitutions(&existing, &inferred);
    assert_eq!(type_of(&combined, "T"), Some("int".to_string()));
    assert_eq!(type_of(&combined, "U"), Some("bytes".to_string()));
    assert_eq!(type_of(&combined, "V"), Some("float".to_string()));
    assert_eq!(generic_binding_count(&combined), 3);
}

#[test]
fn param_spec_binding_is_refused_when_it_conflicts() {
    let mut s = GenericSolution::empty();
    let first = ParamListBinding { params: vec![param("x", Some("int"))] };
    assert_eq!(insert_param_spec_binding(&mut s, "P", first), Some(()));
    let same = ParamListBinding { params: vec![param("x", Some("int"))] };
    assert_eq!(insert_param_spec_binding(&mut s, "P", same), Some(()));
    let other = ParamListBinding { params: vec![param("x", None)] };
    assert_eq!(insert_param_spec_binding(&mut s, "P", other), None);
    assert_eq!(generic_binding_count(&s), 1);
    assert_eq!(s.param_lists.get("P").unwrap().params[0].annotation, Some("int".to_string()));
}

#[test]
fn best_union_branch_needs_agreeing_smallest_candidates() {
    let small = solution(&[("T", "int")]);
    let large = solution(&[("T", "int"), ("U", "str")]);
    let best = select_best_union_branch_binding(vec![large, small]).unwrap();
    assert_eq!(generic_binding_count(&best), 1);
    assert_eq!(type_of(&best, "T"), Some("int".to_string()));
    let a = solution(&[("T", "int")]);
    let b = solution(&[("T", "str")]);
    assert!(select_best_union_branch_binding(vec![a, b]).is_none());
    let c = solution(&[("T", "int")]);
    let d = solution(&[("T", "int")]);
    assert!(select_best_union_branch_binding(vec![c, d]).is_some());
    assert!(select_best_union_branch_binding(vec![]).is_none());
}

#[test]
fn declaration_type_parameters_shadow_outer_bindings() {
    let mut s = solution(&[("T", "int"), ("U", "str")]);
    s.type_packs.set("Ts".to_string(), TypePackBinding { types: vec![] });
    let f = Declaration {
        name: "f".to_string(),
        kind: DeclarationKind::Function,
        detail: String::new(),
        owner: None,
        method_kind: None,
        is_abstract_method: false,
        is_final: false,
        is_class_var: false,
        bound_params: None,
        value_annotation: None,
        import_target: None,
        class_kind: None,
        bases: vec![],
        type_params: vec![
            GenericTypeParam { name: "T".to_string(), kind: GenericTypeParamKind::TypeVar },
            GenericTypeParam { name: "Ts".to_string(), kind: GenericTypeParamKind::TypeVarTuple },
        ],
        is_override: false,
        is_final_decorator: false,
    };
    let rest = without_shadowed_generic_params(s, &f);
    assert_eq!(type_of(&rest, "T"), None);
    assert_eq!(type_of(&rest, "U"), Some("str".to_string()));
    assert!(rest.type_packs.get("Ts").is_none());
    assert_eq!(generic_binding_count(&rest), 1);
}

#[test]
fn synthesized_param_lists_name_positional_args_by_index() {
    let params = synthesize_param_list_binding(vec!["int".to_string(), "str".to_string()]);
    assert_eq!(params.len(), 2);
    assert_eq!(params[0].name, "arg0");
    assert_eq!(params[0].annotation.as_deref(), Some("int"));
    assert_eq!(params[1].name, "arg1");
    assert_eq!(params[1].annotation.as_deref(), Some("str"));
    assert!(params.iter().all(|p| !p.has_default && !p.positional_only && !p.keyword_only && !p.variadic && !p.keyword_variadic));
    assert!(synthesize_param_list_binding(vec![]).is_empty());
}
