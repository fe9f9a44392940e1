use typepython_checking::augmented_assignments::{
    AugmentedTypeCheck, current_augmented_assignment_target_is_final, simple_name_augmented_assignment_diagnostics,
};
use typepython_checking::declarations::{Declaration, DeclarationKind};
use typepython_checking::sites::{AssignmentSite, InvalidationSite};

fn assign(name: &str, owner: Option<&str>, owner_type: Option<&str>, line: usize, annotation: Option<&str>, aug: bool) -> AssignmentSite {
    AssignmentSite {
        name: name.to_string(),
        owner_name: owner.map(str::to_string),
        owner_type_name: owner_type.map(str::to_string),
        line,
        annotation: annotation.map(str::to_string),
        value: None,
        value_callee: None,
        value_method_owner_name: None,
        value_method_name: None,
        value_binop_left_name: if aug { Some(name.to_string()) } else { None },
        value_binop_operator: if aug { Some("+".to_string()) } else { None },
        has_value_binop_right: aug,
    }
}

fn rebind(name: &str, owner: Option<&str>, owner_type: Option<&str>, line: usize) -> InvalidationSite {
    InvalidationSite {
        rebind_like: true,
        line,
        owner_name: owner.map(str::to_string),
        owner_type_name: owner_type.map(str::to_string),
        names: vec![name.to_string()],
    }
}

fn final_value(name: &str) -> Declaration {
    Declaration {
        name: name.to_string(),
        kind: DeclarationKind::Value,
        detail: String::new(),
        owner: None,
        method_kind: None,
        is_abstract_method: false,
        is_final: true,
        is_class_var: false,
        bound_params: None,
        value_annotation: None,
        import_target: None,
        class_kind: None,
        bases: vec![],
        type_params: vec![],
        is_override: false,
        is_final_decorator: false,
    }
}

fn check(expected: &str, actual: &str, matches: bool) -> Option<AugmentedTypeCheck> {
    Some(AugmentedTypeCheck { expected: expected.to_string(), actual: actual.to_string(), matches })
}

#[test]
fn final_targets_are_found_by_declaration_or_earlier_annotation() {
    let decls = vec![final_value("LIMIT")];
    let assignments = vec![
        assign("count", Some("run"), None, 2, Some("Final[int]"), false),
        assign("count", Some("run"), None, 5, None, true),
        assign("LIMIT", None, None, 7, None, true),
        assign("other", Some("run"), None, 8, None, true),
    ];
    assert!(current_augmented_assignment_target_is_final(&decls, &assignments, &assignments[1]));
    assert!(current_augmented_assignment_target_is_final(&decls, &assignments, &assignments[2]));
    assert!(!current_augmented_assignment_target_is_final(&decls, &assignments, &assignments[3]));
    assert!(!current_augmented_assignment_target_is_final(&decls, &assignments, &assignments[0]));
}

#[test]
fn augmented_assignments_report_final_targets_and_type_mismatches() {
    let decls = vec![final_value("LIMIT")];
    let assignments = vec![
        assign("LIMIT", None, None, 3, None, true),
        assign("total", Some("run"), None, 4, None, true),
        assign("size", Some("grow"), Some("Box"), 6, None, true),
        assign("n", None, None, 7, None, true),
        assign("fine", None, None, 8, None, true),
        assign("unbound", None, None, 9, None, true),
    ];
    let invalidations = vec![
        rebind("LIMIT", None, None, 3),
        rebind("total", Some("run"), None, 4),
        rebind("size", Some("grow"), Some("Box"), 6),
        rebind("n", None, None, 7),
        rebind("fine", None, None, 8),
    ];
    let checks = vec![
        None,
        check("int", "str", false),
        check("int", "float", false),
        check("bytes", "str", false),
        check("int", "int", true),
        check("int", "str", false),
    ];
    let ds = simple_name_augmented_assignment_diagnostics("m.tpy", &decls, &assignments, &invalidations, &checks);
    let got: Vec<String> = ds.iter().map(|d| format!("{} {}", d.code, d.message)).collect();
    assert_eq!(
        got,
        vec![
            "TPY4006 module `m.tpy` reassigns Final binding `LIMIT`".to_string(),
            "TPY4001 function `run` in module `m.tpy` augmented-assigns `str` where local `total` expects `int`".to_string(),
            "TPY4001 type `Box` in module `m.tpy` augmented-assigns `float` where local `size` in `grow` expects `int`".to_string(),
            "TPY4001 module `m.tpy` augmented-assigns `str` where `n` expects `bytes`".to_string(),
        ]
    );
}
