use typepython_checking::declarations::{
    Declaration, DeclarationKind, DeclarationOwner, DeclarationOwnerKind, MethodKind,
    abstract_member_index, classvar_placement_diagnostic, declaration_spaces, declarations_named,
    duplicate_diagnostics, duplicate_message, final_reassignment_diagnostic, invalid_duplicates,
    is_invalid_duplicate_group, is_permitted_external_overload_group, leading_space_count,
    overload_shape_diagnostic, overload_shape_message,
};
use typepython_checking::diagnostics::SourceKind;
use typepython_checking::property_setters::property_setter_compatibility_diagnostics;

fn decl(name: &str, kind: DeclarationKind, owner: Option<(&str, DeclarationOwnerKind)>) -> Declaration {
    Declaration {
        name: name.to_string(),
        kind,
        detail: String::new(),
        owner: owner.map(|(n, k)| DeclarationOwner { name: n.to_string(), kind: k }),
        method_kind: None,
        is_abstract_method: false,
        is_final: false,
        is_class_var: false,
        bound_params: None,
        value_annotation: None,
        import_target: None,
        class_kind: None,
        bases: vec![],
        type_params: vec![],
        is_override: false,
        is_final_decorator: false,
    }
}

fn property(name: &str, owner: &str, detail: &str, m: MethodKind) -> Declaration {
    let owner = if owner.is_empty() { None } else { Some((owner, DeclarationOwnerKind::Class)) };
    let mut d = with_method(decl(name, DeclarationKind::Function, owner), m);
    d.detail = detail.to_string();
    d
}

fn with_method(mut d: Declaration, m: MethodKind) -> Declaration {
    d.method_kind = Some(m);
    d
}

#[test]
fn leading_space_count_counts_only_spaces() {
    assert_eq!(leading_space_count("    x = 1"), 4);
    assert_eq!(leading_space_count("x"), 0);
    assert_eq!(leading_space_count("   "), 3);
    assert_eq!(leading_space_count("\t x"), 0);
}

#[test]
fn abstract_member_index_keys_abstract_methods_by_owner() {
    let mut a = decl("run", DeclarationKind::Function, Some(("Base", DeclarationOwnerKind::Class)));
    a.is_abstract_method = true;
    let b = decl("stop", DeclarationKind::Function, Some(("Base", DeclarationOwnerKind::Class)));
    let mut c = decl("free", DeclarationKind::Function, None);
    c.is_abstract_method = true;
    let index = abstract_member_index(&vec![a, b, c]);
    assert!(matches!(index.get(&Some("Base".to_string()), "run"), Some(DeclarationKind::Function)));
    assert!(index.get(&Some("Base".to_string()), "stop").is_none());
    assert!(index.get(&None, "free").is_none());
}

#[test]
fn declaration_spaces_group_by_owner_in_key_order() {
    let decls = vec![
        decl("b", DeclarationKind::Function, Some(("Zed", DeclarationOwnerKind::Class))),
        decl("x", DeclarationKind::Value, None),
        decl("a", DeclarationKind::Function, Some(("Alpha", DeclarationOwnerKind::Class))),
        decl("c", DeclarationKind::Function, Some(("Zed", DeclarationOwnerKind::Class))),
    ];
    let spaces = declaration_spaces(&decls);
    assert_eq!(spaces.len(), 3);
    assert!(spaces[0].0.is_none());
    assert_eq!(spaces[1].0.as_deref(), Some("Alpha"));
    assert_eq!(spaces[2].0.as_deref(), Some("Zed"));
    let names: Vec<&str> = spaces[2].2.iter().map(|d| d.name.as_str()).collect();
    assert_eq!(names, vec!["b", "c"]);
    assert!(declaration_spaces(&vec![]).is_empty());
}

#[test]
fn overloads_with_one_implementation_are_not_duplicates() {
    let group = vec![
        decl("f", DeclarationKind::Overload, None),
        decl("f", DeclarationKind::Overload, None),
        decl("f", DeclarationKind::Function, None),
    ];
    assert!(!is_invalid_duplicate_group(&group));
    let twice = vec![decl("f", DeclarationKind::Function, None), decl("f", DeclarationKind::Function, None)];
    assert!(is_invalid_duplicate_group(&twice));
    assert!(!is_invalid_duplicate_group(&vec![decl("f", DeclarationKind::Function, None)]));
}

#[test]
fn property_getter_and_setter_are_not_duplicates() {
    let owner = Some(("C", DeclarationOwnerKind::Class));
    let group = vec![
        with_method(decl("p", DeclarationKind::Function, owner), MethodKind::Property),
        with_method(decl("p", DeclarationKind::Function, owner), MethodKind::PropertySetter),
    ];
    assert!(!is_invalid_duplicate_group(&group));
}

#[test]
fn invalid_duplicates_are_sorted_names() {
    let decls = vec![
        decl("zeta", DeclarationKind::Value, None),
        decl("alpha", DeclarationKind::Value, None),
        decl("zeta", DeclarationKind::Value, None),
        decl("alpha", DeclarationKind::Function, None),
        decl("once", DeclarationKind::Value, None),
    ];
    assert_eq!(invalid_duplicates(&decls), vec!["alpha".to_string(), "zeta".to_string()]);
    assert_eq!(declarations_named(&decls, "zeta").len(), 2);
}

#[test]
fn classvar_outside_class_is_an_error() {
    let mut d = decl("counter", DeclarationKind::Value, None);
    d.is_class_var = true;
    let diag = classvar_placement_diagnostic("m.tpy", &None, &d).unwrap();
    assert_eq!(diag.code, "TPY4001");
    assert_eq!(diag.message, "module `m.tpy` uses ClassVar binding `counter` outside a class attribute declaration");
    assert!(classvar_placement_diagnostic("m.tpy", &Some("C".to_string()), &d).is_none());
}

#[test]
fn final_reassignment_needs_a_final_and_a_second_binding() {
    let mut first = decl("LIMIT", DeclarationKind::Value, None);
    first.is_final = true;
    let second = decl("LIMIT", DeclarationKind::Value, None);
    let decls = vec![first, second];
    let d = final_reassignment_diagnostic("m.tpy", &None, "LIMIT", &decls).unwrap();
    assert_eq!(d.code, "TPY4006");
    assert_eq!(d.message, "module `m.tpy` reassigns Final binding `LIMIT`");
    let d2 = final_reassignment_diagnostic("m.tpy", &Some("C".to_string()), "LIMIT", &decls).unwrap();
    assert_eq!(d2.message, "type `C` in module `m.tpy` reassigns Final binding `LIMIT`");
    assert!(final_reassignment_diagnostic("m.tpy", &None, "LIMIT", &decls[..1].iter().map(|d| d.duplicate()).collect()).is_none());
}

#[test]
fn duplicate_and_overload_messages() {
    assert_eq!(
        duplicate_message("m.tpy", &None, "f"),
        "module `m.tpy` declares `f` more than once in the same declaration space"
    );
    assert_eq!(
        duplicate_message("m.tpy", &Some("C".to_string()), "f"),
        "type `C` in module `m.tpy` declares member `f` more than once in the same declaration space"
    );
    assert_eq!(
        overload_shape_message("m.tpy", &None, "f", "without a concrete implementation"),
        "module `m.tpy` declares overloads for `f` without a concrete implementation"
    );
}

#[test]
fn overload_groups_need_exactly_one_implementation() {
    let only_overloads = vec![decl("f", DeclarationKind::Overload, None), decl("f", DeclarationKind::Overload, None)];
    let d = overload_shape_diagnostic("m.tpy", SourceKind::TypePython, &None, None, "f", &only_overloads).unwrap();
    assert_eq!(d.message, "module `m.tpy` declares overloads for `f` without a concrete implementation");
    assert!(overload_shape_diagnostic("m.pyi", SourceKind::Stub, &None, None, "f", &only_overloads).is_none());
    assert!(overload_shape_diagnostic("m.tpy", SourceKind::TypePython, &Some("P".to_string()), Some(DeclarationOwnerKind::Interface), "f", &only_overloads).is_none());
    let two_impls = vec![
        decl("f", DeclarationKind::Overload, None),
        decl("f", DeclarationKind::Function, None),
        decl("f", DeclarationKind::Function, None),
    ];
    let d2 = overload_shape_diagnostic("m.tpy", SourceKind::TypePython, &None, None, "f", &two_impls).unwrap();
    assert_eq!(d2.message, "module `m.tpy` declares overloads for `f` with more than one concrete implementation");
    let good = vec![decl("f", DeclarationKind::Overload, None), decl("f", DeclarationKind::Function, None)];
    assert!(overload_shape_diagnostic("m.tpy", SourceKind::TypePython, &None, None, "f", &good).is_none());
}

#[test]
fn external_overload_only_groups_are_permitted() {
    let only_overloads = vec![decl("f", DeclarationKind::Overload, None), decl("f", DeclarationKind::Overload, None)];
    assert!(is_permitted_external_overload_group(SourceKind::Stub, "f", &only_overloads));
    assert!(!is_permitted_external_overload_group(SourceKind::TypePython, "f", &only_overloads));
}

#[test]
fn duplicate_diagnostics_follow_spaces_and_names() {
    let mut cv = decl("counter", DeclarationKind::Value, None);
    cv.is_class_var = true;
    let decls = vec![
        decl("g", DeclarationKind::Function, None),
        cv,
        decl("g", DeclarationKind::Function, None),
        decl("m", DeclarationKind::Function, Some(("C", DeclarationOwnerKind::Class))),
        decl("m", DeclarationKind::Value, Some(("C", DeclarationOwnerKind::Class))),
    ];
    let mut decls = decls;
    decls.push(property("size", "C", "(self) -> int", MethodKind::Property));
    decls.push(property("size", "C", "(self, value: str) -> None", MethodKind::PropertySetter));
    let diags = duplicate_diagnostics("m.tpy", SourceKind::TypePython, &decls, &vec![]);
    let messages: Vec<&str> = diags.iter().map(|d| d.message.as_str()).collect();
    assert_eq!(
        messages,
        vec![
            "type `C` in module `m.tpy` declares property `size` with getter type `int` but setter expects `str`",
            "module `m.tpy` uses ClassVar binding `counter` outside a class attribute declaration",
            "module `m.tpy` declares `g` more than once in the same declaration space",
            "type `C` in module `m.tpy` declares member `m` more than once in the same declaration space",
        ]
    );
    assert_eq!(diags[2].code, "TPY4004");
}

#[test]
fn distinct_names_per_space_add_no_duplicate_diagnostics() {
    let decls = vec![
        decl("run", DeclarationKind::Function, None),
        decl("run", DeclarationKind::Function, Some(("Job", DeclarationOwnerKind::Class))),
        decl("limit", DeclarationKind::Value, Some(("Job", DeclarationOwnerKind::Class))),
        decl("limit", DeclarationKind::Value, None),
    ];
    let mut decls = decls;
    decls.push(property("level", "", "(self) -> int", MethodKind::Property));
    decls.push(property("level", "", "(self, value: str) -> None", MethodKind::PropertySetter));
    let diags = duplicate_diagnostics("m.tpy", SourceKind::TypePython, &decls, &vec![]);
    assert_eq!(diags.len(), 1);
    assert_eq!(diags[0].message, "module `m.tpy` declares property `level` with getter type `int` but setter expects `str`");
    assert!(invalid_duplicates(&decls).contains(&"run".to_string()));
}

#[test]
fn declaration_spaces_keep_every_declaration_once() {
    let decls = vec![
        decl("b", DeclarationKind::Function, Some(("Zed", DeclarationOwnerKind::Class))),
        decl("x", DeclarationKind::Value, None),
        decl("a", DeclarationKind::Function, Some(("Alpha", DeclarationOwnerKind::Class))),
        decl("c", DeclarationKind::Function, Some(("Zed", DeclarationOwnerKind::Class))),
        decl("y", DeclarationKind::Value, None),
    ];
    let spaces = declaration_spaces(&decls);
    let mut names: Vec<String> = spaces.iter().flat_map(|s| s.2.iter().map(|d| d.name.clone())).collect();
    assert_eq!(names, vec!["x", "y", "a", "b", "c"]);
    names.sort();
    assert_eq!(names, vec!["a", "b", "c", "x", "y"]);
}

#[test]
fn property_types_are_compared_as_rendered() {
    let decls = vec![
        property("b", "Z", "(self) -> list[ int ]", MethodKind::Property),
        property("b", "Z", "(self, v: list[int]) -> None", MethodKind::PropertySetter),
        property("a", "Z", "(self) -> bytes", MethodKind::Property),
        property("a", "Z", "(self, v: str) -> None", MethodKind::PropertySetter),
        property("x", "", "(self) -> int", MethodKind::Property),
        property("x", "", "(self, v: float) -> None", MethodKind::PropertySetter),
        property("only_getter", "", "(self) -> int", MethodKind::Property),
    ];
    let renderings = vec![("list[ int ]".to_string(), "list[int]".to_string())];
    let diags = property_setter_compatibility_diagnostics("m.tpy", &decls, &renderings);
    let messages: Vec<&str> = diags.iter().map(|d| d.message.as_str()).collect();
    assert_eq!(
        messages,
        vec![
            "module `m.tpy` declares property `x` with getter type `int` but setter expects `float`",
            "type `Z` in module `m.tpy` declares property `a` with getter type `bytes` but setter expects `str`",
        ]
    );
    assert!(diags.iter().all(|d| d.code == "TPY4001" && d.span.is_none()));
    assert_eq!(property_setter_compatibility_diagnostics("m.tpy", &decls, &vec![]).len(), 3);
}
