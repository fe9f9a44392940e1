use typepython_checking::member_guards::{
    UnionBranch, isinstance_guard_type_name, union_member_guard_suggestion, union_owner_member_diagnostic,
};

fn branches(names: &[&str]) -> Vec<String> {
    names.iter().map(|n| n.to_string()).collect()
}

#[test]
fn guard_names_skip_special_and_compound_types() {
    assert_eq!(isinstance_guard_type_name("User"), Some("User".to_string()));
    for t in ["", "None", "Any", "dynamic", "unknown", "list[int]", "int | str"] {
        assert_eq!(isinstance_guard_type_name(t), None);
    }
}

#[test]
fn guard_for_one_named_branch_keeps_the_indent() {
    let source = "def f(x):\n    return x.name\n";
    let (span, text) =
        union_member_guard_suggestion(Some(source), "app.tpy", "x", 2, &branches(&["User", "None"])).unwrap();
    assert_eq!((span.path.as_str(), span.line, span.column, span.end_line, span.end_column), ("app.tpy", 2, 1, 2, 1));
    assert_eq!(text, "    assert isinstance(x, User)\n");
}

#[test]
fn guard_for_several_branches_names_a_tuple() {
    let source = "value.size\n";
    let (_, text) =
        union_member_guard_suggestion(Some(source), "app.tpy", "value", 1, &branches(&["A", "list[int]", "B"]))
            .unwrap();
    assert_eq!(text, "assert isinstance(value, (A, B))\n");
}

#[test]
fn no_guard_without_text_line_or_nameable_branch() {
    let b = branches(&["User"]);
    assert!(union_member_guard_suggestion(None, "app.tpy", "x", 1, &b).is_none());
    assert!(union_member_guard_suggestion(Some("x.name\n"), "app.tpy", "x", 0, &b).is_none());
    assert!(union_member_guard_suggestion(Some("x.name\n"), "app.tpy", "x", 2, &b).is_none());
    assert!(union_member_guard_suggestion(Some("x.name\n"), "app.tpy", "x", 1, &branches(&["None"])).is_none());
}

fn branch(name: Option<&str>, has_member: bool) -> UnionBranch {
    UnionBranch { is_dynamic: false, nominal_name: name.map(str::to_string), has_member }
}

#[test]
fn union_member_reads_need_the_member_on_every_branch() {
    let source = "def f(x):\n    return x.name\n";
    let d = union_owner_member_diagnostic(
        Some(source),
        "app.tpy",
        "User | None",
        "x",
        "name",
        2,
        &vec![branch(Some("User"), true), branch(Some("None"), false)],
    )
    .unwrap();
    assert_eq!(d.code, "TPY4002");
    assert_eq!(d.message, "type `User | None` in module `app.tpy` has no member `name` on every union branch");
    assert_eq!(d.suggestions.len(), 1);
    assert_eq!(d.suggestions[0].message, "Insert `isinstance` guard for `x` before accessing `name`");
    assert_eq!(d.suggestions[0].replacement, "    assert isinstance(x, User)\n");
    let plain = union_owner_member_diagnostic(None, "app.tpy", "A | B", "x", "size", 1, &vec![branch(Some("A"), false), branch(None, false)]).unwrap();
    assert!(plain.suggestions.is_empty());
    assert!(union_owner_member_diagnostic(None, "app.tpy", "A | B", "x", "size", 1, &vec![branch(Some("A"), true), branch(Some("B"), true)]).is_none());
    let mut dynamic = branch(None, false);
    dynamic.is_dynamic = true;
    assert!(union_owner_member_diagnostic(None, "app.tpy", "A | Any", "x", "size", 1, &vec![branch(Some("A"), false), dynamic]).is_none());
}
