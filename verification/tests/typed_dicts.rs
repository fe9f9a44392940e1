use typepython_checking::diagnostics::Diagnostic;
use typepython_checking::typed_dict::{TypedDictExtraItemsShape, TypedDictFieldShape, TypedDictShape};
use typepython_checking::typed_dict_mutations::{
    ItemValueVerdict, SetitemAccess, SubscriptWriteFacts, TypeComparison, TypedDictMutationFacts,
    TypedDictMutationKind, TypedDictMutationSite, subscript_assignment_type_diagnostics,
    typed_dict_readonly_mutation_diagnostics,
};

fn movie(extra: Option<TypedDictExtraItemsShape>) -> TypedDictShape {
    TypedDictShape {
        name: "Movie".to_string(),
        fields: vec![
            ("title".to_string(), TypedDictFieldShape { value_type: "str".to_string(), required: true, readonly: false }),
            ("id".to_string(), TypedDictFieldShape { value_type: "int".to_string(), required: true, readonly: true }),
        ],
        closed: extra.is_some(),
        extra_items: extra,
    }
}

fn site(line: usize, key: Option<&str>, kind: TypedDictMutationKind) -> TypedDictMutationSite {
    TypedDictMutationSite { line, key: key.map(|k| k.to_string()), kind, has_value: kind != TypedDictMutationKind::Delete }
}

fn compared(actual: &str, expected: &str, assignable: bool) -> TypeComparison {
    TypeComparison { actual: actual.to_string(), expected: expected.to_string(), assignable }
}

fn on_movie(value: ItemValueVerdict) -> TypedDictMutationFacts {
    TypedDictMutationFacts { target: Some(movie(None)), value }
}

#[test]
fn undeclared_key_is_reported() {
    let diags = typed_dict_readonly_mutation_diagnostics(
        "m.tpy",
        vec![(site(4, Some("year"), TypedDictMutationKind::Assignment), on_movie(ItemValueVerdict::Unresolved))],
    );
    assert_eq!(diags.len(), 1);
    assert_eq!(diags[0].code, "TPY4001");
    assert_eq!(diags[0].message, "TypedDict item `year` on `Movie` in module `m.tpy` is not a declared key");
    let span = diags[0].span.as_ref().unwrap();
    assert_eq!((span.line, span.column, span.end_line, span.end_column), (4, 1, 4, 1));
}

#[test]
fn readonly_items_reject_every_kind_of_write() {
    let diags = typed_dict_readonly_mutation_diagnostics(
        "m.tpy",
        vec![
            (site(1, Some("id"), TypedDictMutationKind::Assignment), on_movie(ItemValueVerdict::Unresolved)),
            (site(2, Some("id"), TypedDictMutationKind::AugmentedAssignment), on_movie(ItemValueVerdict::Unresolved)),
            (site(3, Some("id"), TypedDictMutationKind::Delete), on_movie(ItemValueVerdict::Unresolved)),
        ],
    );
    let messages: Vec<&str> = diags.iter().map(|d| d.message.as_str()).collect();
    assert_eq!(
        messages,
        vec![
            "TypedDict item `id` on `Movie` in module `m.tpy` is read-only and cannot be assigned",
            "TypedDict item `id` on `Movie` in module `m.tpy` is read-only and cannot be updated with augmented assignment",
            "TypedDict item `id` on `Movie` in module `m.tpy` is read-only and cannot be deleted",
        ]
    );
    assert!(diags.iter().all(|d| d.code == "TPY4016"));
}

#[test]
fn mismatched_values_are_reported_with_both_types() {
    let mismatch = || ItemValueVerdict::Compared(compared("int", "str", false));
    let diags = typed_dict_readonly_mutation_diagnostics(
        "m.tpy",
        vec![
            (site(5, Some("title"), TypedDictMutationKind::Assignment), on_movie(mismatch())),
            (site(6, Some("title"), TypedDictMutationKind::AugmentedAssignment), on_movie(mismatch())),
        ],
    );
    assert_eq!(diags.len(), 2);
    assert_eq!(
        diags[0].message,
        "TypedDict item `title` on `Movie` in module `m.tpy` assigns `int` where `title` expects `str`"
    );
    assert_eq!(
        diags[1].message,
        "augmented assignment on TypedDict item `title` on `Movie` in module `m.tpy` produces `int` where `title` expects `str`"
    );
}

#[test]
fn accepted_writes_report_nothing() {
    let diags = typed_dict_readonly_mutation_diagnostics(
        "m.tpy",
        vec![
            (
                site(1, Some("title"), TypedDictMutationKind::Assignment),
                on_movie(ItemValueVerdict::Compared(compared("str", "str", true))),
            ),
            (site(2, Some("title"), TypedDictMutationKind::Delete), on_movie(ItemValueVerdict::Unresolved)),
            (site(3, None, TypedDictMutationKind::Delete), on_movie(ItemValueVerdict::Unresolved)),
            (
                site(4, Some("year"), TypedDictMutationKind::Assignment),
                TypedDictMutationFacts { target: None, value: ItemValueVerdict::Unresolved },
            ),
        ],
    );
    assert!(diags.is_empty());
}

#[test]
fn value_check_diagnostics_pass_through() {
    let reported = Diagnostic::error("TPY4013", "lambda body mismatch".to_string());
    let diags = typed_dict_readonly_mutation_diagnostics(
        "m.tpy",
        vec![(site(7, Some("title"), TypedDictMutationKind::Assignment), on_movie(ItemValueVerdict::Reported(reported)))],
    );
    assert_eq!(diags.len(), 1);
    assert_eq!(diags[0].code, "TPY4013");
    assert_eq!(diags[0].message, "lambda body mismatch");
    assert!(diags[0].span.is_none());
}

#[test]
fn extra_items_stand_for_undeclared_keys() {
    let readonly_extra = TypedDictMutationFacts {
        target: Some(movie(Some(TypedDictExtraItemsShape { value_type: "bool".to_string(), readonly: true }))),
        value: ItemValueVerdict::Unresolved,
    };
    let diags = typed_dict_readonly_mutation_diagnostics(
        "m.tpy",
        vec![(site(9, Some("seen"), TypedDictMutationKind::Delete), readonly_extra)],
    );
    assert_eq!(diags.len(), 1);
    assert_eq!(diags[0].code, "TPY4016");
    assert_eq!(diags[0].message, "TypedDict item `seen` on `Movie` in module `m.tpy` is read-only and cannot be deleted");
}

fn on_object(setitem: Option<SetitemAccess>, key: Option<TypeComparison>, readable: bool, value: ItemValueVerdict) -> SubscriptWriteFacts {
    SubscriptWriteFacts { owner_type: Some("Box[int]".to_string()), is_typed_dict: false, setitem, key, readable, value }
}

#[test]
fn read_only_subscript_targets_are_reported() {
    let diags = subscript_assignment_type_diagnostics(
        "m.tpy",
        vec![(
            site(3, None, TypedDictMutationKind::Assignment),
            on_object(Some(SetitemAccess::ReadOnly), None, true, ItemValueVerdict::Unresolved),
        )],
    );
    assert_eq!(diags.len(), 1);
    assert_eq!(diags[0].code, "TPY4001");
    assert_eq!(diags[0].message, "subscript assignment target `Box[int]` in module `m.tpy` is not writable via `__setitem__`");
    assert_eq!(diags[0].span.as_ref().unwrap().line, 3);
}

#[test]
fn subscript_keys_and_values_are_checked_against_setitem() {
    let writable = Some(SetitemAccess::Writable);
    let diags = subscript_assignment_type_diagnostics(
        "m.tpy",
        vec![
            (
                site(1, None, TypedDictMutationKind::Assignment),
                on_object(writable, Some(compared("str", "int", false)), true, ItemValueVerdict::Unresolved),
            ),
            (
                site(2, None, TypedDictMutationKind::Assignment),
                on_object(writable, Some(compared("int", "int", true)), true, ItemValueVerdict::Compared(compared("str", "int", false))),
            ),
            (
                site(3, None, TypedDictMutationKind::AugmentedAssignment),
                on_object(writable, Some(compared("int", "int", true)), false, ItemValueVerdict::Unresolved),
            ),
            (
                site(4, None, TypedDictMutationKind::AugmentedAssignment),
                on_object(writable, Some(compared("int", "int", true)), true, ItemValueVerdict::Compared(compared("float", "int", false))),
            ),
        ],
    );
    let messages: Vec<&str> = diags.iter().map(|d| d.message.as_str()).collect();
    assert_eq!(
        messages,
        vec![
            "subscript assignment on `Box[int]` in module `m.tpy` passes key `str` where `__setitem__` expects `int`",
            "subscript assignment on `Box[int]` in module `m.tpy` passes value `str` where `__setitem__` expects `int`",
            "augmented subscript assignment target `Box[int]` in module `m.tpy` is not readable via `__getitem__`",
            "augmented subscript assignment on `Box[int]` in module `m.tpy` produces `float` where `__setitem__` expects `int`",
        ]
    );
}

#[test]
fn subscript_writes_left_to_other_checks_report_nothing() {
    let writable = Some(SetitemAccess::Writable);
    let mut typed_dict = on_object(Some(SetitemAccess::ReadOnly), None, true, ItemValueVerdict::Unresolved);
    typed_dict.is_typed_dict = true;
    let mut unknown = on_object(Some(SetitemAccess::ReadOnly), None, true, ItemValueVerdict::Unresolved);
    unknown.owner_type = None;
    let diags = subscript_assignment_type_diagnostics(
        "m.tpy",
        vec![
            (site(1, None, TypedDictMutationKind::Assignment), typed_dict),
            (site(2, None, TypedDictMutationKind::Assignment), unknown),
            (
                site(3, None, TypedDictMutationKind::Delete),
                on_object(Some(SetitemAccess::ReadOnly), None, true, ItemValueVerdict::Unresolved),
            ),
            (site(4, None, TypedDictMutationKind::Assignment), on_object(None, None, true, ItemValueVerdict::Unresolved)),
            (
                site(5, None, TypedDictMutationKind::Assignment),
                on_object(writable, None, true, ItemValueVerdict::Compared(compared("str", "int", false))),
            ),
            (
                site(6, None, TypedDictMutationKind::Assignment),
                on_object(writable, Some(compared("int", "int", true)), true, ItemValueVerdict::Compared(compared("int", "int", true))),
            ),
        ],
    );
    assert!(diags.is_empty());
}
