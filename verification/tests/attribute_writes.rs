use typepython_checking::attribute_writes::{
    AttributeWriteFacts, ReadableMember, WritableMember, attribute_assignment_type_diagnostics,
};
use typepython_checking::dataclass_checks::{DataclassTransformClassShape, DataclassTransformFieldShape};
use typepython_checking::diagnostics::Diagnostic;
use typepython_checking::frozen_fields::{FrozenFieldMutationKind, FrozenFieldMutationSite};
use typepython_checking::typed_dict_mutations::{ItemValueVerdict, TypeComparison};

fn write(line: usize, owner: Option<&str>, target: &str, field: &str, kind: FrozenFieldMutationKind) -> FrozenFieldMutationSite {
    FrozenFieldMutationSite {
        owner_name: owner.map(str::to_string),
        owner_type_name: None,
        line,
        field_name: field.to_string(),
        target_value_name: Some(target.to_string()),
        kind,
        has_value: kind != FrozenFieldMutationKind::Delete,
    }
}

fn mismatch(actual: &str, expected: &str) -> ItemValueVerdict {
    ItemValueVerdict::Compared(TypeComparison { actual: actual.to_string(), expected: expected.to_string(), assignable: false })
}

fn facts(member: WritableMember, readable: ReadableMember, value: ItemValueVerdict) -> AttributeWriteFacts {
    AttributeWriteFacts {
        target_type: Some("Account".to_string()),
        transform_shape: None,
        plain_shape: None,
        member: Some(member),
        expected_known: true,
        readable,
        value,
    }
}

const PLAIN: WritableMember = WritableMember::Value { is_final: false };

#[test]
fn mismatched_attribute_values_are_reported() {
    let diags = attribute_assignment_type_diagnostics(
        "bank.tpy",
        vec![
            (write(3, None, "acct", "balance", FrozenFieldMutationKind::Assignment), facts(PLAIN, ReadableMember::Resolved, mismatch("str", "int"))),
            (
                write(4, None, "acct", "balance", FrozenFieldMutationKind::AugmentedAssignment),
                facts(PLAIN, ReadableMember::Missing, mismatch("float", "int")),
            ),
        ],
    );
    let messages: Vec<&str> = diags.iter().map(|d| d.message.as_str()).collect();
    assert_eq!(
        messages,
        vec![
            "attribute assignment on `Account` in module `bank.tpy` assigns `str` where member `balance` expects `int`",
            "augmented attribute assignment on `Account` in module `bank.tpy` produces `float` where member `balance` expects `int`",
        ]
    );
    assert!(diags.iter().all(|d| d.code == "TPY4001" && d.span.is_some()));
}

#[test]
fn final_members_and_read_only_properties_are_not_writable() {
    let diags = attribute_assignment_type_diagnostics(
        "bank.tpy",
        vec![
            (
                write(5, None, "acct", "number", FrozenFieldMutationKind::Assignment),
                facts(WritableMember::Value { is_final: true }, ReadableMember::Resolved, ItemValueVerdict::Unresolved),
            ),
            (
                write(6, None, "acct", "owner", FrozenFieldMutationKind::Assignment),
                facts(WritableMember::ReadOnlyProperty, ReadableMember::Resolved, ItemValueVerdict::Unresolved),
            ),
        ],
    );
    assert_eq!(diags.len(), 2);
    assert_eq!(diags[0].code, "TPY4006");
    assert_eq!(diags[0].message, "type `Account` in module `bank.tpy` reassigns Final binding `number`");
    assert!(diags[0].span.is_none());
    assert_eq!(diags[1].code, "TPY4001");
    assert_eq!(diags[1].message, "property `owner` on `Account` in module `bank.tpy` is not writable");
}

#[test]
fn augmented_setter_writes_need_a_readable_member() {
    let diags = attribute_assignment_type_diagnostics(
        "bank.tpy",
        vec![
            (
                write(7, None, "acct", "limit", FrozenFieldMutationKind::AugmentedAssignment),
                facts(WritableMember::PropertySetter, ReadableMember::Missing, mismatch("str", "int")),
            ),
            (
                write(8, None, "acct", "limit", FrozenFieldMutationKind::AugmentedAssignment),
                facts(WritableMember::PropertySetter, ReadableMember::Unresolved, mismatch("str", "int")),
            ),
            (
                write(9, None, "acct", "limit", FrozenFieldMutationKind::Assignment),
                facts(WritableMember::PropertySetter, ReadableMember::Missing, mismatch("str", "int")),
            ),
        ],
    );
    let messages: Vec<&str> = diags.iter().map(|d| d.message.as_str()).collect();
    assert_eq!(
        messages,
        vec![
            "attribute `limit` on `Account` in module `bank.tpy` is not readable for augmented assignment",
            "attribute assignment on `Account` in module `bank.tpy` assigns `str` where member `limit` expects `int`",
        ]
    );
}

#[test]
fn writes_left_elsewhere_report_nothing() {
    let frozen = DataclassTransformClassShape {
        fields: vec![DataclassTransformFieldShape {
            name: "balance".to_string(),
            keyword_name: "balance".to_string(),
            annotation: "int".to_string(),
            required: true,
            kw_only: false,
        }],
        frozen: true,
        has_explicit_init: false,
    };
    let mut deferred = facts(PLAIN, ReadableMember::Resolved, mismatch("str", "int"));
    deferred.plain_shape = Some(frozen);
    let mut unknown_type = facts(PLAIN, ReadableMember::Resolved, mismatch("str", "int"));
    unknown_type.target_type = None;
    let mut unknown_expected = facts(PLAIN, ReadableMember::Resolved, mismatch("str", "int"));
    unknown_expected.expected_known = false;
    let diags = attribute_assignment_type_diagnostics(
        "bank.tpy",
        vec![
            (write(1, Some("__init__"), "self", "balance", FrozenFieldMutationKind::Assignment), facts(PLAIN, ReadableMember::Resolved, mismatch("str", "int"))),
            (write(2, None, "acct", "balance", FrozenFieldMutationKind::Delete), facts(WritableMember::ReadOnlyProperty, ReadableMember::Resolved, ItemValueVerdict::Unresolved)),
            (write(3, None, "acct", "balance", FrozenFieldMutationKind::Assignment), deferred),
            (write(4, None, "acct", "balance", FrozenFieldMutationKind::Assignment), unknown_type),
            (write(5, None, "acct", "balance", FrozenFieldMutationKind::Assignment), unknown_expected),
            (write(6, None, "acct", "run", FrozenFieldMutationKind::Assignment), facts(WritableMember::NonWritable, ReadableMember::Resolved, mismatch("str", "int"))),
        ],
    );
    assert!(diags.is_empty());
}

#[test]
fn attribute_value_check_diagnostics_pass_through() {
    let reported = Diagnostic::error("TPY4013", "callable mismatch".to_string());
    let diags = attribute_assignment_type_diagnostics(
        "bank.tpy",
        vec![(write(2, None, "acct", "hook", FrozenFieldMutationKind::Assignment), facts(PLAIN, ReadableMember::Resolved, ItemValueVerdict::Reported(reported)))],
    );
    assert_eq!(diags.len(), 1);
    assert_eq!(diags[0].message, "callable mismatch");
}
