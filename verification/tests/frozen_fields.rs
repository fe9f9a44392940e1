use typepython_checking::dataclass_checks::{DataclassTransformClassShape, DataclassTransformFieldShape};
use typepython_checking::frozen_fields::{
    FrozenFieldMutationKind, FrozenFieldMutationSite, frozen_dataclass_transform_mutation_diagnostics,
    frozen_plain_dataclass_mutation_diagnostics, should_defer_attribute_assignment_to_frozen_checks,
};

fn shape(frozen: bool) -> DataclassTransformClassShape {
    DataclassTransformClassShape {
        fields: vec![DataclassTransformFieldShape {
            name: "x".to_string(),
            keyword_name: "x".to_string(),
            annotation: "int".to_string(),
            required: true,
            kw_only: false,
        }],
        frozen,
        has_explicit_init: false,
    }
}

fn site(owner: Option<&str>, owner_type: Option<&str>, target: Option<&str>, field: &str, kind: FrozenFieldMutationKind) -> FrozenFieldMutationSite {
    FrozenFieldMutationSite {
        owner_name: owner.map(str::to_string),
        owner_type_name: owner_type.map(str::to_string),
        line: 9,
        field_name: field.to_string(),
        target_value_name: target.map(str::to_string),
        kind,
        has_value: kind != FrozenFieldMutationKind::Delete,
    }
}

#[test]
fn writes_to_frozen_fields_after_init_are_reported() {
    let sites = vec![
        (site(None, None, Some("p"), "x", FrozenFieldMutationKind::Assignment), Some(("Point".to_string(), shape(true)))),
        (site(Some("move"), Some("Point"), Some("self"), "x", FrozenFieldMutationKind::AugmentedAssignment), Some(("Point".to_string(), shape(true)))),
        (site(None, None, Some("p"), "x", FrozenFieldMutationKind::Delete), Some(("Point".to_string(), shape(true)))),
        (site(Some("__init__"), Some("Point"), Some("self"), "x", FrozenFieldMutationKind::Assignment), Some(("Point".to_string(), shape(true)))),
        (site(None, None, Some("p"), "y", FrozenFieldMutationKind::Assignment), Some(("Point".to_string(), shape(true)))),
        (site(None, None, Some("p"), "x", FrozenFieldMutationKind::Assignment), Some(("Point".to_string(), shape(false)))),
        (site(None, None, Some("p"), "x", FrozenFieldMutationKind::Assignment), None),
    ];
    let ds = frozen_plain_dataclass_mutation_diagnostics("m.tpy", &sites);
    let got: Vec<String> = ds.iter().map(|d| d.message.clone()).collect();
    assert_eq!(
        got,
        vec![
            "frozen dataclass field `x` on `Point` in module `m.tpy` cannot be assigned after initialization".to_string(),
            "frozen dataclass field `x` on `Point` in module `m.tpy` cannot be updated with augmented assignment after initialization".to_string(),
            "frozen dataclass field `x` on `Point` in module `m.tpy` cannot be deleted after initialization".to_string(),
        ]
    );
    assert!(ds.iter().all(|d| d.code == "TPY4001"));
    let span = ds[0].span.as_ref().unwrap();
    assert_eq!((span.path.as_str(), span.line, span.column, span.end_line, span.end_column), ("m.tpy", 9, 1, 9, 1));
    let ts = frozen_dataclass_transform_mutation_diagnostics("m.tpy", &sites[..1].iter().map(|(s, r)| {
        (site(s.owner_name.as_deref(), s.owner_type_name.as_deref(), s.target_value_name.as_deref(), &s.field_name, s.kind), r.as_ref().map(|(t, _)| (t.clone(), shape(true))))
    }).collect());
    assert_eq!(ts[0].message, "frozen dataclass-transform field `x` on `Point` in module `m.tpy` cannot be assigned after initialization");
}

#[test]
fn attribute_writes_to_frozen_fields_are_left_to_frozen_checks() {
    let write = site(None, None, Some("p"), "x", FrozenFieldMutationKind::Assignment);
    let init = site(Some("__init__"), Some("Point"), Some("self"), "x", FrozenFieldMutationKind::Assignment);
    let other = site(None, None, Some("p"), "y", FrozenFieldMutationKind::Assignment);
    assert!(should_defer_attribute_assignment_to_frozen_checks(&write, "Point", Some(&shape(true)), None));
    assert!(should_defer_attribute_assignment_to_frozen_checks(&write, "Point", None, Some(&shape(true))));
    assert!(should_defer_attribute_assignment_to_frozen_checks(&write, "Point", Some(&shape(false)), Some(&shape(true))));
    assert!(!should_defer_attribute_assignment_to_frozen_checks(&init, "Point", Some(&shape(true)), None));
    assert!(!should_defer_attribute_assignment_to_frozen_checks(&other, "Point", Some(&shape(true)), Some(&shape(true))));
    assert!(!should_defer_attribute_assignment_to_frozen_checks(&write, "Point", None, None));
}
