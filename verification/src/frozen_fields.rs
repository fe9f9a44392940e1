//! Writes to fields of frozen dataclasses (plain or under a dataclass transform) after
//! initialization: assignments, augmented assignments and deletions.
use vstd::prelude::*;
use crate::dataclass_checks::DataclassTransformClassShape;
use crate::diagnostics::{Diagnostic, DiagnosticView, Severity, Span, spec_diagnostic, spec_point_span};
use crate::effect_summary::opt_view;
use crate::text::{owned, str_eq};

verus! {

/// How a statement writes a field.
#[derive(Debug, Clone, Copy, PartialEq, Eq, Structural)]
pub enum FrozenFieldMutationKind {
    Assignment,
    AugmentedAssignment,
    Delete,
}

/// A statement that writes a field of some object: the function and class it stands in, its
/// line, the field, the name of the object written through (`self` in `self.x = ...`), how it
/// writes, and whether it has a value (deletions have none).
#[derive(Debug)]
pub struct FrozenFieldMutationSite {
    pub owner_name: Option<String>,
    pub owner_type_name: Option<String>,
    pub line: usize,
    pub field_name: String,
    pub target_value_name: Option<String>,
    pub kind: FrozenFieldMutationKind,
    pub has_value: bool,
}

/// What a message says the statement cannot do.
pub open spec fn mutation_verb(kind: FrozenFieldMutationKind) -> Seq<char> {
    match kind {
        FrozenFieldMutationKind::Assignment => "cannot be assigned after initialization"@,
        FrozenFieldMutationKind::AugmentedAssignment => "cannot be updated with augmented assignment after initialization"@,
        FrozenFieldMutationKind::Delete => "cannot be deleted after initialization"@,
    }
}

/// Whether the shape has a field of that name.
pub open spec fn shape_has_field(shape: DataclassTransformClassShape, name: Seq<char>) -> bool {
    exists|i: int| 0 <= i < shape.fields@.len() && #[trigger] shape.fields@[i].name@ == name
}

/// A write through `self` in the `__init__` of the type `target_type`.
pub open spec fn in_initializer(site: FrozenFieldMutationSite, target_type: Seq<char>) -> bool {
    opt_view(site.owner_name) == Some("__init__"@) && opt_view(site.owner_type_name) == Some(target_type) && opt_view(
        site.target_value_name,
    ) == Some("self"@)
}

/// The error for a write to a field of an object of type `target_type` whose synthesized shape
/// is `shape`: none unless the shape is frozen and has the field, and none for a write through
/// `self` in the `__init__` of that very type. `noun` names the kind of dataclass.
pub open spec fn spec_frozen_mutation_diagnostic(
    noun: Seq<char>,
    path: Seq<char>,
    site: FrozenFieldMutationSite,
    target_type: Seq<char>,
    shape: DataclassTransformClassShape,
) -> Option<DiagnosticView> {
    if !shape.frozen || !shape_has_field(shape, site.field_name@) {
        None
    } else if in_initializer(site, target_type) {
        None
    } else {
        let d = spec_diagnostic(
            Severity::Error,
            "TPY4001"@,
            "frozen "@ + noun + " field `"@ + site.field_name@ + "` on `"@ + target_type + "` in module `"@ + path + "` "@
                + mutation_verb(site.kind),
        );
        Some(DiagnosticView { span: Some(spec_point_span(path, site.line as nat, 1)), ..d })
    }
}

/// The errors for the first writes of a module; each write comes with the type of the object
/// written and that type's synthesized shape, where both are known.
pub open spec fn spec_frozen_mutation_diagnostics(
    noun: Seq<char>,
    path: Seq<char>,
    sites: Seq<(FrozenFieldMutationSite, Option<(String, DataclassTransformClassShape)>)>,
) -> Seq<DiagnosticView>
    decreases sites.len(),
{
    if sites.len() == 0 {
        Seq::empty()
    } else {
        let prev = spec_frozen_mutation_diagnostics(noun, path, sites.drop_last());
        match sites.last().1 {
            Some((t, shape)) => match spec_frozen_mutation_diagnostic(noun, path, sites.last().0, t@, shape) {
                Some(d) => prev.push(d),
                None => prev,
            },
            None => prev,
        }
    }
}

fn has_field(shape: &DataclassTransformClassShape, name: &str) -> (res: bool)
    ensures
        res == shape_has_field(*shape, name@),
{
    let mut i: usize = 0;
    while i < shape.fields.len()
        invariant
            i <= shape.fields@.len(),
            forall|j: int| 0 <= j < i ==> #[trigger] shape.fields@[j].name@ != name@,
        decreases shape.fields@.len() - i,
    {
        if str_eq(&shape.fields[i].name, name) {
            return true;
        }
        i = i + 1;
    }
    false
}

fn opt_is(o: &Option<String>, s: &str) -> (res: bool)
    ensures
        res == (opt_view(*o) == Some(s@)),
{
    match o {
        Some(x) => str_eq(x, s),
        None => false,
    }
}

fn frozen_mutation_diagnostic(
    noun: &str,
    source_path: &str,
    site: &FrozenFieldMutationSite,
    target_type: &str,
    shape: &DataclassTransformClassShape,
) -> (res: Option<Diagnostic>)
    ensures
        match res {
            Some(d) => spec_frozen_mutation_diagnostic(noun@, source_path@, *site, target_type@, *shape) == Some(d@),
            None => spec_frozen_mutation_diagnostic(noun@, source_path@, *site, target_type@, *shape) is None,
        },
{
    if !shape.frozen || !has_field(shape, &site.field_name) {
        return None;
    }
    if opt_is(&site.owner_name, "__init__") && opt_is(&site.owner_type_name, target_type) && opt_is(
        &site.target_value_name,
        "self",
    ) {
        return None;
    }
    let verb = match site.kind {
        FrozenFieldMutationKind::Assignment => "cannot be assigned after initialization",
        FrozenFieldMutationKind::AugmentedAssignment => "cannot be updated with augmented assignment after initialization",
        FrozenFieldMutationKind::Delete => "cannot be deleted after initialization",
    };
    let mut m = owned("frozen ");
    m.append(noun);
    m.append(" field `");
    m.append(&site.field_name);
    m.append("` on `");
    m.append(target_type);
    m.append("` in module `");
    m.append(source_path);
    m.append("` ");
    m.append(verb);
    let span = Span::new(owned(source_path), site.line, 1, site.line, 1);
    Some(Diagnostic::error("TPY4001", m).with_span(span))
}

fn frozen_mutation_diagnostics(
    noun: &str,
    source_path: &str,
    sites: &Vec<(FrozenFieldMutationSite, Option<(String, DataclassTransformClassShape)>)>,
) -> (res: Vec<Diagnostic>)
    ensures
        res@.map_values(|d: Diagnostic| d@) == spec_frozen_mutation_diagnostics(noun@, source_path@, sites@),
{
    let mut out: Vec<Diagnostic> = Vec::new();
    let mut i: usize = 0;
    assert(sites@.take(0) =~= Seq::<(FrozenFieldMutationSite, Option<(String, DataclassTransformClassShape)>)>::empty());
    assert(out@.map_values(|d: Diagnostic| d@) =~= Seq::<DiagnosticView>::empty());
    while i < sites.len()
        invariant
            i <= sites@.len(),
            out@.map_values(|d: Diagnostic| d@) == spec_frozen_mutation_diagnostics(noun@, source_path@, sites@.take(i as int)),
        decreases sites@.len() - i,
    {
        assert(sites@.take(i + 1).drop_last() =~= sites@.take(i as int));
        assert(sites@.take(i + 1).last() == sites@[i as int]);
        let entry = &sites[i];
        match &entry.1 {
            Some((t, shape)) => match frozen_mutation_diagnostic(noun, source_path, &entry.0, t, shape) {
                Some(d) => {
                    let ghost before = out@.map_values(|x: Diagnostic| x@);
                    out.push(d);
                    assert(out@.map_values(|x: Diagnostic| x@) =~= before.push(d@));
                },
                None => {},
            },
            None => {},
        }
        i = i + 1;
    }
    assert(sites@.take(sites@.len() as int) =~= sites@);
    out
}

/// The errors for writes to fields of frozen plain dataclasses after initialization. Each write
/// comes with the rendered type of the object written and that type's plain dataclass shape,
/// where both are known.
pub fn frozen_plain_dataclass_mutation_diagnostics(
    source_path: &str,
    sites: &Vec<(FrozenFieldMutationSite, Option<(String, DataclassTransformClassShape)>)>,
) -> (res: Vec<Diagnostic>)
    ensures
        res@.map_values(|d: Diagnostic| d@) == spec_frozen_mutation_diagnostics("dataclass"@, source_path@, sites@),
{
    frozen_mutation_diagnostics("dataclass", source_path, sites)
}

/// The errors for writes to fields of frozen dataclass-transform classes after initialization.
/// Each write comes with the rendered type of the object written and that type's synthesized
/// shape, where both are known.
pub fn frozen_dataclass_transform_mutation_diagnostics(
    source_path: &str,
    sites: &Vec<(FrozenFieldMutationSite, Option<(String, DataclassTransformClassShape)>)>,
) -> (res: Vec<Diagnostic>)
    ensures
        res@.map_values(|d: Diagnostic| d@) == spec_frozen_mutation_diagnostics(
            "dataclass-transform"@,
            source_path@,
            sites@,
        ),
{
    frozen_mutation_diagnostics("dataclass-transform", source_path, sites)
}

/// Whether a write is left to the frozen-field checks: the type written has a frozen
/// dataclass-transform shape with the field or, failing that, a frozen plain dataclass shape
/// with the field, and the write is not through `self` in that type's `__init__`.
pub open spec fn spec_should_defer_to_frozen_checks(
    site: FrozenFieldMutationSite,
    target_type: Seq<char>,
    transform_shape: Option<DataclassTransformClassShape>,
    plain_shape: Option<DataclassTransformClassShape>,
) -> bool {
    match transform_shape {
        Some(s) if s.frozen && shape_has_field(s, site.field_name@) => !in_initializer(site, target_type),
        _ => match plain_shape {
            Some(s) if s.frozen && shape_has_field(s, site.field_name@) => !in_initializer(site, target_type),
            _ => false,
        },
    }
}

/// Whether an attribute assignment is left to the frozen-field checks, given the
/// dataclass-transform shape and the plain dataclass shape of the type written, where it has
/// them.
pub fn should_defer_attribute_assignment_to_frozen_checks(
    site: &FrozenFieldMutationSite,
    target_type: &str,
    transform_shape: Option<&DataclassTransformClassShape>,
    plain_shape: Option<&DataclassTransformClassShape>,
) -> (res: bool)
    ensures
        res == spec_should_defer_to_frozen_checks(
            *site,
            target_type@,
            match transform_shape {
                Some(s) => Some(*s),
                None => None,
            },
            match plain_shape {
                Some(s) => Some(*s),
                None => None,
            },
        ),
{
    let in_init = opt_is(&site.owner_name, "__init__") && opt_is(&site.owner_type_name, target_type) && opt_is(
        &site.target_value_name,
        "self",
    );
    if let Some(s) = transform_shape {
        if s.frozen && has_field(s, &site.field_name) {
            return !in_init;
        }
    }
    if let Some(s) = plain_shape {
        if s.frozen && has_field(s, &site.field_name) {
            return !in_init;
        }
    }
    false
}

} // verus!
