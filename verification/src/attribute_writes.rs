//! Assignments and augmented assignments to attributes of objects, checked against the member
//! that the object's class offers for writing: a value member, a property setter, or a
//! read-only property.
use vstd::prelude::*;
use crate::annotations::{final_attribute_reassignment_diagnostic, spec_final_attribute_message};
use crate::dataclass_checks::DataclassTransformClassShape;
use crate::declarations::diag_views;
use crate::diagnostics::{Diagnostic, DiagnosticView, Severity, spec_diagnostic};
use crate::effect_summary::opt_view;
use crate::frozen_fields::{
    FrozenFieldMutationKind, FrozenFieldMutationSite, should_defer_attribute_assignment_to_frozen_checks,
    spec_should_defer_to_frozen_checks,
};
use crate::text::{owned, str_eq};
use crate::typed_dict_mutations::{ItemValueVerdict, TypeComparison, line_error};

verus! {

/// The member of the written object's class that an attribute write goes to.
#[derive(Debug, Clone, Copy, PartialEq, Eq, Structural)]
pub enum WritableMember {
    /// A value member, and whether it is `Final`.
    Value { is_final: bool },
    /// A property with a setter.
    PropertySetter,
    /// A property without a setter.
    ReadOnlyProperty,
    /// A member that is neither (a method, say).
    NonWritable,
}

/// For an augmented assignment through a property setter: whether the class has a readable
/// member of that name, and whether its type was resolved.
#[derive(Debug, Clone, Copy, PartialEq, Eq, Structural)]
pub enum ReadableMember {
    Missing,
    Unresolved,
    Resolved,
}

/// What was resolved for an attribute write: the rendered type of the object written; its
/// dataclass-transform and plain dataclass shapes, where it has them (a write to a frozen field
/// is left to the frozen-field checks); the member written, when the class and member are
/// found; whether the member's declared type was resolved; for an augmented assignment through
/// a setter, the readable member; and the verdict on the value (for an augmented assignment, on
/// its result) against the member's declared type.
#[derive(Debug)]
pub struct AttributeWriteFacts {
    pub target_type: Option<String>,
    pub transform_shape: Option<DataclassTransformClassShape>,
    pub plain_shape: Option<DataclassTransformClassShape>,
    pub member: Option<WritableMember>,
    pub expected_known: bool,
    pub readable: ReadableMember,
    pub value: ItemValueVerdict,
}

/// The message for a value whose type does not fit the member written.
pub open spec fn member_mismatch(
    prefix: Seq<char>,
    target: Seq<char>,
    path: Seq<char>,
    what: Seq<char>,
    field: Seq<char>,
    c: TypeComparison,
) -> Seq<char> {
    prefix + " on `"@ + target + "` in module `"@ + path + "` "@ + what + " `"@ + c.actual@ + "` where member `"@ + field
        + "` expects `"@ + c.expected@ + "`"@
}

/// The diagnostic for one attribute write, if any. Deletions and writes through `self` in an
/// `__init__` are not checked here, nor writes on objects of unknown type, writes left to the
/// frozen-field checks, or writes to members that are missing or not writable. Writing a
/// property without a setter is an error, and so is writing a `Final` value member. Otherwise,
/// once the member's type and the statement's value are known, an assignment is reported when
/// the value does not fit the member (or when the value check reported), and an augmented
/// assignment when its result does not fit; through a setter, an augmented assignment also
/// needs a readable member.
pub open spec fn spec_attribute_write_diagnostic(
    path: Seq<char>,
    site: FrozenFieldMutationSite,
    facts: AttributeWriteFacts,
) -> Option<DiagnosticView> {
    if site.kind == FrozenFieldMutationKind::Delete || (opt_view(site.owner_name) == Some("__init__"@) && opt_view(
        site.target_value_name,
    ) == Some("self"@)) {
        None
    } else {
        match (facts.target_type, facts.member) {
            (Some(t), Some(member)) => if spec_should_defer_to_frozen_checks(
                site,
                t@,
                facts.transform_shape,
                facts.plain_shape,
            ) {
                None
            } else {
                let field = site.field_name@;
                match member {
                    WritableMember::NonWritable => None,
                    WritableMember::ReadOnlyProperty => Some(
                        line_error(
                            path,
                            site.line,
                            "TPY4001"@,
                            "property `"@ + field + "` on `"@ + t@ + "` in module `"@ + path + "` is not writable"@,
                        ),
                    ),
                    WritableMember::Value { is_final: true } => Some(
                        spec_diagnostic(Severity::Error, "TPY4006"@, spec_final_attribute_message(path, t@, field)),
                    ),
                    _ => if !facts.expected_known || !site.has_value {
                        None
                    } else if site.kind == FrozenFieldMutationKind::AugmentedAssignment && member
                        == WritableMember::PropertySetter && facts.readable == ReadableMember::Missing {
                        Some(
                            line_error(
                                path,
                                site.line,
                                "TPY4001"@,
                                "attribute `"@ + field + "` on `"@ + t@ + "` in module `"@ + path
                                    + "` is not readable for augmented assignment"@,
                            ),
                        )
                    } else if site.kind == FrozenFieldMutationKind::AugmentedAssignment && member
                        == WritableMember::PropertySetter && facts.readable == ReadableMember::Unresolved {
                        None
                    } else {
                        match facts.value {
                            ItemValueVerdict::Unresolved => None,
                            ItemValueVerdict::Reported(d) => Some(d@),
                            ItemValueVerdict::Compared(c) => if c.assignable {
                                None
                            } else if site.kind == FrozenFieldMutationKind::Assignment {
                                Some(
                                    line_error(
                                        path,
                                        site.line,
                                        "TPY4001"@,
                                        member_mismatch("attribute assignment"@, t@, path, "assigns"@, field, c),
                                    ),
                                )
                            } else {
                                Some(
                                    line_error(
                                        path,
                                        site.line,
                                        "TPY4001"@,
                                        member_mismatch("augmented attribute assignment"@, t@, path, "produces"@, field, c),
                                    ),
                                )
                            },
                        }
                    },
                }
            },
            _ => None,
        }
    }
}

/// The attribute-write diagnostics of a module, in order.
pub open spec fn spec_attribute_write_diagnostics(
    path: Seq<char>,
    sites: Seq<(FrozenFieldMutationSite, AttributeWriteFacts)>,
) -> Seq<DiagnosticView>
    decreases sites.len(),
{
    if sites.len() == 0 {
        Seq::empty()
    } else {
        let prev = spec_attribute_write_diagnostics(path, sites.drop_last());
        match spec_attribute_write_diagnostic(path, sites.last().0, sites.last().1) {
            Some(d) => prev.push(d),
            None => prev,
        }
    }
}

fn opt_is(o: &Option<String>, s: &str) -> (res: bool)
    ensures
        res == (opt_view(*o) == Some(s@)),
{
    match o {
        Some(x) => str_eq(x, s),
        None => false,
    }
}

fn line_error_exec(source_path: &str, line: usize, message: String) -> (res: Diagnostic)
    ensures
        res@ == line_error(source_path@, line, "TPY4001"@, message@),
{
    Diagnostic::error("TPY4001", message).with_span(
        crate::diagnostics::Span::new(owned(source_path), line, 1, line, 1),
    )
}

fn member_mismatch_exec(
    prefix: &str,
    target: &str,
    source_path: &str,
    what: &str,
    field: &str,
    c: &TypeComparison,
) -> (res: String)
    ensures
        res@ == member_mismatch(prefix@, target@, source_path@, what@, field@, *c),
{
    let mut m = owned(prefix);
    m.append(" on `");
    m.append(target);
    m.append("` in module `");
    m.append(source_path);
    m.append("` ");
    m.append(what);
    m.append(" `");
    m.append(&c.actual);
    m.append("` where member `");
    m.append(field);
    m.append("` expects `");
    m.append(&c.expected);
    m.append("`");
    m
}

fn attribute_write_diagnostic(
    source_path: &str,
    site: FrozenFieldMutationSite,
    facts: AttributeWriteFacts,
) -> (res: Option<Diagnostic>)
    ensures
        match res {
            Some(d) => spec_attribute_write_diagnostic(source_path@, site, facts) == Some(d@),
            None => spec_attribute_write_diagnostic(source_path@, site, facts) is None,
        },
{
    if site.kind == FrozenFieldMutationKind::Delete || (opt_is(&site.owner_name, "__init__") && opt_is(
        &site.target_value_name,
        "self",
    )) {
        return None;
    }
    let target = match &facts.target_type {
        Some(t) => t,
        None => return None,
    };
    let member = match facts.member {
        Some(m) => m,
        None => return None,
    };
    if should_defer_attribute_assignment_to_frozen_checks(
        &site,
        target,
        facts.transform_shape.as_ref(),
        facts.plain_shape.as_ref(),
    ) {
        return None;
    }
    let field = &site.field_name;
    match member {
        WritableMember::NonWritable => {
            return None;
        },
        WritableMember::ReadOnlyProperty => {
            let mut m = owned("property `");
            m.append(field);
            m.append("` on `");
            m.append(target);
            m.append("` in module `");
            m.append(source_path);
            m.append("` is not writable");
            return Some(line_error_exec(source_path, site.line, m));
        },
        WritableMember::Value { is_final } => {
            if is_final {
                return Some(final_attribute_reassignment_diagnostic(source_path, target, field));
            }
        },
        WritableMember::PropertySetter => {},
    }
    if !facts.expected_known || !site.has_value {
        return None;
    }
    let augmented = site.kind == FrozenFieldMutationKind::AugmentedAssignment;
    if augmented && member == WritableMember::PropertySetter {
        if facts.readable == ReadableMember::Missing {
            let mut m = owned("attribute `");
            m.append(field);
            m.append("` on `");
            m.append(target);
            m.append("` in module `");
            m.append(source_path);
            m.append("` is not readable for augmented assignment");
            return Some(line_error_exec(source_path, site.line, m));
        }
        if facts.readable == ReadableMember::Unresolved {
            return None;
        }
    }
    match facts.value {
        ItemValueVerdict::Unresolved => None,
        ItemValueVerdict::Reported(d) => Some(d),
        ItemValueVerdict::Compared(c) => {
            if c.assignable {
                None
            } else if augmented {
                let m = member_mismatch_exec("augmented attribute assignment", target, source_path, "produces", field, &c);
                Some(line_error_exec(source_path, site.line, m))
            } else {
                let m = member_mismatch_exec("attribute assignment", target, source_path, "assigns", field, &c);
                Some(line_error_exec(source_path, site.line, m))
            }
        },
    }
}

/// The errors for assignments and augmented assignments to attributes of objects, checked
/// against the member their class offers for writing, in statement order. Each write comes
/// with what was resolved for it.
pub fn attribute_assignment_type_diagnostics(
    source_path: &str,
    sites: Vec<(FrozenFieldMutationSite, AttributeWriteFacts)>,
) -> (res: Vec<Diagnostic>)
    ensures
        diag_views(res@) == spec_attribute_write_diagnostics(source_path@, sites@),
{
    let ghost all = sites@;
    let n = sites.len();
    let mut rest = sites;
    let mut out: Vec<Diagnostic> = Vec::new();
    let mut i: usize = 0;
    assert(all.take(0) =~= Seq::<(FrozenFieldMutationSite, AttributeWriteFacts)>::empty());
    assert(diag_views(out@) =~= Seq::<DiagnosticView>::empty());
    while rest.len() > 0
        invariant
            i <= all.len(),
            all.len() == n,
            i + rest@.len() == all.len(),
            rest@ == all.skip(i as int),
            diag_views(out@) == spec_attribute_write_diagnostics(source_path@, all.take(i as int)),
        decreases rest@.len(),
    {
        assert(all.take(i + 1).drop_last() =~= all.take(i as int));
        assert(all.take(i + 1).last() == all[i as int]);
        let (site, facts) = rest.remove(0);
        assert(rest@ =~= all.skip(i + 1));
        let ghost before = diag_views(out@);
        match attribute_write_diagnostic(source_path, site, facts) {
            Some(d) => {
                out.push(d);
                assert(diag_views(out@) =~= before.push(d@));
            },
            None => {},
        }
        i = i + 1;
    }
    assert(all.take(i as int) =~= all);
    out
}

} // verus!
