//! Augmented assignments `x = x <op> y` to a simple name: reassigning a `Final` binding, and a
//! result whose type does not fit the name's.
use vstd::prelude::*;
use crate::annotations::{is_final_annotation_text, spec_is_final_annotation_text};
use crate::declarations::{Declaration, DeclarationKind, string_views};
use crate::diagnostics::{Diagnostic, DiagnosticView, Severity, spec_diagnostic};
use crate::effect_summary::{opt_str_eq, opt_view};
use crate::semantic_types::names_contain;
use crate::sites::{AssignmentSite, InvalidationSite};
use crate::text::{owned, str_eq};

verus! {

/// What the types of an augmented assignment were resolved to: the type of the target name,
/// the type the operation yields, and whether the second is accepted where the first is
/// expected.
#[derive(Debug)]
pub struct AugmentedTypeCheck {
    pub expected: String,
    pub actual: String,
    pub matches: bool,
}

/// Two assignments bind the same name in the same function and class.
pub open spec fn same_binding(a: AssignmentSite, b: AssignmentSite) -> bool {
    a.name@ == b.name@ && opt_view(a.owner_name) == opt_view(b.owner_name) && opt_view(a.owner_type_name)
        == opt_view(b.owner_type_name)
}

/// A module-level `Final` value declared under the name.
pub open spec fn is_final_module_value(d: Declaration, name: Seq<char>) -> bool {
    d.kind == DeclarationKind::Value && d.owner is None && d.name@ == name && d.is_final
}

/// An earlier assignment of the same binding annotated `Final`.
pub open spec fn is_earlier_final_binding(previous: AssignmentSite, a: AssignmentSite) -> bool {
    same_binding(previous, a) && previous.line < a.line && match previous.annotation {
        Some(t) => spec_is_final_annotation_text(t@),
        None => false,
    }
}

/// Whether the target of an assignment is `Final`: at module level, a module value declared
/// `Final`; anywhere, an earlier assignment of the same binding annotated `Final`.
pub open spec fn spec_target_is_final(
    decls: Seq<Declaration>,
    assignments: Seq<AssignmentSite>,
    a: AssignmentSite,
) -> bool {
    (a.owner_name is None && exists|i: int| 0 <= i < decls.len() && is_final_module_value(#[trigger] decls[i], a.name@))
        || exists|j: int| 0 <= j < assignments.len() && is_earlier_final_binding(#[trigger] assignments[j], a)
}

/// Whether the target of an augmented assignment is `Final`.
pub fn current_augmented_assignment_target_is_final(
    declarations: &Vec<Declaration>,
    assignments: &Vec<AssignmentSite>,
    assignment: &AssignmentSite,
) -> (res: bool)
    ensures
        res == spec_target_is_final(declarations@, assignments@, *assignment),
{
    if assignment.owner_name.is_none() {
        let mut i: usize = 0;
        while i < declarations.len()
            invariant
                i <= declarations@.len(),
                assignment.owner_name is None,
                forall|j: int| 0 <= j < i ==> !is_final_module_value(#[trigger] declarations@[j], assignment.name@),
            decreases declarations@.len() - i,
        {
            let d = &declarations[i];
            if d.kind == DeclarationKind::Value && d.owner.is_none() && str_eq(&d.name, &assignment.name) && d.is_final {
                assert(is_final_module_value(declarations@[i as int], assignment.name@));
                return true;
            }
            i = i + 1;
        }
    }
    let mut k: usize = 0;
    while k < assignments.len()
        invariant
            k <= assignments@.len(),
            forall|j: int| 0 <= j < k ==> !is_earlier_final_binding(#[trigger] assignments@[j], *assignment),
        decreases assignments@.len() - k,
    {
        let p = &assignments[k];
        let final_annotation = match &p.annotation {
            Some(t) => is_final_annotation_text(t),
            None => false,
        };
        if str_eq(&p.name, &assignment.name) && opt_str_eq(&p.owner_name, &assignment.owner_name) && opt_str_eq(
            &p.owner_type_name,
            &assignment.owner_type_name,
        ) && p.line < assignment.line && final_annotation {
            assert(is_earlier_final_binding(assignments@[k as int], *assignment));
            return true;
        }
        k = k + 1;
    }
    false
}

/// An invalidation that rebinds the assignment's name on its line, in its function and class.
pub open spec fn rebinds(site: InvalidationSite, a: AssignmentSite) -> bool {
    site.rebind_like && site.line == a.line && opt_view(site.owner_name) == opt_view(a.owner_name) && opt_view(
        site.owner_type_name,
    ) == opt_view(a.owner_type_name) && string_views(site.names@).contains(a.name@)
}

/// An unannotated assignment `x = x <op> y` that an invalidation on its line rebinds.
pub open spec fn is_simple_augmented(a: AssignmentSite, invalidations: Seq<InvalidationSite>) -> bool {
    &&& a.annotation is None
    &&& opt_view(a.value_binop_left_name) == Some(a.name@)
    &&& a.has_value_binop_right
    &&& a.value_binop_operator is Some
    &&& exists|i: int| 0 <= i < invalidations.len() && rebinds(#[trigger] invalidations[i], a)
}

/// The error for reassigning a `Final` binding, worded for where the assignment stands.
pub open spec fn spec_final_reassignment_message(path: Seq<char>, a: AssignmentSite) -> Seq<char> {
    match (a.owner_type_name, a.owner_name) {
        (Some(t), Some(o)) => "type `"@ + t@ + "` in module `"@ + path + "` reassigns Final binding `"@ + a.name@
            + "` in `"@ + o@ + "`"@,
        (None, Some(o)) => "function `"@ + o@ + "` in module `"@ + path + "` reassigns Final binding `"@ + a.name@
            + "`"@,
        _ => "module `"@ + path + "` reassigns Final binding `"@ + a.name@ + "`"@,
    }
}

/// The error for a result whose type does not fit the name's, worded for where the assignment
/// stands.
pub open spec fn spec_augmented_mismatch_message(
    path: Seq<char>,
    a: AssignmentSite,
    expected: Seq<char>,
    actual: Seq<char>,
) -> Seq<char> {
    match (a.owner_type_name, a.owner_name) {
        (Some(t), Some(o)) => "type `"@ + t@ + "` in module `"@ + path + "` augmented-assigns `"@ + actual
            + "` where local `"@ + a.name@ + "` in `"@ + o@ + "` expects `"@ + expected + "`"@,
        (None, Some(o)) => "function `"@ + o@ + "` in module `"@ + path + "` augmented-assigns `"@ + actual
            + "` where local `"@ + a.name@ + "` expects `"@ + expected + "`"@,
        _ => "module `"@ + path + "` augmented-assigns `"@ + actual + "` where `"@ + a.name@ + "` expects `"@
            + expected + "`"@,
    }
}

/// The check resolved for the assignment at position `i`, if any.
pub open spec fn check_at(checks: Seq<Option<AugmentedTypeCheck>>, i: int) -> Option<AugmentedTypeCheck> {
    if 0 <= i < checks.len() {
        checks[i]
    } else {
        None
    }
}

/// The error for the assignment at position `i` of the module: none unless it is a simple
/// augmented assignment; a `Final` reassignment if its target is `Final`; else a mismatch where
/// its types were resolved and do not match.
pub open spec fn spec_augmented_diagnostic(
    path: Seq<char>,
    decls: Seq<Declaration>,
    assignments: Seq<AssignmentSite>,
    invalidations: Seq<InvalidationSite>,
    checks: Seq<Option<AugmentedTypeCheck>>,
    i: int,
) -> Option<DiagnosticView> {
    let a = assignments[i];
    if !is_simple_augmented(a, invalidations) {
        None
    } else if spec_target_is_final(decls, assignments, a) {
        Some(spec_diagnostic(Severity::Error, "TPY4006"@, spec_final_reassignment_message(path, a)))
    } else {
        match check_at(checks, i) {
            Some(c) => if c.matches {
                None
            } else {
                Some(
                    spec_diagnostic(
                        Severity::Error,
                        "TPY4001"@,
                        spec_augmented_mismatch_message(path, a, c.expected@, c.actual@),
                    ),
                )
            },
            None => None,
        }
    }
}

/// The errors for the first `n` assignments of the module, in order.
pub open spec fn spec_augmented_diagnostics(
    path: Seq<char>,
    decls: Seq<Declaration>,
    assignments: Seq<AssignmentSite>,
    invalidations: Seq<InvalidationSite>,
    checks: Seq<Option<AugmentedTypeCheck>>,
    n: int,
) -> Seq<DiagnosticView>
    decreases n,
{
    if n <= 0 {
        Seq::empty()
    } else {
        let prev = spec_augmented_diagnostics(path, decls, assignments, invalidations, checks, n - 1);
        match spec_augmented_diagnostic(path, decls, assignments, invalidations, checks, n - 1) {
            Some(d) => prev.push(d),
            None => prev,
        }
    }
}

fn is_rebound(invalidations: &Vec<InvalidationSite>, a: &AssignmentSite) -> (res: bool)
    ensures
        res == exists|i: int| 0 <= i < invalidations@.len() && rebinds(#[trigger] invalidations@[i], *a),
{
    let mut i: usize = 0;
    while i < invalidations.len()
        invariant
            i <= invalidations@.len(),
            forall|j: int| 0 <= j < i ==> !rebinds(#[trigger] invalidations@[j], *a),
        decreases invalidations@.len() - i,
    {
        let s = &invalidations[i];
        if s.rebind_like && s.line == a.line && opt_str_eq(&s.owner_name, &a.owner_name) && opt_str_eq(
            &s.owner_type_name,
            &a.owner_type_name,
        ) && names_contain(&s.names, &a.name) {
            assert(rebinds(invalidations@[i as int], *a));
            return true;
        }
        i = i + 1;
    }
    false
}

fn final_reassignment_message(path: &str, a: &AssignmentSite) -> (res: String)
    ensures
        res@ == spec_final_reassignment_message(path@, *a),
{
    match (&a.owner_type_name, &a.owner_name) {
        (Some(t), Some(o)) => {
            let mut m = owned("type `");
            m.append(t);
            m.append("` in module `");
            m.append(path);
            m.append("` reassigns Final binding `");
            m.append(&a.name);
            m.append("` in `");
            m.append(o);
            m.append("`");
            m
        },
        (None, Some(o)) => {
            let mut m = owned("function `");
            m.append(o);
            m.append("` in module `");
            m.append(path);
            m.append("` reassigns Final binding `");
            m.append(&a.name);
            m.append("`");
            m
        },
        _ => {
            let mut m = owned("module `");
            m.append(path);
            m.append("` reassigns Final binding `");
            m.append(&a.name);
            m.append("`");
            m
        },
    }
}

fn augmented_mismatch_message(path: &str, a: &AssignmentSite, expected: &str, actual: &str) -> (res: String)
    ensures
        res@ == spec_augmented_mismatch_message(path@, *a, expected@, actual@),
{
    match (&a.owner_type_name, &a.owner_name) {
        (Some(t), Some(o)) => {
            let mut m = owned("type `");
            m.append(t);
            m.append("` in module `");
            m.append(path);
            m.append("` augmented-assigns `");
            m.append(actual);
            m.append("` where local `");
            m.append(&a.name);
            m.append("` in `");
            m.append(o);
            m.append("` expects `");
            m.append(expected);
            m.append("`");
            m
        },
        (None, Some(o)) => {
            let mut m = owned("function `");
            m.append(o);
            m.append("` in module `");
            m.append(path);
            m.append("` augmented-assigns `");
            m.append(actual);
            m.append("` where local `");
            m.append(&a.name);
            m.append("` expects `");
            m.append(expected);
            m.append("`");
            m
        },
        _ => {
            let mut m = owned("module `");
            m.append(path);
            m.append("` augmented-assigns `");
            m.append(actual);
            m.append("` where `");
            m.append(&a.name);
            m.append("` expects `");
            m.append(expected);
            m.append("`");
            m
        },
    }
}

/// The errors for augmented assignments `x = x <op> y` to simple names of a module: a `Final`
/// target is reported as reassigned; otherwise the types resolved for the assignment at the
/// same position of `type_checks`, where there are some, are reported when they do not match.
pub fn simple_name_augmented_assignment_diagnostics(
    source_path: &str,
    declarations: &Vec<Declaration>,
    assignments: &Vec<AssignmentSite>,
    invalidations: &Vec<InvalidationSite>,
    type_checks: &Vec<Option<AugmentedTypeCheck>>,
) -> (res: Vec<Diagnostic>)
    ensures
        res@.map_values(|d: Diagnostic| d@) == spec_augmented_diagnostics(
            source_path@,
            declarations@,
            assignments@,
            invalidations@,
            type_checks@,
            assignments@.len() as int,
        ),
{
    let mut out: Vec<Diagnostic> = Vec::new();
    let mut i: usize = 0;
    assert(out@.map_values(|d: Diagnostic| d@) =~= Seq::<DiagnosticView>::empty());
    while i < assignments.len()
        invariant
            i <= assignments@.len(),
            out@.map_values(|d: Diagnostic| d@) == spec_augmented_diagnostics(
                source_path@,
                declarations@,
                assignments@,
                invalidations@,
                type_checks@,
                i as int,
            ),
        decreases assignments@.len() - i,
    {
        let a = &assignments[i];
        let left_is_name = match &a.value_binop_left_name {
            Some(l) => str_eq(l, &a.name),
            None => false,
        };
        let simple = a.annotation.is_none() && left_is_name && a.has_value_binop_right && a.value_binop_operator.is_some()
            && is_rebound(invalidations, a);
        let ghost before = out@.map_values(|x: Diagnostic| x@);
        if simple {
            if current_augmented_assignment_target_is_final(declarations, assignments, a) {
                let d = Diagnostic::error("TPY4006", final_reassignment_message(source_path, a));
                out.push(d);
                assert(out@.map_values(|x: Diagnostic| x@) =~= before.push(d@));
            } else if i < type_checks.len() {
                match &type_checks[i] {
                    Some(c) => {
                        if !c.matches {
                            let d = Diagnostic::error(
                                "TPY4001",
                                augmented_mismatch_message(source_path, a, &c.expected, &c.actual),
                            );
                            out.push(d);
                            assert(out@.map_values(|x: Diagnostic| x@) =~= before.push(d@));
                        }
                    },
                    None => {},
                }
            }
        }
        i = i + 1;
    }
    out
}

} // verus!
