//! The checks of a method call for one type the receiver may have: which signature the call is
//! held to (a selected overload, the resolved method, or its declared parameters), and the
//! errors for a member that cannot be called, an ambiguous overload set, or a generic
//! parameter list that the call cannot resolve.
use vstd::prelude::*;
use crate::declarations::diag_views;
use crate::diagnostics::{Diagnostic, DiagnosticView, Severity, spec_diagnostic};
use crate::sites::MethodCallSite;
use crate::text::{decimal, decimal_string, owned};
use crate::typed_dict_mutations::line_error;

verus! {

/// How overload selection among a method's overloads ended.
#[derive(Debug)]
pub enum OverloadSelection {
    /// One overload applies; the diagnostics of the call held to its signature (arity, then
    /// keywords, then argument types).
    Selected(Vec<Diagnostic>),
    /// This many overloads still apply after filtering.
    Ambiguous(usize),
    /// None applies; the reason of the first failure to resolve a generic parameter list, if
    /// there was such a failure.
    NotApplicable(Option<String>),
}

/// How resolving the call against the method itself ended.
#[derive(Debug)]
pub enum CandidateResolution {
    /// The method accepts the call; the diagnostics of the call held to its signature.
    Resolved(Vec<Diagnostic>),
    /// The method has a generic parameter list that the call could not resolve, for this reason.
    GenericFailure(String),
    /// Resolution failed for another reason.
    Failed,
}

/// What was resolved for the call on one receiver type.
#[derive(Debug)]
pub enum MethodCallFacts {
    /// The receiver type names no class that could be resolved.
    NoClass,
    /// The class has no callable member of that name; the rendered type of a readable member or
    /// instance attribute of that name, if there is one, and whether that type may be called.
    NoCallable { class_name: String, member_type: Option<(String, bool)> },
    /// The class has callable members of that name: the outcome of overload selection when some
    /// of them are overloads, the outcome of resolving the first of them, and the diagnostics
    /// of the call held to that member's declared parameters.
    Callable {
        class_name: String,
        overloads: Option<OverloadSelection>,
        candidate: CandidateResolution,
        fallback_checks: Vec<Diagnostic>,
    },
}

/// The error for a call whose generic parameter list could not be resolved.
pub open spec fn generic_call_error(
    path: Seq<char>,
    module_key: Seq<char>,
    line: usize,
    callee: Seq<char>,
    reason: Seq<char>,
) -> DiagnosticView {
    let d = line_error(
        path,
        line,
        "TPY4014"@,
        "call to `"@ + callee + "` in module `"@ + module_key + "` is invalid because generic parameter list of `"@ + callee
            + "` could not be resolved from this call"@,
    );
    DiagnosticView { notes: d.notes.push(reason), ..d }
}

/// The diagnostics of a method call for one receiver type. Without a class there are none.
/// Without a callable member, a member of that name whose type cannot be called is an error.
/// Otherwise, when the method has overloads, a selected overload decides the diagnostics, an
/// ambiguous selection is an error, and a generic failure among inapplicable overloads is an
/// error; failing those, a resolved method decides the diagnostics, a generic failure of the
/// method is an error, and else the call is held to the method's declared parameters.
pub open spec fn spec_method_call_variant_diagnostics(
    path: Seq<char>,
    module_key: Seq<char>,
    call: MethodCallSite,
    facts: MethodCallFacts,
) -> Seq<DiagnosticView> {
    match facts {
        MethodCallFacts::NoClass => Seq::empty(),
        MethodCallFacts::NoCallable { class_name, member_type } => match member_type {
            Some((t, may_call)) => if may_call {
                Seq::empty()
            } else {
                seq![
                    line_error(
                        path,
                        call.line,
                        "TPY4001"@,
                        "member `"@ + call.method@ + "` on type `"@ + class_name@ + "` has non-callable type `"@ + t@ + "`"@,
                    ),
                ]
            },
            None => Seq::empty(),
        },
        MethodCallFacts::Callable { class_name, overloads, candidate, fallback_checks } => {
            let callee = class_name@ + "."@ + call.method@;
            let by_candidate = match candidate {
                CandidateResolution::Resolved(checks) => diag_views(checks@),
                CandidateResolution::GenericFailure(reason) => seq![
                    generic_call_error(path, module_key, call.line, callee, reason@),
                ],
                CandidateResolution::Failed => diag_views(fallback_checks@),
            };
            match overloads {
                Some(OverloadSelection::Selected(checks)) => diag_views(checks@),
                Some(OverloadSelection::Ambiguous(n)) => seq![
                    spec_diagnostic(
                        Severity::Error,
                        "TPY4012"@,
                        "call to `"@ + callee + "` in module `"@ + path + "` is ambiguous across "@ + decimal(n as nat)
                            + " overloads after applicability filtering"@,
                    ),
                ],
                Some(OverloadSelection::NotApplicable(Some(reason))) => seq![
                    generic_call_error(path, module_key, call.line, callee, reason@),
                ],
                _ => by_candidate,
            }
        },
    }
}

fn generic_call_error_exec(
    source_path: &str,
    module_key: &str,
    line: usize,
    callee: &str,
    reason: String,
) -> (res: Diagnostic)
    ensures
        res@ == generic_call_error(source_path@, module_key@, line, callee@, reason@),
{
    let mut m = owned("call to `");
    m.append(callee);
    m.append("` in module `");
    m.append(module_key);
    m.append("` is invalid because generic parameter list of `");
    m.append(callee);
    m.append("` could not be resolved from this call");
    Diagnostic::error("TPY4014", m).with_span(
        crate::diagnostics::Span::new(owned(source_path), line, 1, line, 1),
    ).with_note(reason)
}

/// The diagnostics of a method call for one type its receiver may have, given what was
/// resolved for that type.
pub fn direct_method_call_variant_diagnostics(
    source_path: &str,
    module_key: &str,
    call: &MethodCallSite,
    facts: MethodCallFacts,
) -> (res: Vec<Diagnostic>)
    ensures
        diag_views(res@) == spec_method_call_variant_diagnostics(source_path@, module_key@, *call, facts),
{
    match facts {
        MethodCallFacts::NoClass => {
            let out: Vec<Diagnostic> = Vec::new();
            assert(diag_views(out@) =~= Seq::<DiagnosticView>::empty());
            out
        },
        MethodCallFacts::NoCallable { class_name, member_type } => {
            let mut out: Vec<Diagnostic> = Vec::new();
            if let Some((t, may_call)) = member_type {
                if !may_call {
                    let mut m = owned("member `");
                    m.append(&call.method);
                    m.append("` on type `");
                    m.append(&class_name);
                    m.append("` has non-callable type `");
                    m.append(&t);
                    m.append("`");
                    let d = Diagnostic::error("TPY4001", m).with_span(
                        crate::diagnostics::Span::new(owned(source_path), call.line, 1, call.line, 1),
                    );
                    out.push(d);
                }
            }
            assert(diag_views(out@) =~= spec_method_call_variant_diagnostics(
                source_path@,
                module_key@,
                *call,
                MethodCallFacts::NoCallable { class_name, member_type },
            ));
            out
        },
        MethodCallFacts::Callable { class_name, overloads, candidate, fallback_checks } => {
            let mut callee = owned(&class_name);
            callee.append(".");
            callee.append(&call.method);
            let mut out: Vec<Diagnostic> = Vec::new();
            match overloads {
                Some(OverloadSelection::Selected(checks)) => {
                    return checks;
                },
                Some(OverloadSelection::Ambiguous(n)) => {
                    let mut m = owned("call to `");
                    m.append(&callee);
                    m.append("` in module `");
                    m.append(source_path);
                    m.append("` is ambiguous across ");
                    let count = decimal_string(n);
                    m.append(&count);
                    m.append(" overloads after applicability filtering");
                    out.push(Diagnostic::error("TPY4012", m));
                    assert(diag_views(out@) =~= seq![
                        spec_diagnostic(
                            Severity::Error,
                            "TPY4012"@,
                            "call to `"@ + callee@ + "` in module `"@ + source_path@ + "` is ambiguous across "@ + decimal(
                                n as nat,
                            ) + " overloads after applicability filtering"@,
                        ),
                    ]);
                    return out;
                },
                Some(OverloadSelection::NotApplicable(Some(reason))) => {
                    out.push(generic_call_error_exec(source_path, module_key, call.line, &callee, reason));
                    assert(diag_views(out@) =~= seq![
                        generic_call_error(source_path@, module_key@, call.line, callee@, out@[0]@.notes.last()),
                    ]);
                    return out;
                },
                _ => {},
            }
            match candidate {
                CandidateResolution::Resolved(checks) => checks,
                CandidateResolution::GenericFailure(reason) => {
                    let ghost r = reason@;
                    out.push(generic_call_error_exec(source_path, module_key, call.line, &callee, reason));
                    assert(diag_views(out@) =~= seq![generic_call_error(source_path@, module_key@, call.line, callee@, r)]);
                    out
                },
                CandidateResolution::Failed => fallback_checks,
            }
        },
    }
}

} // verus!
