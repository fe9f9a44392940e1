//! Warnings for calls into effectful callables whose effects the caller does not cover.
use vstd::prelude::*;
use crate::diagnostics::{Diagnostic, DiagnosticView, Span, Severity, spec_diagnostic, spec_point_span};
use crate::effect_row::{EffectRow, SpecEffectKind, spec_labels};
use crate::effect_summary::{
    CapabilityScope, EffectSource, EffectSummary, SpecEffectSource, SummaryKey, opt_view, clone_opt,
    lookup_summary, lookup_effectful, spec_caller_effect_row_allows, spec_capability_scopes_allow,
    caller_effect_row_allows, capability_scopes_allow, caller_effect_summary, indexes_selected,
    function_summaries_by_name, method_summaries_by_name, effectful_function_summaries_by_name,
    effectful_method_summaries_by_name, effectful_function_summary, effectful_method_summary, as_index,
};
use crate::inference::{EffectCallCallee, EffectCallEdge};
use crate::text::{owned, str_eq, join_strings, join_with, decimal, decimal_string};

verus! {

/// How the first source of a summary is described.
pub open spec fn spec_source_text(source: Option<SpecEffectSource>) -> Seq<char> {
    match source {
        Some(SpecEffectSource::Decorator(name)) => "effect declared by `"@ + name + "`"@,
        Some(SpecEffectSource::Lifecycle(name)) => "resource effect inferred from `"@ + name + "`"@,
        Some(SpecEffectSource::UnsafeBlock) => "capability granted by `unsafe:` scope"@,
        Some(SpecEffectSource::Inferred(name)) => "effect inferred from `"@ + name + "`"@,
        Some(SpecEffectSource::Stdlib(name)) => "effect inferred from stdlib `"@ + name + "`"@,
        None => "effect source is unknown"@,
    }
}

/// The note naming where a summary's effects come from, and its line.
pub open spec fn spec_effect_source_note(summary: EffectSummary) -> Seq<char> {
    spec_source_text(
        if summary.sources@.len() > 0 {
            Some(summary.sources@[0]@)
        } else {
            None
        },
    ) + " on line "@ + decimal(summary.line as nat)
}

fn quoted(prefix: &str, name: &str) -> (res: String)
    ensures
        res@ == prefix@ + name@ + "`"@,
{
    let mut s = owned(prefix);
    s.append(name);
    s.append("`");
    s
}

/// The note naming where a summary's effects come from, and its line.
pub fn effect_source_note(summary: &EffectSummary) -> (res: String)
    ensures
        res@ == spec_effect_source_note(*summary),
{
    let mut source = if summary.sources.len() > 0 {
        match &summary.sources[0] {
            EffectSource::Decorator(name) => quoted("effect declared by `", name),
            EffectSource::Lifecycle(name) => quoted("resource effect inferred from `", name),
            EffectSource::UnsafeBlock => owned("capability granted by `unsafe:` scope"),
            EffectSource::Inferred(name) => quoted("effect inferred from `", name),
            EffectSource::Stdlib(name) => quoted("effect inferred from stdlib `", name),
        }
    } else {
        owned("effect source is unknown")
    };
    source.append(" on line ");
    let line = decimal_string(summary.line);
    source.append(&line);
    source
}

/// How a caller is described: a pure function when its summary is pure.
pub open spec fn spec_caller_kind(caller: Option<EffectSummary>) -> Seq<char> {
    match caller {
        Some(c) => if c.pure {
            "pure function"@
        } else {
            "function"@
        },
        None => "function"@,
    }
}

/// The message of an uncovered-effect warning.
pub open spec fn spec_effect_call_message(
    owner: Seq<char>,
    caller: Option<EffectSummary>,
    callee: EffectSummary,
) -> Seq<char> {
    spec_caller_kind(caller) + " `"@ + owner + "` calls effectful "@ + (if callee.owner_type_name
        is Some {
        "method"@
    } else {
        "function"@
    }) + " `"@ + callee.spec_display() + "` with uncovered effect row `"@ + join_with(
        spec_labels(callee.row@),
        ", "@,
    ) + "`"@
}

/// The uncovered-effect warning for a call on `line` of the module at `source_path`.
pub open spec fn spec_effect_call_diagnostic(
    source_path: Seq<char>,
    owner: Seq<char>,
    caller: Option<EffectSummary>,
    callee: EffectSummary,
    line: nat,
) -> DiagnosticView {
    DiagnosticView {
        span: Some(spec_point_span(source_path, line, 1)),
        notes: seq![
            spec_effect_source_note(callee)
                + "; add an effect declaration to the caller, remove `@effect_pure`, or isolate the call behind an explicit capability boundary"@,
        ],
        ..spec_diagnostic(
            Severity::Warning,
            "TPY4026"@,
            spec_effect_call_message(owner, caller, callee),
        )
    }
}

/// The uncovered-effect warning for a call on `line`.
pub fn effect_call_diagnostic(
    source_path: &str,
    owner: &str,
    caller: Option<&EffectSummary>,
    callee: &EffectSummary,
    line: usize,
) -> (res: Diagnostic)
    ensures
        res@ == spec_effect_call_diagnostic(
            source_path@,
            owner@,
            match caller {
                Some(c) => Some(*c),
                None => None,
            },
            *callee,
            line as nat,
        ),
{
    let labels = join_strings(&callee.row.labels(), ", ");
    let source_note = effect_source_note(callee);
    let mut message = match caller {
        Some(summary) => if summary.pure {
            owned("pure function")
        } else {
            owned("function")
        },
        None => owned("function"),
    };
    message.append(" `");
    message.append(owner);
    message.append("` calls effectful ");
    if callee.owner_type_name.is_some() {
        message.append("method");
    } else {
        message.append("function");
    }
    message.append(" `");
    let display = callee.display_name();
    message.append(&display);
    message.append("` with uncovered effect row `");
    message.append(&labels);
    message.append("`");
    let mut note = source_note;
    note.append(
        "; add an effect declaration to the caller, remove `@effect_pure`, or isolate the call behind an explicit capability boundary",
    );
    let d = Diagnostic::warning("TPY4026", message).with_span(
        Span::new(owned(source_path), line, 1, line, 1),
    ).with_note(note);
    assert(d@.notes =~= seq![
        spec_effect_source_note(*callee)
            + "; add an effect declaration to the caller, remove `@effect_pure`, or isolate the call behind an explicit capability boundary"@,
    ]);
    d
}

/// A call to check: the calling owner and its type, what it calls, and the line.
#[derive(Debug, Clone)]
pub struct EffectCheck {
    pub owner: String,
    pub owner_type_name: Option<String>,
    pub callee: EffectCallCallee,
    pub line: usize,
}

/// The plain-value view of a check: caller, caller's type, callee key and line.
pub struct CheckView {
    pub owner: Seq<char>,
    pub owner_type_name: Option<Seq<char>>,
    pub callee: SummaryKey,
    pub line: int,
}

/// The plain-value view of a check.
pub open spec fn check_view(c: EffectCheck) -> CheckView {
    CheckView {
        owner: c.owner@,
        owner_type_name: opt_view(c.owner_type_name),
        callee: callee_key(c.callee),
        line: c.line as int,
    }
}

/// The checks taken by their views.
pub open spec fn check_views(s: Seq<EffectCheck>) -> Seq<CheckView> {
    s.map_values(|c: EffectCheck| check_view(c))
}

/// The key a callee is looked up under.
pub open spec fn callee_key(c: EffectCallCallee) -> SummaryKey {
    match c {
        EffectCallCallee::Function(n) => (None, n@),
        EffectCallCallee::Method { owner_type_name, method_name } => (Some(owner_type_name@), method_name@),
    }
}

/// The summary of the caller: its method summary when it is a method that has one, else the
/// function summary of its name.
pub open spec fn spec_caller(
    summaries: Seq<EffectSummary>,
    owner: Seq<char>,
    owner_type_name: Option<Seq<char>>,
) -> Option<int> {
    match owner_type_name {
        Some(t) => match lookup_summary(summaries, (Some(t), owner)) {
            Some(i) => Some(i),
            None => lookup_summary(summaries, (None, owner)),
        },
        None => lookup_summary(summaries, (None, owner)),
    }
}

/// A reported warning's identity: caller, line and callee name.
pub type ReportKey = (Seq<char>, int, Seq<char>);

/// The warning a check raises, if its callee is effectful and neither the caller's row nor a
/// capability scope covers the callee's effects.
pub open spec fn spec_check_warning(
    source_path: Seq<char>,
    summaries: Seq<EffectSummary>,
    scopes: Seq<CapabilityScope>,
    check: CheckView,
) -> Option<(ReportKey, DiagnosticView)> {
    match lookup_effectful(summaries, check.callee) {
        None => None,
        Some(ci) => {
            let callee = summaries[ci];
            let caller = match spec_caller(summaries, check.owner, check.owner_type_name) {
                Some(k) => Some(summaries[k]),
                None => None,
            };
            if spec_caller_effect_row_allows(caller, callee.row@) || spec_capability_scopes_allow(
                scopes,
                check.line,
                callee.row@,
            ) {
                None
            } else {
                Some(
                    (
                        (check.owner, check.line, callee.spec_display()),
                        spec_effect_call_diagnostic(source_path, check.owner, caller, callee, check.line as nat),
                    ),
                )
            }
        },
    }
}

/// The warnings a list of checks raises, each (caller, line, callee) reported once, in order.
pub open spec fn spec_effect_warnings(
    source_path: Seq<char>,
    summaries: Seq<EffectSummary>,
    scopes: Seq<CapabilityScope>,
    checks: Seq<CheckView>,
) -> (Seq<DiagnosticView>, Set<ReportKey>)
    decreases checks.len(),
{
    if checks.len() == 0 {
        (Seq::empty(), Set::empty())
    } else {
        let (diags, reported) = spec_effect_warnings(source_path, summaries, scopes, checks.drop_last());
        match spec_check_warning(source_path, summaries, scopes, checks.last()) {
            Some((key, d)) => if reported.contains(key) {
                (diags, reported)
            } else {
                (diags.push(d), reported.insert(key))
            },
            None => (diags, reported),
        }
    }
}

/// Whether `reported` holds the key, adding it if not; returns whether it was new.
fn report_once(reported: &mut Vec<(String, usize, String)>, owner: &str, line: usize, callee: &str) -> (res: bool)
    ensures
        final(reported)@.map_values(|r: (String, usize, String)| (r.0@, r.1 as int, r.2@)).to_set()
            == old(reported)@.map_values(|r: (String, usize, String)| (r.0@, r.1 as int, r.2@)).to_set().insert(
            (owner@, line as int, callee@),
        ),
        res == !old(reported)@.map_values(|r: (String, usize, String)| (r.0@, r.1 as int, r.2@)).to_set().contains(
            (owner@, line as int, callee@),
        ),
{
    let ghost v = reported@.map_values(|r: (String, usize, String)| (r.0@, r.1 as int, r.2@));
    let ghost key = (owner@, line as int, callee@);
    let n = reported.len();
    let mut i: usize = 0;
    while i < n
        invariant
            n == reported@.len(),
            i <= n,
            v == reported@.map_values(|r: (String, usize, String)| (r.0@, r.1 as int, r.2@)),
            key == (owner@, line as int, callee@),
            forall|j: int| 0 <= j < i ==> v[j] != key,
        decreases n - i,
    {
        if str_eq(&reported[i].0, owner) && reported[i].1 == line && str_eq(&reported[i].2, callee) {
            assert(v[i as int] == key);
            assert(v.to_set().contains(key));
            assert(v.to_set().insert(key) =~= v.to_set());
            return false;
        }
        i = i + 1;
    }
    reported.push((owned(owner), line, owned(callee)));
    proof {
        v.lemma_push_to_set_commute(key);
        assert(reported@.map_values(|r: (String, usize, String)| (r.0@, r.1 as int, r.2@)) =~= v.push(key));
    }
    true
}

/// Adds the uncovered-effect warning for a call unless the caller or a capability scope
/// covers the callee's effects, or the same caller, line and callee was already reported.
pub fn maybe_push_effect_call_diagnostic(
    diagnostics: &mut Vec<Diagnostic>,
    reported: &mut Vec<(String, usize, String)>,
    source_path: &str,
    capability_scopes: &[CapabilityScope],
    owner: &str,
    caller: Option<&EffectSummary>,
    callee: &EffectSummary,
    line: usize,
)
    ensures
        ({
            let old_set = old(reported)@.map_values(
                |r: (String, usize, String)| (r.0@, r.1 as int, r.2@),
            ).to_set();
            let key = (owner@, line as int, callee.spec_display());
            let fires = !spec_caller_effect_row_allows(
                match caller {
                    Some(c) => Some(*c),
                    None => None,
                },
                callee.row@,
            ) && !spec_capability_scopes_allow(capability_scopes@, line as int, callee.row@)
                && !old_set.contains(key);
            &&& final(reported)@.map_values(|r: (String, usize, String)| (r.0@, r.1 as int, r.2@)).to_set()
                == if fires {
                old_set.insert(key)
            } else {
                old_set
            }
            &&& final(diagnostics)@.map_values(|d: Diagnostic| d@) == if fires {
                old(diagnostics)@.map_values(|d: Diagnostic| d@).push(
                    spec_effect_call_diagnostic(
                        source_path@,
                        owner@,
                        match caller {
                            Some(c) => Some(*c),
                            None => None,
                        },
                        *callee,
                        line as nat,
                    ),
                )
            } else {
                old(diagnostics)@.map_values(|d: Diagnostic| d@)
            }
        }),
{
    let ghost dv = diagnostics@.map_values(|d: Diagnostic| d@);
    if !caller_effect_row_allows(caller, &callee.row) && !capability_scopes_allow(
        capability_scopes,
        line,
        &callee.row,
    ) {
        let display = callee.display_name();
        if report_once(reported, owner, line, &display) {
            diagnostics.push(effect_call_diagnostic(source_path, owner, caller, callee, line));
            assert(diagnostics@.map_values(|d: Diagnostic| d@) =~= dv.push(
                spec_effect_call_diagnostic(
                    source_path@,
                    owner@,
                    match caller {
                        Some(c) => Some(*c),
                        None => None,
                    },
                    *callee,
                    line as nat,
                ),
            ));
        }
    }
}

/// The uncovered-effect warnings for a list of calls, in order, each (caller, line, callee)
/// reported once.
pub fn effect_call_warnings(
    source_path: &str,
    summaries: &[EffectSummary],
    capability_scopes: &[CapabilityScope],
    checks: &[EffectCheck],
) -> (res: Vec<Diagnostic>)
    ensures
        res@.map_values(|d: Diagnostic| d@) == spec_effect_warnings(
            source_path@,
            summaries@,
            capability_scopes@,
            check_views(checks@),
        ).0,
{
    let by_name = function_summaries_by_name(summaries);
    let by_method = method_summaries_by_name(summaries);
    let effectful_by_name = effectful_function_summaries_by_name(summaries);
    let effectful_by_method = effectful_method_summaries_by_name(summaries);
    let mut diagnostics: Vec<Diagnostic> = Vec::new();
    let mut reported: Vec<(String, usize, String)> = Vec::new();
    let n = checks.len();
    let mut i: usize = 0;
    let ghost cv = check_views(checks@);
    assert(cv.take(0) =~= Seq::<CheckView>::empty());
    assert(diagnostics@.map_values(|d: Diagnostic| d@) =~= Seq::<DiagnosticView>::empty());
    assert(reported@.map_values(|r: (String, usize, String)| (r.0@, r.1 as int, r.2@)).to_set()
        =~= Set::<ReportKey>::empty());
    while i < n
        invariant
            n == checks@.len(),
            i <= n,
            indexes_selected(by_name@, summaries@, false, false),
            indexes_selected(by_method@, summaries@, true, false),
            indexes_selected(effectful_by_name@, summaries@, false, true),
            indexes_selected(effectful_by_method@, summaries@, true, true),
            (diagnostics@.map_values(|d: Diagnostic| d@), reported@.map_values(
                |r: (String, usize, String)| (r.0@, r.1 as int, r.2@),
            ).to_set()) == spec_effect_warnings(
                source_path@,
                summaries@,
                capability_scopes@,
                cv.take(i as int),
            ),
            cv == check_views(checks@),
        decreases n - i,
    {
        let check = &checks[i];
        assert(cv.take(i + 1).drop_last() =~= cv.take(i as int));
        assert(cv.take(i + 1).last() == check_view(*check));
        let owner_type = match &check.owner_type_name {
            Some(t) => Some(t.as_str()),
            None => None,
        };
        let caller_idx = caller_effect_summary(summaries, &by_name, &by_method, &check.owner, owner_type);
        let callee_idx = match &check.callee {
            EffectCallCallee::Function(name) => effectful_function_summary(summaries, &effectful_by_name, name),
            EffectCallCallee::Method { owner_type_name, method_name } => effectful_method_summary(
                summaries,
                &effectful_by_method,
                Some(owner_type_name.as_str()),
                Some(method_name.as_str()),
            ),
        };
        assert(as_index(lookup_effectful(summaries@, callee_key(check.callee))) == callee_idx);
        assert(as_index(spec_caller(summaries@, check.owner@, opt_view(check.owner_type_name))) == caller_idx);
        if let Some(ci) = callee_idx {
            let caller = match caller_idx {
                Some(k) => Some(&summaries[k]),
                None => None,
            };
            maybe_push_effect_call_diagnostic(
                &mut diagnostics,
                &mut reported,
                source_path,
                capability_scopes,
                &check.owner,
                caller,
                &summaries[ci],
                check.line,
            );
        }
        i = i + 1;
    }
    assert(cv.take(n as int) =~= cv);
    diagnostics
}

} // verus!
