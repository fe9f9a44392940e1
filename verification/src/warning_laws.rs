//! What the effect and taint pass reports at most once: no two uncovered-effect warnings share
//! a line and a message, and nothing is reported unless the module is strict TypePython source
//! with a check enabled.
use vstd::prelude::*;
use crate::capability_check::{EffectCheckConfig, spec_all_checks, spec_effect_capability_diagnostics};
use crate::sites::ModuleSites;
use crate::taint_check::FrameworkProvider;
use crate::diagnostics::{DiagnosticView, SourceKind};
use crate::effect_diagnostics::{
    CheckView, ReportKey, spec_check_warning, spec_effect_call_diagnostic, spec_effect_call_message,
    spec_effect_warnings,
};
use crate::effect_summary::{CapabilityScope, EffectSummary};
use crate::taint_check::{DecoratedCallable, TaintState, spec_taint_run, spec_taint_source_sink, spec_taint_step};

verus! {

/// A text with no backtick in it.
pub open spec fn tickless(s: Seq<char>) -> bool {
    forall|i: int| 0 <= i < s.len() ==> s[i] != '`'
}

proof fn lemma_tick_split(a: Seq<char>, b: Seq<char>, c: Seq<char>, d: Seq<char>)
    requires
        tickless(a),
        tickless(c),
        a + "`"@ + b == c + "`"@ + d,
    ensures
        a == c,
        b == d,
{
    reveal_strlit("`");
    let x = a + "`"@ + b;
    let y = c + "`"@ + d;
    if a.len() < c.len() {
        assert(x[a.len() as int] == '`');
        assert(y[a.len() as int] == c[a.len() as int]);
    } else if c.len() < a.len() {
        assert(y[c.len() as int] == '`');
        assert(x[c.len() as int] == a[c.len() as int]);
    } else {
        assert(x.len() == y.len());
        assert(a =~= c) by {
            assert forall|i: int| 0 <= i < a.len() implies a[i] == c[i] by {
                assert(x[i] == a[i]);
                assert(y[i] == c[i]);
            }
        }
        assert(b =~= d) by {
            assert forall|i: int| 0 <= i < b.len() implies b[i] == d[i] by {
                assert(x[a.len() + 1 + i] == b[i]);
                assert(y[c.len() + 1 + i] == d[i]);
            }
        }
    }
}

/// The message of an uncovered-effect warning, cut at its backticks.
pub open spec fn message_parts(
    kind: Seq<char>,
    owner: Seq<char>,
    what: Seq<char>,
    display: Seq<char>,
    labels: Seq<char>,
) -> Seq<char> {
    (kind + " "@) + "`"@ + (owner + "`"@ + ((" calls effectful "@ + what + " "@) + "`"@ + (display + "`"@
        + (" with uncovered effect row "@ + "`"@ + (labels + "`"@)))))
}

proof fn lemma_message_shape(owner: Seq<char>, caller: Option<EffectSummary>, callee: EffectSummary)
    ensures
        ({
            let kind = crate::effect_diagnostics::spec_caller_kind(caller);
            let what = if callee.owner_type_name is Some {
                "method"@
            } else {
                "function"@
            };
            &&& tickless(kind + " "@)
            &&& tickless(" calls effectful "@ + what + " "@)
            &&& spec_effect_call_message(owner, caller, callee) == message_parts(
                kind,
                owner,
                what,
                callee.spec_display(),
                crate::text::join_with(crate::effect_row::spec_labels(callee.row@), ", "@),
            )
        }),
{
    reveal_strlit("`");
    reveal_strlit(" ");
    reveal_strlit(" `");
    reveal_strlit("` calls effectful ");
    reveal_strlit("` with uncovered effect row `");
    reveal_strlit(" calls effectful ");
    reveal_strlit(" with uncovered effect row ");
    reveal_strlit("pure function");
    reveal_strlit("function");
    reveal_strlit("method");
    let kind = crate::effect_diagnostics::spec_caller_kind(caller);
    let what = if callee.owner_type_name is Some {
        "method"@
    } else {
        "function"@
    };
    let display = callee.spec_display();
    let labels = crate::text::join_with(crate::effect_row::spec_labels(callee.row@), ", "@);
    assert(spec_effect_call_message(owner, caller, callee) =~= message_parts(kind, owner, what, display, labels));
}

proof fn lemma_message_injective(
    o1: Seq<char>,
    c1: Option<EffectSummary>,
    e1: EffectSummary,
    o2: Seq<char>,
    c2: Option<EffectSummary>,
    e2: EffectSummary,
)
    requires
        tickless(o1),
        tickless(o2),
        tickless(e1.spec_display()),
        tickless(e2.spec_display()),
        spec_effect_call_message(o1, c1, e1) == spec_effect_call_message(o2, c2, e2),
    ensures
        o1 == o2,
        e1.spec_display() == e2.spec_display(),
{
    lemma_message_shape(o1, c1, e1);
    lemma_message_shape(o2, c2, e2);
    let k1 = crate::effect_diagnostics::spec_caller_kind(c1);
    let k2 = crate::effect_diagnostics::spec_caller_kind(c2);
    let w1 = if e1.owner_type_name is Some { "method"@ } else { "function"@ };
    let w2 = if e2.owner_type_name is Some { "method"@ } else { "function"@ };
    let l1 = crate::text::join_with(crate::effect_row::spec_labels(e1.row@), ", "@);
    let l2 = crate::text::join_with(crate::effect_row::spec_labels(e2.row@), ", "@);
    let d1 = e1.spec_display();
    let d2 = e2.spec_display();
    let r3a = " with uncovered effect row "@ + "`"@ + (l1 + "`"@);
    let r3b = " with uncovered effect row "@ + "`"@ + (l2 + "`"@);
    let r2a = (" calls effectful "@ + w1 + " "@) + "`"@ + (d1 + "`"@ + r3a);
    let r2b = (" calls effectful "@ + w2 + " "@) + "`"@ + (d2 + "`"@ + r3b);
    lemma_tick_split(k1 + " "@, o1 + "`"@ + r2a, k2 + " "@, o2 + "`"@ + r2b);
    lemma_tick_split(o1, r2a, o2, r2b);
    lemma_tick_split(" calls effectful "@ + w1 + " "@, d1 + "`"@ + r3a, " calls effectful "@ + w2 + " "@, d2 + "`"@ + r3b);
    lemma_tick_split(d1, r3a, d2, r3b);
}

/// The warning `d` is the uncovered-effect warning for the report key `k`, whose caller and
/// callee names have no backtick.
pub open spec fn warns_for(path: Seq<char>, d: DiagnosticView, k: ReportKey) -> bool {
    exists|caller: Option<EffectSummary>, callee: EffectSummary|
        tickless(k.0) && tickless(k.2) && k.1 >= 0 && callee.spec_display() == k.2 && d
            == #[trigger] spec_effect_call_diagnostic(path, k.0, caller, callee, k.1 as nat)
}

proof fn lemma_warns_for_injective(path: Seq<char>, d1: DiagnosticView, k1: ReportKey, d2: DiagnosticView, k2: ReportKey)
    requires
        warns_for(path, d1, k1),
        warns_for(path, d2, k2),
        d1.span == d2.span,
        d1.message == d2.message,
    ensures
        k1 == k2,
{
    let (c1, e1) = choose|caller: Option<EffectSummary>, callee: EffectSummary|
        tickless(k1.0) && tickless(k1.2) && k1.1 >= 0 && callee.spec_display() == k1.2 && d1
            == #[trigger] spec_effect_call_diagnostic(path, k1.0, caller, callee, k1.1 as nat);
    let (c2, e2) = choose|caller: Option<EffectSummary>, callee: EffectSummary|
        tickless(k2.0) && tickless(k2.2) && k2.1 >= 0 && callee.spec_display() == k2.2 && d2
            == #[trigger] spec_effect_call_diagnostic(path, k2.0, caller, callee, k2.1 as nat);
    lemma_message_injective(k1.0, c1, e1, k2.0, c2, e2);
    assert(d1.span.unwrap().line == k1.1);
    assert(d2.span.unwrap().line == k2.1);
}

/// The checks' callers and lines and the summaries' names are as reports need them: no backtick
/// in a caller or callee name, and no negative line.
pub open spec fn plain_names(summaries: Seq<EffectSummary>, checks: Seq<CheckView>) -> bool {
    &&& forall|i: int| 0 <= i < summaries.len() ==> tickless(#[trigger] summaries[i].spec_display())
    &&& forall|i: int| 0 <= i < checks.len() ==> tickless((#[trigger] checks[i]).owner) && checks[i].line >= 0
}

/// The report key a warning is the warning of, where it is one.
pub open spec fn key_of(path: Seq<char>, d: DiagnosticView) -> ReportKey {
    choose|k: ReportKey| warns_for(path, d, k)
}

/// Each warning is the warning of a reported key, and no key is warned about twice.
pub open spec fn warnings_distinct(path: Seq<char>, diags: Seq<DiagnosticView>, reported: Set<ReportKey>) -> bool {
    &&& forall|i: int|
        0 <= i < diags.len() ==> reported.contains(key_of(path, #[trigger] diags[i])) && warns_for(
            path,
            diags[i],
            key_of(path, diags[i]),
        )
    &&& forall|i: int, j: int, k: ReportKey|
        0 <= i < j < diags.len() ==> !(#[trigger] warns_for(path, diags[i], k) && #[trigger] warns_for(path, diags[j], k))
}

proof fn lemma_warnings_distinct(
    path: Seq<char>,
    summaries: Seq<EffectSummary>,
    scopes: Seq<CapabilityScope>,
    checks: Seq<CheckView>,
)
    requires
        plain_names(summaries, checks),
    ensures
        warnings_distinct(
            path,
            spec_effect_warnings(path, summaries, scopes, checks).0,
            spec_effect_warnings(path, summaries, scopes, checks).1,
        ),
    decreases checks.len(),
{
    if checks.len() == 0 {
        assert(spec_effect_warnings(path, summaries, scopes, checks).0.len() == 0);
    } else {
        let prev = checks.drop_last();
        assert(plain_names(summaries, prev)) by {
            assert forall|i: int| 0 <= i < prev.len() implies tickless((#[trigger] prev[i]).owner) && prev[i].line >= 0 by {
                assert(prev[i] == checks[i]);
            }
        }
        lemma_warnings_distinct(path, summaries, scopes, prev);
        let diags = spec_effect_warnings(path, summaries, scopes, prev).0;
        let reported = spec_effect_warnings(path, summaries, scopes, prev).1;
        let c = checks.last();
        assert(c == checks[checks.len() - 1]);
        match spec_check_warning(path, summaries, scopes, c) {
            Some((key, d)) => {
                if !reported.contains(key) {
                    let ci = crate::effect_summary::lookup_effectful(summaries, c.callee).unwrap();
                    crate::effect_summary::lemma_lookup_is_first(summaries, c.callee, ci);
                    assert(tickless(summaries[ci].spec_display()));
                    assert(warns_for(path, d, key));
                    lemma_warns_for_injective(path, d, key_of(path, d), d, key);
                    let now = diags.push(d);
                    let rep = reported.insert(key);
                    assert forall|i: int| 0 <= i < now.len() implies rep.contains(key_of(path, #[trigger] now[i])) && warns_for(
                        path,
                        now[i],
                        key_of(path, now[i]),
                    ) by {
                        if i < diags.len() {
                            assert(now[i] == diags[i]);
                        } else {
                            assert(now[i] == d);
                        }
                    }
                    assert forall|i: int, j: int, k: ReportKey|
                        0 <= i < j < now.len() implies !(#[trigger] warns_for(path, now[i], k) && #[trigger] warns_for(path, now[j], k)) by {
                        assert(now[i] == diags[i]);
                        if j < diags.len() {
                            assert(now[j] == diags[j]);
                        } else if warns_for(path, now[i], k) && warns_for(path, now[j], k) {
                            assert(now[j] == d);
                            lemma_warns_for_injective(path, d, k, d, key);
                            lemma_warns_for_injective(path, diags[i], key_of(path, diags[i]), diags[i], k);
                        }
                    }
                    assert(warnings_distinct(path, now, rep));
                    assert(spec_effect_warnings(path, summaries, scopes, checks) == (now, rep));
                } else {
                    assert(spec_effect_warnings(path, summaries, scopes, checks) == (diags, reported));
                }
            },
            None => {
                assert(spec_effect_warnings(path, summaries, scopes, checks) == (diags, reported));
            },
        }
    }
}

/// No two uncovered-effect warnings share a line and a message, where no caller or callee name
/// has a backtick.
pub proof fn law_warnings_once_per_line_and_message(
    path: Seq<char>,
    summaries: Seq<EffectSummary>,
    scopes: Seq<CapabilityScope>,
    checks: Seq<CheckView>,
)
    requires
        plain_names(summaries, checks),
    ensures
        ({
            let diags = spec_effect_warnings(path, summaries, scopes, checks).0;
            forall|i: int, j: int|
                0 <= i < j < diags.len() ==> !(#[trigger] diags[i].span == #[trigger] diags[j].span && diags[i].message
                    == diags[j].message)
        }),
{
    lemma_warnings_distinct(path, summaries, scopes, checks);
    let diags = spec_effect_warnings(path, summaries, scopes, checks).0;
    assert forall|i: int, j: int| 0 <= i < j < diags.len() implies !(#[trigger] diags[i].span == #[trigger] diags[j].span
        && diags[i].message == diags[j].message) by {
        if diags[i].span == diags[j].span && diags[i].message == diags[j].message {
            let ki = key_of(path, diags[i]);
            let kj = key_of(path, diags[j]);
            lemma_warns_for_injective(path, diags[i], ki, diags[j], kj);
            assert(warns_for(path, diags[i], kj) && warns_for(path, diags[j], kj));
        }
    }
}

proof fn lemma_taint_codes(
    path: Seq<char>,
    dec: crate::taint_flow::DecorationsView,
    range: spec_fn(Option<Seq<char>>) -> Option<(int, int)>,
    markers: Seq<(int, Option<Seq<char>>)>,
    assignments: Seq<crate::sites::AssignmentSite>,
    calls: Seq<crate::sites::CallSite>,
    method_calls: Seq<crate::sites::MethodCallSite>,
    items: Seq<crate::ordering::LineItem>,
)
    ensures
        ({
            let ds = spec_taint_run(path, dec, range, markers, assignments, calls, method_calls, items).diagnostics;
            forall|i: int| 0 <= i < ds.len() ==> (#[trigger] ds[i]).code == "TPY4028"@
        }),
    decreases items.len(),
{
    if items.len() > 0 {
        lemma_taint_codes(path, dec, range, markers, assignments, calls, method_calls, items.drop_last());
        let st = spec_taint_run(path, dec, range, markers, assignments, calls, method_calls, items.drop_last());
        let next = spec_taint_step(path, dec, range, markers, assignments, calls, method_calls, st, items.last());
        assert(next == spec_taint_run(path, dec, range, markers, assignments, calls, method_calls, items));
        assert forall|i: int| 0 <= i < next.diagnostics.len() implies (#[trigger] next.diagnostics[i]).code == "TPY4028"@ by {
            if i < st.diagnostics.len() {
                assert(next.diagnostics[i] == st.diagnostics[i]);
            }
        }
    }
}

proof fn lemma_warning_codes(
    path: Seq<char>,
    summaries: Seq<EffectSummary>,
    scopes: Seq<CapabilityScope>,
    checks: Seq<CheckView>,
)
    ensures
        ({
            let ds = spec_effect_warnings(path, summaries, scopes, checks).0;
            forall|i: int| 0 <= i < ds.len() ==> (#[trigger] ds[i]).code == "TPY4026"@
        }),
    decreases checks.len(),
{
    if checks.len() > 0 {
        lemma_warning_codes(path, summaries, scopes, checks.drop_last());
        let prev = spec_effect_warnings(path, summaries, scopes, checks.drop_last()).0;
        let now = spec_effect_warnings(path, summaries, scopes, checks).0;
        assert forall|i: int| 0 <= i < now.len() implies (#[trigger] now[i]).code == "TPY4026"@ by {
            if i < prev.len() {
                assert(now[i] == prev[i]);
            }
        }
    }
}

/// The effect and taint pass reports nothing unless the module is strict TypePython source with
/// a check enabled; and, where no caller or callee name has a backtick, no two of its
/// uncovered-effect warnings share a line and a message.
pub proof fn law_effect_pass_reports_once(
    config: EffectCheckConfig,
    path: Seq<char>,
    sites: ModuleSites,
    callables: Option<Seq<DecoratedCallable>>,
    providers: Seq<FrameworkProvider>,
    imported_taint: Seq<(Option<String>, String, crate::taint::TaintFacts)>,
    summaries: Seq<EffectSummary>,
    scopes: Seq<CapabilityScope>,
)
    ensures
        ({
            let out = spec_effect_capability_diagnostics(
                config,
                path,
                sites,
                callables,
                providers,
                imported_taint,
                summaries,
                scopes,
            );
            &&& (!config.strict || config.module_kind != SourceKind::TypePython || (!config.effect_rows_enabled
                && !config.taint_enabled)) ==> out.len() == 0
            &&& plain_names(summaries, spec_all_checks(sites)) ==> forall|i: int, j: int|
                0 <= i < j < out.len() && out[i].code == "TPY4026"@ && out[j].code == "TPY4026"@ ==> !(
                #[trigger] out[i].span == #[trigger] out[j].span && out[i].message == out[j].message)
        }),
{
    reveal_strlit("TPY4026");
    reveal_strlit("TPY4028");
    assert("TPY4026"@ != "TPY4028"@) by {
        assert("TPY4026"@[6] != "TPY4028"@[6]);
    }
    let out = spec_effect_capability_diagnostics(config, path, sites, callables, providers, imported_taint, summaries, scopes);
    if !(!config.strict || config.module_kind != SourceKind::TypePython || (!config.effect_rows_enabled
        && !config.taint_enabled)) && plain_names(summaries, spec_all_checks(sites)) {
        let checks = spec_all_checks(sites);
        let t = if config.taint_enabled {
            spec_taint_source_sink(
                path,
                callables,
                providers,
                imported_taint,
                sites.assignments@,
                sites.returns@,
                sites.calls@,
                sites.method_calls@,
            )
        } else {
            Seq::empty()
        };
        let w = if config.effect_rows_enabled {
            spec_effect_warnings(path, summaries, scopes, checks).0
        } else {
            Seq::empty()
        };
        assert(out == t + w);
        if config.taint_enabled {
            if let Some(cs) = callables {
                lemma_taint_codes(
                    path,
                    crate::taint_check::spec_merge_imported(
                        crate::taint_check::spec_local_decorations(crate::taint_check::spec_adapter_taint(providers), cs),
                        imported_taint,
                    ),
                    |o: Option<Seq<char>>| crate::owners::spec_range_after(crate::taint_check::spec_range_items(sites.assignments@, sites.returns@), o),
                    crate::taint_check::spec_markers(sites.assignments@, sites.returns@),
                    sites.assignments@,
                    sites.calls@,
                    sites.method_calls@,
                    crate::taint_check::spec_taint_items(sites.assignments@, sites.calls@, sites.method_calls@),
                );
            }
        }
        assert forall|i: int| 0 <= i < t.len() implies (#[trigger] t[i]).code == "TPY4028"@ by {}
        lemma_warning_codes(path, summaries, scopes, checks);
        law_warnings_once_per_line_and_message(path, summaries, scopes, checks);
        assert forall|i: int, j: int|
            0 <= i < j < out.len() && out[i].code == "TPY4026"@ && out[j].code == "TPY4026"@ implies !(
            #[trigger] out[i].span == #[trigger] out[j].span && out[i].message == out[j].message) by {
            if i < t.len() {
                assert(out[i] == t[i]);
            } else {
                assert(out[i] == w[i - t.len()]);
                assert(out[j] == w[j - t.len()]);
                assert(config.effect_rows_enabled);
            }
        }
    }
}

} // verus!
