//! The effect and taint checks of a module: which calls are checked against their callers'
//! effect rows and the module's capability scopes, the summaries that are visible to the
//! module, and the diagnostics of a strict TypePython module.
use vstd::prelude::*;
use crate::call_edges::{edge_views, spec_module_edges, effect_call_edges};
use crate::diagnostics::{Diagnostic, DiagnosticView, SourceKind};
use crate::declarations::diag_views;
use crate::effect_diagnostics::{CheckView, EffectCheck, check_view, check_views, spec_effect_warnings, effect_call_warnings};
use crate::effect_summary::{CapabilityScope, EffectSummary, SummaryEffectFact, opt_view, clone_opt};
use crate::inference::{EdgeView, EffectCallCallee, EffectCallEdge};
use crate::sites::{AssignmentSite, ReturnSite, DirectCallContextSite, MethodCallSite, ModuleSites};
use crate::taint_check::{DecoratedCallable, FrameworkProvider, spec_taint_source_sink, taint_source_sink_diagnostics};
use crate::effect_collect::{
    spec_adapter_table, spec_kept_callables, summaries_of_kept, spec_stdlib_summaries, summary_views,
    adapter_effect_rows, collect_local_effect_summaries, collect_stdlib_effect_summaries,
    fact_views, spec_selected_facts, spec_sort_facts, summary_effect_facts,
};
use crate::inference::{keys_sorted, all_wf, summaries_map, spec_infer, views, collect_inferred_effect_summaries};
use crate::signatures::SemanticImportTargetRef;

verus! {

/// The checks of a statement's value: its call of a function, then its call of a method when
/// both the receiver type and the method are known.
pub open spec fn spec_value_checks(
    owner: Seq<char>,
    owner_type_name: Option<Seq<char>>,
    callee: Option<String>,
    method_owner: Option<String>,
    method_name: Option<String>,
    line: int,
) -> Seq<CheckView> {
    (match callee {
        Some(c) => seq![CheckView { owner, owner_type_name, callee: (None, c@), line }],
        None => Seq::empty(),
    }) + (match (method_owner, method_name) {
        (Some(o), Some(m)) => seq![CheckView { owner, owner_type_name, callee: (Some(o@), m@), line }],
        _ => Seq::empty(),
    })
}

/// The checks of assignments inside functions.
pub open spec fn spec_assignment_checks(s: Seq<AssignmentSite>) -> Seq<CheckView>
    decreases s.len(),
{
    if s.len() == 0 {
        Seq::empty()
    } else {
        let a = s.last();
        spec_assignment_checks(s.drop_last()) + match a.owner_name {
            Some(o) => spec_value_checks(
                o@,
                opt_view(a.owner_type_name),
                a.value_callee,
                a.value_method_owner_name,
                a.value_method_name,
                a.line as int,
            ),
            None => Seq::empty(),
        }
    }
}

/// The checks of returned values.
pub open spec fn spec_return_checks(s: Seq<ReturnSite>) -> Seq<CheckView>
    decreases s.len(),
{
    if s.len() == 0 {
        Seq::empty()
    } else {
        let r = s.last();
        spec_return_checks(s.drop_last()) + spec_value_checks(
            r.owner_name@,
            opt_view(r.owner_type_name),
            r.value_callee,
            r.value_method_owner_name,
            r.value_method_name,
            r.line as int,
        )
    }
}

/// The checks of direct calls inside functions.
pub open spec fn spec_context_checks(s: Seq<DirectCallContextSite>) -> Seq<CheckView>
    decreases s.len(),
{
    if s.len() == 0 {
        Seq::empty()
    } else {
        let c = s.last();
        spec_context_checks(s.drop_last()) + match c.owner_name {
            Some(o) => seq![
                CheckView {
                    owner: o@,
                    owner_type_name: opt_view(c.owner_type_name),
                    callee: (None, c.callee@),
                    line: c.line as int,
                },
            ],
            None => Seq::empty(),
        }
    }
}

/// The checks of method calls inside functions.
pub open spec fn spec_method_call_checks(s: Seq<MethodCallSite>) -> Seq<CheckView>
    decreases s.len(),
{
    if s.len() == 0 {
        Seq::empty()
    } else {
        let c = s.last();
        spec_method_call_checks(s.drop_last()) + match c.current_owner_name {
            Some(o) => seq![
                CheckView {
                    owner: o@,
                    owner_type_name: opt_view(c.current_owner_type_name),
                    callee: (Some(c.owner_name@), c.method@),
                    line: c.line as int,
                },
            ],
            None => Seq::empty(),
        }
    }
}

/// The check of a call edge.
pub open spec fn edge_check(e: EdgeView) -> CheckView {
    CheckView { owner: e.owner_key.1, owner_type_name: e.owner_key.0, callee: e.callee_key, line: e.line }
}

/// All checks of a module, in order: assignments, returns, direct calls, method calls, then
/// every call edge.
pub open spec fn spec_all_checks(sites: ModuleSites) -> Seq<CheckView> {
    spec_assignment_checks(sites.assignments@) + spec_return_checks(sites.returns@)
        + spec_context_checks(sites.call_context_sites@) + spec_method_call_checks(sites.method_calls@)
        + spec_module_edges(sites).map_values(|e: EdgeView| edge_check(e))
}

fn push_check(
    checks: &mut Vec<EffectCheck>,
    owner: &str,
    owner_type_name: &Option<String>,
    callee: EffectCallCallee,
    line: usize,
)
    ensures
        check_views(final(checks)@) == check_views(old(checks)@).push(
            CheckView {
                owner: owner@,
                owner_type_name: opt_view(*owner_type_name),
                callee: crate::effect_diagnostics::callee_key(callee),
                line: line as int,
            },
        ),
{
    let ghost before = check_views(checks@);
    let c = EffectCheck {
        owner: owner.to_owned(),
        owner_type_name: clone_opt(owner_type_name),
        callee,
        line,
    };
    checks.push(c);
    assert(check_views(checks@) =~= before.push(check_view(c)));
}

fn push_value_checks(
    checks: &mut Vec<EffectCheck>,
    owner: &str,
    owner_type_name: &Option<String>,
    callee: &Option<String>,
    method_owner: &Option<String>,
    method_name: &Option<String>,
    line: usize,
)
    ensures
        check_views(final(checks)@) == check_views(old(checks)@) + spec_value_checks(
            owner@,
            opt_view(*owner_type_name),
            *callee,
            *method_owner,
            *method_name,
            line as int,
        ),
{
    let ghost start = check_views(checks@);
    match callee {
        Some(c) => push_check(checks, owner, owner_type_name, EffectCallCallee::Function(c.clone()), line),
        None => {},
    }
    let ghost mid = check_views(checks@);
    match (method_owner, method_name) {
        (Some(o), Some(m)) => push_check(
            checks,
            owner,
            owner_type_name,
            EffectCallCallee::Method { owner_type_name: o.clone(), method_name: m.clone() },
            line,
        ),
        _ => {},
    }
    assert(check_views(checks@) =~= start + spec_value_checks(
        owner@,
        opt_view(*owner_type_name),
        *callee,
        *method_owner,
        *method_name,
        line as int,
    ));
}

/// The checks of a module: each call a function or method makes, from its statements and its
/// call edges, with the caller it is checked against.
pub fn effect_checks(sites: &ModuleSites, edges: &Vec<EffectCallEdge>) -> (res: Vec<EffectCheck>)
    ensures
        check_views(res@) == spec_assignment_checks(sites.assignments@) + spec_return_checks(
            sites.returns@,
        ) + spec_context_checks(sites.call_context_sites@) + spec_method_call_checks(
            sites.method_calls@,
        ) + edge_views(edges@).map_values(|e: EdgeView| edge_check(e)),
{
    let mut checks: Vec<EffectCheck> = Vec::new();
    let mut i: usize = 0;
    assert(sites.assignments@.take(0) =~= Seq::<AssignmentSite>::empty());
    assert(check_views(checks@) =~= Seq::<CheckView>::empty());
    while i < sites.assignments.len()
        invariant
            i <= sites.assignments@.len(),
            check_views(checks@) == spec_assignment_checks(sites.assignments@.take(i as int)),
        decreases sites.assignments@.len() - i,
    {
        let a = &sites.assignments[i];
        assert(sites.assignments@.take(i + 1).drop_last() =~= sites.assignments@.take(i as int));
        assert(sites.assignments@.take(i + 1).last() == *a);
        let ghost before = check_views(checks@);
        match &a.owner_name {
            Some(o) => push_value_checks(
                &mut checks,
                o,
                &a.owner_type_name,
                &a.value_callee,
                &a.value_method_owner_name,
                &a.value_method_name,
                a.line,
            ),
            None => {
                assert(before + Seq::<CheckView>::empty() =~= before);
            },
        }
        i = i + 1;
    }
    assert(sites.assignments@.take(i as int) =~= sites.assignments@);
    let ghost c1 = check_views(checks@);
    let mut i: usize = 0;
    assert(sites.returns@.take(0) =~= Seq::<ReturnSite>::empty());
    assert(c1 + Seq::<CheckView>::empty() =~= c1);
    while i < sites.returns.len()
        invariant
            i <= sites.returns@.len(),
            check_views(checks@) == c1 + spec_return_checks(sites.returns@.take(i as int)),
        decreases sites.returns@.len() - i,
    {
        let r = &sites.returns[i];
        assert(sites.returns@.take(i + 1).drop_last() =~= sites.returns@.take(i as int));
        assert(sites.returns@.take(i + 1).last() == *r);
        let ghost before = check_views(checks@);
        push_value_checks(
            &mut checks,
            &r.owner_name,
            &r.owner_type_name,
            &r.value_callee,
            &r.value_method_owner_name,
            &r.value_method_name,
            r.line,
        );
        assert(check_views(checks@) =~= c1 + spec_return_checks(sites.returns@.take(i + 1)));
        i = i + 1;
    }
    assert(sites.returns@.take(i as int) =~= sites.returns@);
    let ghost c2 = check_views(checks@);
    let mut i: usize = 0;
    assert(sites.call_context_sites@.take(0) =~= Seq::<DirectCallContextSite>::empty());
    assert(c2 + Seq::<CheckView>::empty() =~= c2);
    while i < sites.call_context_sites.len()
        invariant
            i <= sites.call_context_sites@.len(),
            check_views(checks@) == c2 + spec_context_checks(sites.call_context_sites@.take(i as int)),
        decreases sites.call_context_sites@.len() - i,
    {
        let c = &sites.call_context_sites[i];
        assert(sites.call_context_sites@.take(i + 1).drop_last() =~= sites.call_context_sites@.take(i as int));
        assert(sites.call_context_sites@.take(i + 1).last() == *c);
        match &c.owner_name {
            Some(o) => push_check(&mut checks, o, &c.owner_type_name, EffectCallCallee::Function(c.callee.clone()), c.line),
            None => {},
        }
        assert(check_views(checks@) =~= c2 + spec_context_checks(sites.call_context_sites@.take(i + 1)));
        i = i + 1;
    }
    assert(sites.call_context_sites@.take(i as int) =~= sites.call_context_sites@);
    let ghost c3 = check_views(checks@);
    let mut i: usize = 0;
    assert(sites.method_calls@.take(0) =~= Seq::<MethodCallSite>::empty());
    assert(c3 + Seq::<CheckView>::empty() =~= c3);
    while i < sites.method_calls.len()
        invariant
            i <= sites.method_calls@.len(),
            check_views(checks@) == c3 + spec_method_call_checks(sites.method_calls@.take(i as int)),
        decreases sites.method_calls@.len() - i,
    {
        let c = &sites.method_calls[i];
        assert(sites.method_calls@.take(i + 1).drop_last() =~= sites.method_calls@.take(i as int));
        assert(sites.method_calls@.take(i + 1).last() == *c);
        match &c.current_owner_name {
            Some(o) => push_check(
                &mut checks,
                o,
                &c.current_owner_type_name,
                EffectCallCallee::Method { owner_type_name: c.owner_name.clone(), method_name: c.method.clone() },
                c.line,
            ),
            None => {},
        }
        assert(check_views(checks@) =~= c3 + spec_method_call_checks(sites.method_calls@.take(i + 1)));
        i = i + 1;
    }
    assert(sites.method_calls@.take(i as int) =~= sites.method_calls@);
    let ghost c4 = check_views(checks@);
    let ghost ev = edge_views(edges@);
    let mut i: usize = 0;
    assert(c4 + ev.take(0).map_values(|e: EdgeView| edge_check(e)) =~= c4);
    while i < edges.len()
        invariant
            i <= edges@.len(),
            ev == edge_views(edges@),
            check_views(checks@) == c4 + ev.take(i as int).map_values(|e: EdgeView| edge_check(e)),
        decreases edges@.len() - i,
    {
        let e = &edges[i];
        let ghost before = check_views(checks@);
        let callee = match &e.callee {
            EffectCallCallee::Function(n) => EffectCallCallee::Function(n.clone()),
            EffectCallCallee::Method { owner_type_name, method_name } => EffectCallCallee::Method {
                owner_type_name: owner_type_name.clone(),
                method_name: method_name.clone(),
            },
        };
        push_check(&mut checks, &e.owner_name, &e.owner_type_name, callee, e.line);
        assert(ev[i as int] == e.spec_view());
        assert(ev.take(i + 1).map_values(|x: EdgeView| edge_check(x)) =~= ev.take(i as int).map_values(
            |x: EdgeView| edge_check(x),
        ).push(edge_check(ev[i as int])));
        assert(check_views(checks@) =~= c4 + ev.take(i + 1).map_values(|x: EdgeView| edge_check(x)));
        i = i + 1;
    }
    assert(ev.take(i as int) =~= ev);
    checks
}

/// Which checks run on a module: only strict TypePython modules are checked, effect rows and
/// taint each when enabled.
#[derive(Debug, Clone, Copy)]
pub struct EffectCheckConfig {
    pub strict: bool,
    pub module_kind: SourceKind,
    pub effect_rows_enabled: bool,
    pub taint_enabled: bool,
}

/// The effect and taint diagnostics of a module: nothing unless the module is strict TypePython
/// source and some check is enabled; then the taint diagnostics when taint is checked, followed
/// by the uncovered-effect warnings when effect rows are checked.
pub open spec fn spec_effect_capability_diagnostics(
    config: EffectCheckConfig,
    source_path: Seq<char>,
    sites: ModuleSites,
    callables: Option<Seq<DecoratedCallable>>,
    providers: Seq<FrameworkProvider>,
    imported_taint: Seq<(Option<String>, String, crate::taint::TaintFacts)>,
    summaries: Seq<EffectSummary>,
    scopes: Seq<CapabilityScope>,
) -> Seq<DiagnosticView> {
    if !config.strict || config.module_kind != SourceKind::TypePython || (!config.effect_rows_enabled
        && !config.taint_enabled) {
        Seq::empty()
    } else {
        (if config.taint_enabled {
            spec_taint_source_sink(
                source_path,
                callables,
                providers,
                imported_taint,
                sites.assignments@,
                sites.returns@,
                sites.calls@,
                sites.method_calls@,
            )
        } else {
            Seq::empty()
        }) + (if config.effect_rows_enabled {
            spec_effect_warnings(source_path, summaries, scopes, spec_all_checks(sites)).0
        } else {
            Seq::empty()
        })
    }
}

/// The effect and taint diagnostics of a module at `source_path`, given its statements, the
/// decorated callables and framework providers loaded for it, the taint facts it imports, the
/// effect summaries visible to it and its capability scopes.
pub fn effect_capability_diagnostics(
    config: &EffectCheckConfig,
    source_path: &str,
    sites: &ModuleSites,
    callables: Option<&Vec<DecoratedCallable>>,
    providers: &Vec<FrameworkProvider>,
    imported_taint: &Vec<(Option<String>, String, crate::taint::TaintFacts)>,
    summaries: &Vec<EffectSummary>,
    scopes: &Vec<CapabilityScope>,
) -> (res: Vec<Diagnostic>)
    ensures
        diag_views(res@) == spec_effect_capability_diagnostics(
            *config,
            source_path@,
            *sites,
            match callables {
                Some(cs) => Some(cs@),
                None => None,
            },
            providers@,
            imported_taint@,
            summaries@,
            scopes@,
        ),
{
    if !config.strict || config.module_kind != SourceKind::TypePython {
        let r: Vec<Diagnostic> = Vec::new();
        assert(diag_views(r@) =~= Seq::<DiagnosticView>::empty());
        return r;
    }
    if !config.effect_rows_enabled && !config.taint_enabled {
        let r: Vec<Diagnostic> = Vec::new();
        assert(diag_views(r@) =~= Seq::<DiagnosticView>::empty());
        return r;
    }
    let mut diagnostics = if config.taint_enabled {
        taint_source_sink_diagnostics(
            source_path,
            callables,
            providers,
            imported_taint,
            &sites.assignments,
            &sites.returns,
            &sites.calls,
            &sites.method_calls,
        )
    } else {
        Vec::new()
    };
    let ghost first = diag_views(diagnostics@);
    assert(first == if config.taint_enabled {
        spec_taint_source_sink(
            source_path@,
            match callables {
                Some(cs) => Some(cs@),
                None => None,
            },
            providers@,
            imported_taint@,
            sites.assignments@,
            sites.returns@,
            sites.calls@,
            sites.method_calls@,
        )
    } else {
        Seq::<DiagnosticView>::empty()
    }) by {
        if !config.taint_enabled {
            assert(first =~= Seq::<DiagnosticView>::empty());
        }
    }
    if !config.effect_rows_enabled {
        assert(first + Seq::<DiagnosticView>::empty() =~= first);
        return diagnostics;
    }
    let edges = effect_call_edges(sites);
    let checks = effect_checks(sites, &edges);
    assert(check_views(checks@) == spec_all_checks(*sites));
    let mut warnings = effect_call_warnings(source_path, summaries.as_slice(), scopes.as_slice(), checks.as_slice());
    let ghost second = diag_views(warnings@);
    assert(second == spec_effect_warnings(source_path@, summaries@, scopes@, spec_all_checks(*sites)).0);
    diagnostics.append(&mut warnings);
    assert(diag_views(diagnostics@) =~= first + second);
    diagnostics
}

/// How many summaries a module's own callables get.
pub open spec fn spec_local_count(callables: Option<Seq<DecoratedCallable>>, providers: Seq<FrameworkProvider>) -> int {
    match callables {
        Some(cs) => spec_kept_callables(spec_adapter_table(providers), cs).len() as int,
        None => 0,
    }
}

/// The summaries visible to a module, in four parts: those of its own decorated callables,
/// those it imports, those of the standard-library functions and modules it imports, and those
/// inferred along its call edges from the first three.
pub fn visible_effect_summaries(
    callables: Option<&Vec<DecoratedCallable>>,
    providers: &Vec<FrameworkProvider>,
    imported: Vec<EffectSummary>,
    stdlib_imports: &Vec<(String, SemanticImportTargetRef)>,
    sites: &ModuleSites,
) -> (res: Vec<EffectSummary>)
    requires
        all_wf(imported@),
    ensures
        ({
            let l = spec_local_count(
                match callables {
                    Some(cs) => Some(cs@),
                    None => None,
                },
                providers@,
            );
            let i = imported@.len() as int;
            let s = spec_stdlib_summaries(stdlib_imports@).len() as int;
            &&& l + i + s <= res@.len()
            &&& match callables {
                Some(cs) => summaries_of_kept(
                    spec_adapter_table(providers@),
                    cs@,
                    spec_kept_callables(spec_adapter_table(providers@), cs@),
                    res@.take(l),
                    cs@.len() as int,
                ),
                None => true,
            }
            &&& res@.subrange(l, l + i) == imported@
            &&& summary_views(res@.subrange(l + i, l + i + s)) == spec_stdlib_summaries(stdlib_imports@)
            &&& all_wf(res@)
            &&& keys_sorted(res@.skip(l + i + s))
            &&& summaries_map(res@.skip(l + i + s)) == spec_infer(
                views(res@.take(l + i + s)),
                spec_module_edges(*sites),
                Map::empty(),
                8,
            )
        }),
{
    let mut summaries: Vec<EffectSummary> = match callables {
        Some(cs) => {
            let adapter = adapter_effect_rows(providers);
            collect_local_effect_summaries(cs, &adapter)
        },
        None => Vec::new(),
    };
    let ghost l = summaries@.len() as int;
    let ghost local = summaries@;
    assert(all_wf(local)) by {
        match callables {
            Some(cs) => {
                assert forall|j: int| 0 <= j < local.len() implies #[trigger] local[j].row.wf() by {
                    assert(crate::effect_collect::summary_of_callable(
                        local[j],
                        cs@[spec_kept_callables(spec_adapter_table(providers@), cs@)[j]],
                        crate::effect_collect::spec_local_state(
                            spec_adapter_table(providers@),
                            cs@[spec_kept_callables(spec_adapter_table(providers@), cs@)[j]].decorators@,
                        ),
                    ));
                }
            },
            None => {},
        }
    }
    let mut imported = imported;
    let ghost imp = imported@;
    summaries.append(&mut imported);
    let mut stdlib = collect_stdlib_effect_summaries(stdlib_imports);
    let ghost std = stdlib@;
    summaries.append(&mut stdlib);
    let ghost seeds = summaries@;
    assert(seeds =~= local + imp + std);
    assert(all_wf(seeds)) by {
        assert forall|j: int| 0 <= j < seeds.len() implies #[trigger] seeds[j].row.wf() by {
            if j < l {
                assert(seeds[j] == local[j]);
            } else if j < l + imp.len() {
                assert(seeds[j] == imp[j - l]);
            } else {
                assert(seeds[j] == std[j - l - imp.len()]);
            }
        }
    }
    let edges = effect_call_edges(sites);
    let mut inferred = collect_inferred_effect_summaries(edges.as_slice(), summaries.as_slice());
    let ghost inf = inferred@;
    summaries.append(&mut inferred);
    let ghost all = summaries@;
    assert(all =~= seeds + inf);
    proof {
        assert(all.take(l) =~= local);
        assert(all.subrange(l, l + imp.len()) =~= imp);
        assert(all.subrange(l + imp.len(), l + imp.len() + std.len()) =~= std);
        assert(all.skip(l + imp.len() + std.len()) =~= inf);
        assert(all.take(l + imp.len() + std.len()) =~= seeds);
        assert(edge_views(edges@) == spec_module_edges(*sites));
        assert(summary_views(std) == spec_stdlib_summaries(stdlib_imports@));
        assert(all_wf(all)) by {
            assert forall|j: int| 0 <= j < all.len() implies #[trigger] all[j].row.wf() by {
                if j < seeds.len() {
                    assert(all[j] == seeds[j]);
                } else {
                    assert(all[j] == inf[j - seeds.len()]);
                }
            }
        }
    }
    summaries
}

/// The summaries whose facts a module stores: those of its own decorated callables, then those
/// inferred along its call edges from them and from its standard-library imports.
pub open spec fn stored_summaries(
    local: Seq<EffectSummary>,
    inferred: Seq<EffectSummary>,
    callables: Seq<DecoratedCallable>,
    providers: Seq<FrameworkProvider>,
    stdlib_imports: Seq<(String, SemanticImportTargetRef)>,
    sites: ModuleSites,
) -> bool {
    &&& summaries_of_kept(
        spec_adapter_table(providers),
        callables,
        spec_kept_callables(spec_adapter_table(providers), callables),
        local,
        callables.len() as int,
    )
    &&& all_wf(local)
    &&& keys_sorted(inferred)
    &&& summaries_map(inferred) == spec_infer(
        views(local) + spec_stdlib_summaries(stdlib_imports),
        spec_module_edges(sites),
        Map::empty(),
        8,
    )
}

/// The effect summary facts a module stores for its importers: none when neither effect rows
/// nor taint are checked; else the facts of its own summaries and of those inferred from them,
/// filtered to the checked labels and sorted.
pub fn collect_effect_summary_facts(
    effect_rows: bool,
    taint: bool,
    callables: &Vec<DecoratedCallable>,
    providers: &Vec<FrameworkProvider>,
    stdlib_imports: &Vec<(String, SemanticImportTargetRef)>,
    sites: &ModuleSites,
) -> (res: Vec<SummaryEffectFact>)
    ensures
        !effect_rows && !taint ==> res@.len() == 0,
        effect_rows || taint ==> exists|local: Seq<EffectSummary>, inferred: Seq<EffectSummary>|
            stored_summaries(local, inferred, callables@, providers@, stdlib_imports@, *sites) && fact_views(res@)
                == spec_sort_facts(spec_selected_facts(local + inferred, effect_rows, taint)),
{
    if !effect_rows && !taint {
        return Vec::new();
    }
    let adapter = adapter_effect_rows(providers);
    let local = collect_local_effect_summaries(callables, &adapter);
    let ghost lv = local@;
    assert(all_wf(lv)) by {
        assert forall|j: int| 0 <= j < lv.len() implies #[trigger] lv[j].row.wf() by {
            assert(crate::effect_collect::summary_of_callable(
                lv[j],
                callables@[spec_kept_callables(spec_adapter_table(providers@), callables@)[j]],
                crate::effect_collect::spec_local_state(
                    spec_adapter_table(providers@),
                    callables@[spec_kept_callables(spec_adapter_table(providers@), callables@)[j]].decorators@,
                ),
            ));
        }
    }
    let mut seeds: Vec<EffectSummary> = Vec::new();
    let mut k: usize = 0;
    while k < local.len()
        invariant
            k <= local@.len(),
            lv == local@,
            seeds@.len() == k,
            all_wf(lv),
            forall|j: int| 0 <= j < k ==> crate::inference::summary_view(#[trigger] seeds@[j])
                == crate::inference::summary_view(lv[j]) && seeds@[j].row@ == lv[j].row@,
        decreases local@.len() - k,
    {
        seeds.push(local[k].duplicate());
        k = k + 1;
    }
    let ghost lcopy = seeds@;
    let mut stdlib = collect_stdlib_effect_summaries(stdlib_imports);
    let ghost std = stdlib@;
    seeds.append(&mut stdlib);
    assert(seeds@ =~= lcopy + std);
    assert(views(seeds@) =~= views(lv) + summary_views(std)) by {
        assert forall|j: int| 0 <= j < seeds@.len() implies #[trigger] views(seeds@)[j] == (views(lv) + summary_views(
            std,
        ))[j] by {
            if j < lv.len() {
                assert(seeds@[j] == lcopy[j]);
            } else {
                assert(seeds@[j] == std[j - lv.len()]);
            }
        }
    }
    assert(all_wf(seeds@)) by {
        assert forall|j: int| 0 <= j < seeds@.len() implies #[trigger] seeds@[j].row.wf() by {
            if j < lv.len() {
                assert(seeds@[j] == lcopy[j]);
                assert(lv[j].row.wf());
            } else {
                assert(seeds@[j] == std[j - lv.len()]);
            }
        }
    }
    let edges = effect_call_edges(sites);
    let mut inferred = collect_inferred_effect_summaries(edges.as_slice(), seeds.as_slice());
    let ghost inf = inferred@;
    let mut summaries = local;
    summaries.append(&mut inferred);
    assert(summaries@ =~= lv + inf);
    let res = summary_effect_facts(&summaries, effect_rows, taint);
    proof {
        assert(edge_views(edges@) == spec_module_edges(*sites));
        assert(stored_summaries(lv, inf, callables@, providers@, stdlib_imports@, *sites));
    }
    res
}

} // verus!
