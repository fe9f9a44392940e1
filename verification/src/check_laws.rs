//! Laws that say what single checks are for: which lines a capability scope covers, what an
//! assignment does to the taint of its target, which bases an `@override` may name, and which
//! effect a named effect decorator declares.
use vstd::prelude::*;
use crate::class_checks::{base_declares_member, owner_class, spec_override_message};
use crate::decorators::spec_effect_kind_from_decorator;
use crate::effect_row::{SpecEffectKind, spec_label};
use crate::effect_summary::{CapabilityScope, EffectSummary, SummaryKey, opt_view, spec_capability_scopes_allow, spec_caller_effect_row_allows};
use crate::hierarchy::{ModuleDeclarations, first_index};
use crate::declarations::Declaration;
use crate::ordering::LineItem;
use crate::inference::{EdgeView, SummaryView, declared_keys, spec_edge_step, spec_infer, spec_resolve_callee, spec_round};
use crate::sites::{AssignmentSite, CallSite, MethodCallSite};
use crate::taint_check::{TaintState, spec_assign_locals, spec_taint_step, line_contexts};
use crate::taint_flow::{DecorationsView, LocalsView};

verus! {

/// A capability scope covers a call only on a line it spans. Whenever the scopes allow a row
/// on a line, the row is not empty and some scope starts at or before the line, ends at or
/// after it, and grants the whole row; a scope that starts after the line or ends before it
/// allows nothing there on its own; and the scopes together allow exactly what one of them
/// allows on its own.
pub proof fn law_capability_scope_spans_the_call(scopes: Seq<CapabilityScope>, line: int, row: Seq<SpecEffectKind>)
    ensures
        spec_capability_scopes_allow(scopes, line, row) ==> row.len() > 0 && exists|i: int|
            0 <= i < scopes.len() && (#[trigger] scopes[i]).line_start <= line && line <= scopes[i].line_end
                && row.to_set().subset_of(scopes[i].grants@.to_set()),
        forall|s: CapabilityScope|
            (line < s.line_start || line > s.line_end) ==> !#[trigger] spec_capability_scopes_allow(seq![s], line, row),
        spec_capability_scopes_allow(scopes, line, row) <==> exists|i: int|
            0 <= i < scopes.len() && #[trigger] spec_capability_scopes_allow(seq![scopes[i]], line, row),
{
    assert forall|s: CapabilityScope|
        (line < s.line_start || line > s.line_end) implies !#[trigger] spec_capability_scopes_allow(seq![s], line, row) by {
        if spec_capability_scopes_allow(seq![s], line, row) {
            let i = choose|i: int|
                0 <= i < seq![s].len() && seq![s][i].line_start <= line <= seq![s][i].line_end
                    && row.to_set().subset_of(#[trigger] seq![s][i].grants@.to_set());
            assert(i == 0);
        }
    }
    if spec_capability_scopes_allow(scopes, line, row) {
        let i = choose|i: int|
            0 <= i < scopes.len() && scopes[i].line_start <= line <= scopes[i].line_end
                && row.to_set().subset_of(#[trigger] scopes[i].grants@.to_set());
        assert(seq![scopes[i]][0] == scopes[i]);
        assert(spec_capability_scopes_allow(seq![scopes[i]], line, row));
    }
    if exists|i: int| 0 <= i < scopes.len() && #[trigger] spec_capability_scopes_allow(seq![scopes[i]], line, row) {
        let i = choose|i: int| 0 <= i < scopes.len() && #[trigger] spec_capability_scopes_allow(seq![scopes[i]], line, row);
        let j = choose|j: int|
            0 <= j < seq![scopes[i]].len() && seq![scopes[i]][j].line_start <= line <= seq![scopes[i]][j].line_end
                && row.to_set().subset_of(#[trigger] seq![scopes[i]][j].grants@.to_set());
        assert(j == 0);
        assert(row.to_set().subset_of(scopes[i].grants@.to_set()));
    }
}

/// A caller's own row allows a callee's effects only when the caller has a summary, is not
/// pure, and every effect the callee needs is in the caller's row: one effect missing from the
/// row is enough to forbid the call.
pub proof fn law_caller_row_must_hold_every_effect(caller: Option<EffectSummary>, required: Seq<SpecEffectKind>)
    ensures
        spec_caller_effect_row_allows(caller, required) ==> (caller matches Some(c) && !c.pure && forall|i: int|
            0 <= i < required.len() ==> c.row@.contains(#[trigger] required[i])),
        (caller matches Some(c) && exists|i: int| 0 <= i < required.len() && !c.row@.contains(#[trigger] required[i]))
            ==> !spec_caller_effect_row_allows(caller, required),
{
    if let Some(c) = caller {
        if spec_caller_effect_row_allows(caller, required) {
            assert forall|i: int| 0 <= i < required.len() implies c.row@.contains(#[trigger] required[i]) by {
                assert(required.to_set().contains(required[i]));
                assert(c.row@.to_set().contains(required[i]));
            }
        }
        if exists|i: int| 0 <= i < required.len() && !c.row@.contains(#[trigger] required[i]) {
            let i = choose|i: int| 0 <= i < required.len() && !c.row@.contains(#[trigger] required[i]);
            assert(required.to_set().contains(required[i]));
            assert(!c.row@.to_set().contains(required[i]));
        }
    }
}

/// What an assignment does to the taint of its target, whatever else is tainted: a value that
/// carries no taint, assigned with no sanitizer, leaves the target untainted; a tainted value
/// with no sanitizer gives the target exactly the value's contexts; a sanitizer for every
/// context untaints it; a sanitizer never leaves a context it covers on the target, nor adds
/// one; and every other local keeps its taint.
pub proof fn law_assignment_sets_only_its_target(
    locals: LocalsView,
    key: SummaryKey,
    tainted: Set<Option<Seq<char>>>,
    sanitized: Set<Option<Seq<char>>>,
)
    ensures
        ({
            let after = spec_assign_locals(locals, key, tainted, sanitized);
            &&& (sanitized.is_empty() && tainted.is_empty()) ==> !after.contains_key(key)
            &&& (sanitized.is_empty() && !tainted.is_empty()) ==> after.contains_key(key) && after[key] == tainted
            &&& sanitized.contains(None) ==> !after.contains_key(key)
            &&& (!sanitized.is_empty() && after.contains_key(key)) ==> locals.contains_key(key) && after[key].subset_of(
                locals[key],
            ) && after[key].disjoint(sanitized) && !after[key].is_empty()
            &&& (!sanitized.is_empty() && !sanitized.contains(None) && locals.contains_key(key)) ==> (after.contains_key(
                key,
            ) <==> !locals[key].difference(sanitized).is_empty()) && (after.contains_key(key) ==> after[key]
                == locals[key].difference(sanitized))
            &&& forall|k: SummaryKey|
                k != key ==> (#[trigger] after.contains_key(k) <==> locals.contains_key(k)) && (after.contains_key(k)
                    ==> after[k] == locals[k])
        }),
{
    let after = spec_assign_locals(locals, key, tainted, sanitized);
    if !sanitized.is_empty() {
        assert(sanitized != Set::<Option<Seq<char>>>::empty());
    } else {
        assert(sanitized =~= Set::<Option<Seq<char>>>::empty());
        if tainted.is_empty() {
            assert(tainted =~= Set::<Option<Seq<char>>>::empty());
        } else {
            assert(tainted != Set::<Option<Seq<char>>>::empty());
        }
    }
    if !sanitized.is_empty() && !sanitized.contains(None) && locals.contains_key(key) {
        let rest = locals[key].difference(sanitized);
        if rest.is_empty() {
            assert(rest =~= Set::<Option<Seq<char>>>::empty());
        }
        if rest != Set::<Option<Seq<char>>>::empty() {
            assert(after[key] == rest);
            assert(!rest.is_empty()) by {
                if rest.is_empty() {
                    assert(rest =~= Set::<Option<Seq<char>>>::empty());
                }
            }
        }
    }
}

/// An assignment statement changes the taint of its own target only; and a plain assignment
/// (no value expression, no call, no method call, and nothing recorded as a source or a
/// sanitizer on its line) leaves its target untainted. The reports are not changed by an
/// assignment.
pub proof fn law_assignment_step_touches_only_its_target(
    path: Seq<char>,
    dec: DecorationsView,
    range: spec_fn(Option<Seq<char>>) -> Option<(int, int)>,
    markers: Seq<(int, Option<Seq<char>>)>,
    assignments: Seq<AssignmentSite>,
    calls: Seq<CallSite>,
    method_calls: Seq<MethodCallSite>,
    st: TaintState,
    item: LineItem,
)
    requires
        item.2 != 0 && item.2 != 1,
    ensures
        ({
            let a = assignments[item.3 as int];
            let target = (opt_view(a.owner_name), a.name@);
            let after = spec_taint_step(path, dec, range, markers, assignments, calls, method_calls, st, item);
            &&& after.diagnostics == st.diagnostics
            &&& forall|k: SummaryKey|
                k != target ==> (#[trigger] after.locals.contains_key(k) <==> st.locals.contains_key(k)) && (
                after.locals.contains_key(k) ==> after.locals[k] == st.locals[k])
            &&& (a.value is None && a.value_callee is None && a.value_method_name is None && line_contexts(
                st.source_lines,
                (opt_view(a.owner_name), a.line as int),
            ).is_empty() && line_contexts(st.sanitizer_lines, (opt_view(a.owner_name), a.line as int)).is_empty())
                ==> !after.locals.contains_key(target)
            &&& (a.value_callee is None && a.value_method_name is None && line_contexts(
                st.sanitizer_lines,
                (opt_view(a.owner_name), a.line as int),
            ).is_empty() && !line_contexts(st.source_lines, (opt_view(a.owner_name), a.line as int)).is_empty())
                ==> after.locals.contains_key(target) && line_contexts(
                st.source_lines,
                (opt_view(a.owner_name), a.line as int),
            ).subset_of(after.locals[target])
        }),
{
    let a = assignments[item.3 as int];
    let owner = opt_view(a.owner_name);
    let ol = (owner, a.line as int);
    let callee_facts = match a.value_callee {
        Some(c) => crate::taint_flow::facts_of(dec, (None, c@)),
        None => None,
    };
    let method_facts = crate::taint_flow::spec_method_facts(dec, opt_view(a.value_method_owner_name), opt_view(a.value_method_name));
    let tainted = (match a.value {
        Some(v) => crate::taint_flow::spec_arg_contexts(v, dec, st.locals, owner, None),
        None => Set::empty(),
    }).union(crate::taint_check::or_empty(crate::taint_flow::kind_contexts(callee_facts, crate::taint::TaintFactKind::Source))).union(
        crate::taint_check::or_empty(crate::taint_flow::kind_contexts(method_facts, crate::taint::TaintFactKind::Source)),
    ).union(line_contexts(st.source_lines, ol));
    let sanitized = crate::taint_check::or_empty(crate::taint_flow::kind_contexts(callee_facts, crate::taint::TaintFactKind::Sanitizer)).union(
        crate::taint_check::or_empty(crate::taint_flow::kind_contexts(method_facts, crate::taint::TaintFactKind::Sanitizer)),
    ).union(line_contexts(st.sanitizer_lines, ol));
    law_assignment_sets_only_its_target(st.locals, (owner, a.name@), tainted, sanitized);
    if a.value is None && a.value_callee is None && a.value_method_name is None && line_contexts(st.source_lines, ol).is_empty()
        && line_contexts(st.sanitizer_lines, ol).is_empty() {
        assert(tainted.is_empty());
        assert(sanitized.is_empty());
    }
    if a.value_callee is None && a.value_method_name is None && line_contexts(st.sanitizer_lines, ol).is_empty()
        && !line_contexts(st.source_lines, ol).is_empty() {
        assert(sanitized =~= line_contexts(st.sanitizer_lines, ol));
        assert(line_contexts(st.source_lines, ol).subset_of(tainted));
        assert(!tainted.is_empty()) by {
            let c = line_contexts(st.source_lines, ol).choose();
            assert(line_contexts(st.source_lines, ol).contains(c));
        }
    }
}

/// An `@override` member is accepted whenever any direct base of its class, at any place in
/// the class's base list, resolves to a class that declares a member of that name; and a member
/// of a class whose bases (all of them) declare no such member is reported.
pub proof fn law_override_may_name_any_direct_base(
    nodes: Seq<ModuleDeclarations>,
    node: ModuleDeclarations,
    d: Declaration,
    k: int,
)
    requires
        d.owner is Some,
        first_index(node.declarations@, owner_class(d.owner->0.name@, d.owner->0.kind)) == Some(k),
    ensures
        (exists|b: int|
            0 <= b < node.declarations@[k].bases@.len() && #[trigger] base_declares_member(
                nodes,
                node,
                node.declarations@[k].bases@[b]@,
                d.name@,
            )) ==> spec_override_message(nodes, node, d) is None,
        (d.is_override && forall|b: int|
            0 <= b < node.declarations@[k].bases@.len() ==> !#[trigger] base_declares_member(
                nodes,
                node,
                node.declarations@[k].bases@[b]@,
                d.name@,
            )) ==> spec_override_message(nodes, node, d) is Some,
{
}

/// `x` with each `_` read as `.`.
pub open spec fn underscores_as_dots(x: Seq<char>) -> Seq<char> {
    Seq::new(x.len(), |i: int| if x[i] == '_' { '.' } else { x[i] })
}

proof fn lemma_named_case(short: Seq<char>, x: Seq<char>, lit: Seq<char>, rest: Seq<char>, label: Seq<char>)
    requires
        short == "effect_"@ + x,
        short == lit,
        "effect_"@.len() == 7,
        lit.len() == 7 + rest.len(),
        lit.subrange(7, lit.len() as int) == rest,
        underscores_as_dots(rest) == label,
    ensures
        underscores_as_dots(x) == label,
{
    assert(x =~= short.subrange(7, short.len() as int));
    assert(x =~= rest);
}

/// A named effect decorator `effect_<x>` declares the effect whose label is `<x>` with each `_`
/// read as `.` (`effect_io_net` declares `io.net`); this holds for every name without `:` or `.`
/// that declares an effect at all.
pub proof fn law_named_effect_decorator_declares_its_label(x: Seq<char>)
    requires
        forall|i: int| 0 <= i < x.len() ==> #[trigger] x[i] != ':' && x[i] != '.',
    ensures
        spec_effect_kind_from_decorator("effect_"@ + x) matches Some(k) ==> spec_label(k) == underscores_as_dots(x),
{
    let short = "effect_"@ + x;
    reveal_strlit("effect_");
    assert(short.len() == 7 + x.len());
    assert(forall|i: int| 0 <= i < short.len() ==> #[trigger] short[i] != ':') by {
        assert forall|i: int| 0 <= i < short.len() implies #[trigger] short[i] != ':' by {
            if i >= 7 {
                assert(short[i] == x[i - 7]);
            }
        }
    }
    assert(crate::text::first_index_of(short, ':') is None);
    assert(crate::text::split_once(short, ':') is None);
    assert(crate::decorators::spec_effect_label_from_decorator(short) is None);
    assert(crate::text::last_index_of(short, '.') is None) by {
        if exists|i: int| 0 <= i < short.len() && short[i] == '.' {
            let i = choose|i: int| 0 <= i < short.len() && short[i] == '.';
            if i >= 7 {
                assert(short[i] == x[i - 7]);
            }
        }
    }
    assert(crate::text::last_segment(short, '.') == short);
    reveal_strlit("source");
    reveal_strlit("sink");
    reveal_strlit("sanitizer");
    reveal_strlit("effect_taint_sanitize");
    reveal_strlit("effect");
    reveal_strlit("effectful");
    reveal_strlit("trusted_validator");
    assert(short != "source"@ && short != "sink"@ && short != "sanitizer"@) by {
        assert(short[0] == 'e');
    }
    assert(short != "effect"@);
    assert(short != "effectful"@) by {
        assert(short[6] == '_');
    }
    assert(short != "trusted_validator"@) by {
        assert(short[0] == 'e');
    }
    match spec_effect_kind_from_decorator(short) {
        Some(k) => {
            reveal_strlit("effect_unsafe");
            reveal_strlit("effect_io_fs");
            reveal_strlit("effect_io_net");
            reveal_strlit("effect_io_proc");
            reveal_strlit("effect_time");
            reveal_strlit("effect_random");
            reveal_strlit("effect_runtime_validation");
            reveal_strlit("unsafe");
            reveal_strlit("io_fs");
            reveal_strlit("io_net");
            reveal_strlit("io_proc");
            reveal_strlit("time");
            reveal_strlit("random");
            reveal_strlit("runtime_validation");
            reveal_strlit("taint_sanitize");
            reveal_strlit("io.fs");
            reveal_strlit("io.net");
            reveal_strlit("io.proc");
            reveal_strlit("runtime.validation");
            reveal_strlit("taint.sanitize");
            if short == "effect_taint_sanitize"@ {
                assert("effect_taint_sanitize"@.subrange(7, "effect_taint_sanitize"@.len() as int) =~= "taint_sanitize"@);
                assert(underscores_as_dots("taint_sanitize"@) =~= "taint.sanitize"@);
                lemma_named_case(short, x, "effect_taint_sanitize"@, "taint_sanitize"@, "taint.sanitize"@);
            } else if short == "effect_unsafe"@ {
                assert("effect_unsafe"@.subrange(7, "effect_unsafe"@.len() as int) =~= "unsafe"@);
                assert(underscores_as_dots("unsafe"@) =~= "unsafe"@);
                lemma_named_case(short, x, "effect_unsafe"@, "unsafe"@, "unsafe"@);
            } else if short == "effect_io_fs"@ {
                assert("effect_io_fs"@.subrange(7, "effect_io_fs"@.len() as int) =~= "io_fs"@);
                assert(underscores_as_dots("io_fs"@) =~= "io.fs"@);
                lemma_named_case(short, x, "effect_io_fs"@, "io_fs"@, "io.fs"@);
            } else if short == "effect_io_net"@ {
                assert("effect_io_net"@.subrange(7, "effect_io_net"@.len() as int) =~= "io_net"@);
                assert(underscores_as_dots("io_net"@) =~= "io.net"@);
                lemma_named_case(short, x, "effect_io_net"@, "io_net"@, "io.net"@);
            } else if short == "effect_io_proc"@ {
                assert("effect_io_proc"@.subrange(7, "effect_io_proc"@.len() as int) =~= "io_proc"@);
                assert(underscores_as_dots("io_proc"@) =~= "io.proc"@);
                lemma_named_case(short, x, "effect_io_proc"@, "io_proc"@, "io.proc"@);
            } else if short == "effect_time"@ {
                assert("effect_time"@.subrange(7, "effect_time"@.len() as int) =~= "time"@);
                assert(underscores_as_dots("time"@) =~= "time"@);
                lemma_named_case(short, x, "effect_time"@, "time"@, "time"@);
            } else if short == "effect_random"@ {
                assert("effect_random"@.subrange(7, "effect_random"@.len() as int) =~= "random"@);
                assert(underscores_as_dots("random"@) =~= "random"@);
                lemma_named_case(short, x, "effect_random"@, "random"@, "random"@);
            } else {
                assert(short == "effect_runtime_validation"@);
                assert("effect_runtime_validation"@.subrange(7, "effect_runtime_validation"@.len() as int) =~= "runtime_validation"@);
                assert(underscores_as_dots("runtime_validation"@) =~= "runtime.validation"@);
                lemma_named_case(short, x, "effect_runtime_validation"@, "runtime_validation"@, "runtime.validation"@);
            }
        },
        None => {},
    }
}

/// Edge `e` goes from a caller that declares nothing to the callee whose first seed is seed `s`,
/// which has effects.
pub open spec fn seed_edge(seeds: Seq<SummaryView>, edges: Seq<EdgeView>, e: int, s: int) -> bool {
    &&& 0 <= e < edges.len()
    &&& 0 <= s < seeds.len()
    &&& seeds[s].key == edges[e].callee_key
    &&& forall|j: int| 0 <= j < s ==> seeds[j].key != edges[e].callee_key
    &&& seeds[s].row != Set::<SpecEffectKind>::empty()
    &&& !declared_keys(seeds).contains(edges[e].owner_key)
}

/// Every caller of such an edge has a summary in `m` whose row holds the seed's effects.
pub open spec fn takes_on(m: Map<SummaryKey, SummaryView>, seeds: Seq<SummaryView>, edges: Seq<EdgeView>) -> bool {
    forall|e: int, s: int|
        #[trigger] seed_edge(seeds, edges, e, s) ==> m.contains_key(edges[e].owner_key) && seeds[s].row.subset_of(
            m[edges[e].owner_key].row,
        )
}

proof fn lemma_resolves_to_seed(seeds: Seq<SummaryView>, edges: Seq<EdgeView>, e: int, s: int, snap: Map<SummaryKey, SummaryView>)
    requires
        seed_edge(seeds, edges, e, s),
    ensures
        spec_resolve_callee(seeds, snap, edges[e].callee_key) == Some(seeds[s]),
{
    let key = edges[e].callee_key;
    assert(0 <= s < seeds.len() && seeds[s].key == key && forall|j: int| 0 <= j < s ==> seeds[j].key != key);
    let i = choose|i: int|
        0 <= i < seeds.len() && seeds[i].key == key && forall|j: int| 0 <= j < i ==> seeds[j].key != key;
    if i < s {
        assert(seeds[i].key != key);
    } else if i > s {
        assert(seeds[s].key != key);
    }
}

proof fn lemma_step_grows(
    seeds: Seq<SummaryView>,
    snap: Map<SummaryKey, SummaryView>,
    state: (Map<SummaryKey, SummaryView>, bool),
    edge: EdgeView,
)
    ensures
        forall|k: SummaryKey|
            #[trigger] state.0.contains_key(k) ==> spec_edge_step(seeds, snap, state, edge).0.contains_key(k)
                && state.0[k].row.subset_of(spec_edge_step(seeds, snap, state, edge).0[k].row),
        !declared_keys(seeds).contains(edge.owner_key) ==> match spec_resolve_callee(seeds, snap, edge.callee_key) {
            Some(c) => spec_edge_step(seeds, snap, state, edge).0.contains_key(edge.owner_key) && c.row.subset_of(
                spec_edge_step(seeds, snap, state, edge).0[edge.owner_key].row,
            ),
            None => true,
        },
{
}

proof fn lemma_round_takes_on(seeds: Seq<SummaryView>, snap: Map<SummaryKey, SummaryView>, edges: Seq<EdgeView>)
    ensures
        forall|k: SummaryKey|
            #[trigger] snap.contains_key(k) ==> spec_round(seeds, snap, edges).0.contains_key(k) && snap[k].row.subset_of(
                spec_round(seeds, snap, edges).0[k].row,
            ),
        takes_on(spec_round(seeds, snap, edges).0, seeds, edges),
    decreases edges.len(),
{
    if edges.len() > 0 {
        let init = edges.drop_last();
        lemma_round_takes_on(seeds, snap, init);
        let prev = spec_round(seeds, snap, init);
        let last = edges.last();
        lemma_step_grows(seeds, snap, prev, last);
        let m = spec_round(seeds, snap, edges).0;
        assert(m == spec_edge_step(seeds, snap, prev, last).0);
        assert forall|k: SummaryKey| #[trigger] snap.contains_key(k) implies m.contains_key(k) && snap[k].row.subset_of(
            m[k].row,
        ) by {
            assert(prev.0.contains_key(k));
        }
        assert forall|e: int, s: int| #[trigger] seed_edge(seeds, edges, e, s) implies m.contains_key(edges[e].owner_key)
            && seeds[s].row.subset_of(m[edges[e].owner_key].row) by {
            if e < edges.len() - 1 {
                assert(init[e] == edges[e]);
                assert(seed_edge(seeds, init, e, s));
                assert(prev.0.contains_key(edges[e].owner_key));
            } else {
                lemma_resolves_to_seed(seeds, edges, e, s, snap);
            }
        }
    } else {
        assert(spec_round(seeds, snap, edges).0 == snap);
    }
}

proof fn lemma_infer_takes_on(
    seeds: Seq<SummaryView>,
    edges: Seq<EdgeView>,
    inferred: Map<SummaryKey, SummaryView>,
    rounds: nat,
)
    requires
        rounds >= 1,
    ensures
        takes_on(spec_infer(seeds, edges, inferred, rounds), seeds, edges),
    decreases rounds,
{
    lemma_round_takes_on(seeds, inferred, edges);
    let (next, changed) = spec_round(seeds, inferred, edges);
    if changed {
        assert(spec_infer(seeds, edges, inferred, rounds) == spec_infer(seeds, edges, next, (rounds - 1) as nat));
        if rounds > 1 {
            lemma_infer_takes_on(seeds, edges, next, (rounds - 1) as nat);
        } else {
            assert(spec_infer(seeds, edges, next, 0) == next);
        }
    } else {
        assert(spec_infer(seeds, edges, inferred, rounds) == next);
    }
}

/// Inference adds a callee's effects to its caller's row: for every call edge from a caller
/// that declares nothing to a callee whose (first) seed summary has effects, the inferred
/// summary of the caller exists and its row holds every effect of that callee, whatever other
/// calls the caller makes.
pub proof fn law_callers_take_on_their_callees_effects(seeds: Seq<SummaryView>, edges: Seq<EdgeView>, e: int, s: int)
    requires
        0 <= e < edges.len(),
        0 <= s < seeds.len(),
        seeds[s].key == edges[e].callee_key,
        forall|j: int| 0 <= j < s ==> seeds[j].key != edges[e].callee_key,
        seeds[s].row != Set::<SpecEffectKind>::empty(),
        forall|i: int| 0 <= i < seeds.len() && seeds[i].key == edges[e].owner_key ==> !crate::inference::is_declared(#[trigger] seeds[i]),
    ensures
        spec_infer(seeds, edges, Map::empty(), 8).contains_key(edges[e].owner_key),
        seeds[s].row.subset_of(spec_infer(seeds, edges, Map::empty(), 8)[edges[e].owner_key].row),
{
    assert(!declared_keys(seeds).contains(edges[e].owner_key));
    assert(seed_edge(seeds, edges, e, s));
    lemma_infer_takes_on(seeds, edges, Map::empty(), 8);
}

/// A decorator `effect:<label>` declares the effect with that label, for every label that is
/// not empty and has no `:`.
pub proof fn law_effect_label_decorator_declares_its_label(label: Seq<char>)
    requires
        label.len() > 0,
        forall|i: int| 0 <= i < label.len() ==> #[trigger] label[i] != ':',
    ensures
        spec_effect_kind_from_decorator("effect:"@ + label) matches Some(k) && spec_label(k) == label,
{
    let d = "effect:"@ + label;
    reveal_strlit("effect:");
    reveal_strlit("effect");
    assert(d.len() == 7 + label.len());
    assert(d[6] == ':');
    assert forall|j: int| 0 <= j < 6 implies d[j] != ':' by {}
    assert(exists|i: int| 0 <= i < d.len() && d[i] == ':');
    let i = choose|i: int| 0 <= i < d.len() && d[i] == ':' && forall|j: int| 0 <= j < i ==> d[j] != ':';
    assert(0 <= 6 < d.len() && d[6] == ':' && forall|j: int| 0 <= j < 6 ==> d[j] != ':');
    assert(i == 6) by {
        if i < 6 {
        } else if i > 6 {
            assert(d[6] != ':');
        }
    }
    assert(crate::text::first_index_of(d, ':') == Some(6int));
    let target = d.subrange(0, 6);
    let rest = d.subrange(7, d.len() as int);
    assert(target =~= "effect"@);
    assert(rest =~= label);
    assert(crate::text::last_index_of(target, '.') is None);
    assert(crate::text::last_segment(target, '.') == "effect"@);
    assert(crate::decorators::spec_effect_label_from_decorator(d) == Some(label));
    let k = crate::effect_row::spec_kind_from_label(label);
    assert(spec_effect_kind_from_decorator(d) == Some(k));
    reveal_strlit("unsafe");
    reveal_strlit("io.fs");
    reveal_strlit("io.net");
    reveal_strlit("io.proc");
    reveal_strlit("time");
    reveal_strlit("random");
    reveal_strlit("runtime.validation");
    reveal_strlit("taint.sanitize");
}

} // verus!
