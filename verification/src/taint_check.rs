//! The source-to-sink taint check: calls and assignments are visited in line order (calls
//! before assignments on the same line), tainted locals are tracked per owner, and a call that
//! passes a value still tainted in one of the sink's contexts is an error.
use vstd::prelude::*;
use crate::diagnostics::{Diagnostic, DiagnosticView, Span, Severity, spec_diagnostic, spec_point_span};
use crate::effect_summary::{SummaryKey, opt_view, clone_opt, opt_str_eq};
use crate::ordering::{LineItem, sort_stable, sort_line_items, lemma_sort_elements};
use crate::owners::{OwnerRanges, range_of, spec_owner_for_line, markers_view, owner_for_line, spec_range_after, owner_line_ranges};
use crate::sites::{AssignmentSite, CallSite, MethodCallSite, ReturnSite};
use crate::taint::{
    TaintContexts, TaintFactKind, spec_contexts_for_kind, opt_contexts, taint_source_contexts,
    taint_sanitizer_contexts, taint_sink_contexts, sanitizer_contexts_cover_all,
};
use crate::taint_flow::{
    ExprMeta, TaintDecorations, TaintedLocals, DecorationsView, LocalsView, facts_of, kind_contexts,
    spec_method_facts, spec_arg_contexts, argument_taint_contexts, argument_is_unsanitized_source,
    taint_method_facts, opt_str,
};
use crate::table::{KeyTable, LineTable};
use crate::text::{owned, join3};

verus! {

/// Contexts recorded per (owner, line) for method calls on that line.
pub type LineContexts = Map<(Option<Seq<char>>, int), Set<Option<Seq<char>>>>;

/// What the check carries from one statement to the next.
pub struct TaintState {
    pub diagnostics: Seq<DiagnosticView>,
    pub locals: LocalsView,
    pub source_lines: LineContexts,
    pub sanitizer_lines: LineContexts,
}

/// The error for a tainted value that reaches a sink.
pub open spec fn spec_taint_sink_diagnostic(path: Seq<char>, sink_name: Seq<char>, line: nat) -> DiagnosticView {
    DiagnosticView {
        span: Some(spec_point_span(path, line, 1)),
        notes: seq!["wrap the source value in a callable marked `@sanitizer` before passing it to a `@sink`"@],
        ..spec_diagnostic(
            Severity::Error,
            "TPY4028"@,
            "tainted source result flows into sink `"@ + sink_name + "` without a sanitizer"@,
        )
    }
}

/// The error for a tainted value that reaches the sink `sink_name` on `line`.
pub fn taint_sink_diagnostic(path: &str, sink_name: &str, line: usize) -> (res: Diagnostic)
    ensures
        res@ == spec_taint_sink_diagnostic(path@, sink_name@, line as nat),
{
    let message = join3("tainted source result flows into sink `", sink_name, "` without a sanitizer");
    let d = Diagnostic::error("TPY4028", message).with_span(Span::new(owned(path), line, 1, line, 1)).with_note(
        owned("wrap the source value in a callable marked `@sanitizer` before passing it to a `@sink`"),
    );
    assert(d@.notes =~= seq!["wrap the source value in a callable marked `@sanitizer` before passing it to a `@sink`"@]);
    d
}

/// The visiting order: assignments (rank 1), calls and method calls (rank 0), each tagged with
/// its kind (2, 0, 1) and position, sorted stably by line and rank.
pub open spec fn spec_taint_items(
    assignments: Seq<AssignmentSite>,
    calls: Seq<CallSite>,
    method_calls: Seq<MethodCallSite>,
) -> Seq<LineItem> {
    sort_stable(
        Seq::new(assignments.len(), |i: int| (assignments[i].line, 1u8, 2usize, i as usize)) + Seq::new(
            calls.len(),
            |i: int| (calls[i].line, 0u8, 0usize, i as usize),
        ) + Seq::new(method_calls.len(), |i: int| (method_calls[i].line, 0u8, 1usize, i as usize)),
    )
}

/// Some argument still carries taint in a sink context.
pub open spec fn spec_any_tainted_arg(
    args: Seq<ExprMeta>,
    dec: DecorationsView,
    locals: LocalsView,
    owner: Option<Seq<char>>,
    sink: Set<Option<Seq<char>>>,
) -> bool {
    exists|i: int| 0 <= i < args.len() && spec_arg_contexts(args[i], dec, locals, owner, Some(sink)) != Set::<Option<Seq<char>>>::empty()
}

/// Contexts of an optional context set, empty when absent.
pub open spec fn or_empty(o: Option<Set<Option<Seq<char>>>>) -> Set<Option<Seq<char>>> {
    match o {
        Some(s) => s,
        None => Set::empty(),
    }
}

/// Contexts recorded for a line, empty when none are.
pub open spec fn line_contexts(m: LineContexts, key: (Option<Seq<char>>, int)) -> Set<Option<Seq<char>>> {
    if m.contains_key(key) {
        m[key]
    } else {
        Set::empty()
    }
}

/// The tainted locals after an assignment: a sanitizer that covers every context untaints the
/// target; one that covers some contexts removes those; otherwise the target takes the value's
/// taint, or loses its taint when the value carries none.
pub open spec fn spec_assign_locals(
    locals: LocalsView,
    key: SummaryKey,
    tainted: Set<Option<Seq<char>>>,
    sanitized: Set<Option<Seq<char>>>,
) -> LocalsView {
    if sanitized != Set::<Option<Seq<char>>>::empty() {
        if sanitized.contains(None) {
            locals.remove(key)
        } else if locals.contains_key(key) {
            let rest = locals[key].difference(sanitized);
            if rest == Set::<Option<Seq<char>>>::empty() {
                locals.remove(key)
            } else {
                locals.insert(key, rest)
            }
        } else {
            locals
        }
    } else if tainted != Set::<Option<Seq<char>>>::empty() {
        locals.insert(key, tainted)
    } else {
        locals.remove(key)
    }
}

/// One statement of the check.
pub open spec fn spec_taint_step(
    path: Seq<char>,
    dec: DecorationsView,
    range: spec_fn(Option<Seq<char>>) -> Option<(int, int)>,
    markers: Seq<(int, Option<Seq<char>>)>,
    assignments: Seq<AssignmentSite>,
    calls: Seq<CallSite>,
    method_calls: Seq<MethodCallSite>,
    st: TaintState,
    item: LineItem,
) -> TaintState {
    if item.2 == 0 {
        let call = calls[item.3 as int];
        let owner = spec_owner_for_line(range, markers, call.line as int);
        match kind_contexts(facts_of(dec, (None, call.callee@)), TaintFactKind::Sink) {
            Some(sink) => if spec_any_tainted_arg(call.arg_values@, dec, st.locals, owner, sink) {
                TaintState {
                    diagnostics: st.diagnostics.push(spec_taint_sink_diagnostic(path, call.callee@, call.line as nat)),
                    ..st
                }
            } else {
                st
            },
            None => st,
        }
    } else if item.2 == 1 {
        let call = method_calls[item.3 as int];
        let owner = match call.current_owner_name {
            Some(o) => Some(o@),
            None => spec_owner_for_line(range, markers, call.line as int),
        };
        let facts = facts_of(dec, (Some(call.owner_name@), call.method@));
        let key = (owner, call.line as int);
        let sources = match kind_contexts(facts, TaintFactKind::Source) {
            Some(c) => st.source_lines.insert(key, c),
            None => st.source_lines,
        };
        let sanitizers = match kind_contexts(facts, TaintFactKind::Sanitizer) {
            Some(c) => st.sanitizer_lines.insert(key, c),
            None => st.sanitizer_lines,
        };
        let diagnostics = match kind_contexts(facts, TaintFactKind::Sink) {
            Some(sink) => if spec_any_tainted_arg(call.arg_values@, dec, st.locals, owner, sink) {
                st.diagnostics.push(
                    spec_taint_sink_diagnostic(path, call.owner_name@ + "."@ + call.method@, call.line as nat),
                )
            } else {
                st.diagnostics
            },
            None => st.diagnostics,
        };
        TaintState { diagnostics, locals: st.locals, source_lines: sources, sanitizer_lines: sanitizers }
    } else {
        let a = assignments[item.3 as int];
        let owner = opt_view(a.owner_name);
        let ol = (owner, a.line as int);
        let callee_facts = match a.value_callee {
            Some(c) => facts_of(dec, (None, c@)),
            None => None,
        };
        let method_facts = spec_method_facts(dec, opt_view(a.value_method_owner_name), opt_view(a.value_method_name));
        let tainted = (match a.value {
            Some(v) => spec_arg_contexts(v, dec, st.locals, owner, None),
            None => Set::empty(),
        }).union(or_empty(kind_contexts(callee_facts, TaintFactKind::Source))).union(
            or_empty(kind_contexts(method_facts, TaintFactKind::Source)),
        ).union(line_contexts(st.source_lines, ol));
        let sanitized = or_empty(kind_contexts(callee_facts, TaintFactKind::Sanitizer)).union(
            or_empty(kind_contexts(method_facts, TaintFactKind::Sanitizer)),
        ).union(line_contexts(st.sanitizer_lines, ol));
        TaintState { locals: spec_assign_locals(st.locals, (owner, a.name@), tainted, sanitized), ..st }
    }
}

/// The state after visiting the given statements in order.
pub open spec fn spec_taint_run(
    path: Seq<char>,
    dec: DecorationsView,
    range: spec_fn(Option<Seq<char>>) -> Option<(int, int)>,
    markers: Seq<(int, Option<Seq<char>>)>,
    assignments: Seq<AssignmentSite>,
    calls: Seq<CallSite>,
    method_calls: Seq<MethodCallSite>,
    items: Seq<LineItem>,
) -> TaintState
    decreases items.len(),
{
    if items.len() == 0 {
        TaintState {
            diagnostics: Seq::empty(),
            locals: Map::empty(),
            source_lines: Map::empty(),
            sanitizer_lines: Map::empty(),
        }
    } else {
        spec_taint_step(
            path,
            dec,
            range,
            markers,
            assignments,
            calls,
            method_calls,
            spec_taint_run(path, dec, range, markers, assignments, calls, method_calls, items.drop_last()),
            items.last(),
        )
    }
}

fn any_tainted_arg(
    args: &Vec<ExprMeta>,
    decorated: &TaintDecorations,
    locals: &TaintedLocals,
    owner: &Option<String>,
    sink: &TaintContexts,
) -> (res: bool)
    requires
        decorated.wf(),
        locals.wf(),
    ensures
        res == spec_any_tainted_arg(args@, decorated@, locals@, opt_view(*owner), sink@),
{
    let n = args.len();
    let mut i: usize = 0;
    while i < n
        invariant
            n == args@.len(),
            i <= n,
            decorated.wf(),
            locals.wf(),
            forall|j: int|
                0 <= j < i ==> spec_arg_contexts(args@[j], decorated@, locals@, opt_view(*owner), Some(sink@))
                    == Set::<Option<Seq<char>>>::empty(),
        decreases n - i,
    {
        if argument_is_unsanitized_source(&args[i], decorated, locals, owner, sink) {
            return true;
        }
        i = i + 1;
    }
    false
}

/// The contexts under a line key, empty when there are none.
fn line_contexts_of(table: &LineTable<TaintContexts>, owner: &Option<String>, line: usize) -> (res: TaintContexts)
    requires
        table.wf(),
    ensures
        res@ == line_contexts(table@, (opt_view(*owner), line as int)),
{
    match table.get(owner, line) {
        Some(c) => c.clone_set(),
        None => TaintContexts::new(),
    }
}

/// Contexts of optional facts of a kind, empty when absent.
fn kind_or_empty(facts: Option<&crate::taint::TaintFacts>, kind: TaintFactKind) -> (res: TaintContexts)
    ensures
        res@ == or_empty(kind_contexts(
            match facts {
                Some(f) => Some(f@),
                None => None,
            },
            kind,
        )),
{
    match facts {
        Some(f) => match crate::taint::taint_contexts_for_kind(f, kind) {
            Some(c) => c,
            None => TaintContexts::new(),
        },
        None => TaintContexts::new(),
    }
}

/// The contexts stored at the first `i` positions.
pub open spec fn stored_prefix(c: TaintContexts, i: int) -> Set<Option<Seq<char>>> {
    Set::new(|x: Option<Seq<char>>| exists|j: int| 0 <= j < i && #[trigger] c.spec_get(j) == x)
}

/// Removes every context of `sanitized` from `existing`.
fn remove_all(existing: &mut TaintContexts, sanitized: &TaintContexts)
    ensures
        final(existing)@ == old(existing)@.difference(sanitized@),
{
    let ghost start = existing@;
    let n = sanitized.len();
    let mut i: usize = 0;
    assert(stored_prefix(*sanitized, 0) =~= Set::<Option<Seq<char>>>::empty());
    assert(start.difference(Set::empty()) =~= start);
    while i < n
        invariant
            n == sanitized.spec_len(),
            i <= n,
            existing@ == start.difference(stored_prefix(*sanitized, i as int)),
        decreases n - i,
    {
        let c = sanitized.get(i);
        existing.remove(&c);
        assert(stored_prefix(*sanitized, i + 1) =~= stored_prefix(*sanitized, i as int).insert(sanitized.spec_get(i as int))) by {
            assert forall|x: Option<Seq<char>>| stored_prefix(*sanitized, i + 1).contains(x) implies stored_prefix(*sanitized, i as int).insert(sanitized.spec_get(i as int)).contains(x) by {
                let j = choose|j: int| 0 <= j < i + 1 && #[trigger] sanitized.spec_get(j) == x;
                if j < i {
                    assert(stored_prefix(*sanitized, i as int).contains(x));
                }
            }
            assert forall|x: Option<Seq<char>>| stored_prefix(*sanitized, i as int).insert(sanitized.spec_get(i as int)).contains(x) implies stored_prefix(*sanitized, i + 1).contains(x) by {
                if x == sanitized.spec_get(i as int) {
                    assert(0 <= i < i + 1 && sanitized.spec_get(i as int) == x);
                } else {
                    let j = choose|j: int| 0 <= j < i && #[trigger] sanitized.spec_get(j) == x;
                    assert(0 <= j < i + 1);
                }
            }
        }
        assert(existing@ =~= start.difference(stored_prefix(*sanitized, i + 1)));
        i = i + 1;
    }
    proof {
        sanitized.lemma_entries();
        assert(stored_prefix(*sanitized, n as int) =~= sanitized@) by {
            assert forall|x: Option<Seq<char>>| sanitized@.contains(x) implies stored_prefix(*sanitized, n as int).contains(x) by {
                let j = choose|j: int| 0 <= j < sanitized.spec_len() && sanitized.spec_get(j) == x;
            }
        }
    }
}

fn assignment_step(
    a: &AssignmentSite,
    decorated: &TaintDecorations,
    locals: &mut TaintedLocals,
    source_lines: &LineTable<TaintContexts>,
    sanitizer_lines: &LineTable<TaintContexts>,
)
    requires
        decorated.wf(),
        old(locals).wf(),
        source_lines.wf(),
        sanitizer_lines.wf(),
    ensures
        final(locals).wf(),
        ({
            let owner = opt_view(a.owner_name);
            let ol = (owner, a.line as int);
            let callee_facts = match a.value_callee {
                Some(c) => facts_of(decorated@, (None, c@)),
                None => None,
            };
            let method_facts = spec_method_facts(decorated@, opt_view(a.value_method_owner_name), opt_view(a.value_method_name));
            let tainted = (match a.value {
                Some(v) => spec_arg_contexts(v, decorated@, old(locals)@, owner, None),
                None => Set::empty(),
            }).union(or_empty(kind_contexts(callee_facts, TaintFactKind::Source))).union(
                or_empty(kind_contexts(method_facts, TaintFactKind::Source)),
            ).union(line_contexts(source_lines@, ol));
            let sanitized = or_empty(kind_contexts(callee_facts, TaintFactKind::Sanitizer)).union(
                or_empty(kind_contexts(method_facts, TaintFactKind::Sanitizer)),
            ).union(line_contexts(sanitizer_lines@, ol));
            final(locals)@ == spec_assign_locals(old(locals)@, (owner, a.name@), tainted, sanitized)
        }),
{
    let none: Option<String> = None;
    let callee_facts = match &a.value_callee {
        Some(c) => decorated.get(&none, c),
        None => None,
    };
    let method_facts = taint_method_facts(
        decorated,
        match &a.value_method_owner_name {
            Some(o) => Some(o.as_str()),
            None => None,
        },
        match &a.value_method_name {
            Some(m) => Some(m.as_str()),
            None => None,
        },
    );
    let mut tainted = match &a.value {
        Some(v) => argument_taint_contexts(v, decorated, locals, &a.owner_name, None),
        None => TaintContexts::new(),
    };
    tainted.extend(&kind_or_empty(callee_facts, TaintFactKind::Source));
    tainted.extend(&kind_or_empty(method_facts, TaintFactKind::Source));
    tainted.extend(&line_contexts_of(source_lines, &a.owner_name, a.line));
    let mut sanitized = kind_or_empty(callee_facts, TaintFactKind::Sanitizer);
    sanitized.extend(&kind_or_empty(method_facts, TaintFactKind::Sanitizer));
    sanitized.extend(&line_contexts_of(sanitizer_lines, &a.owner_name, a.line));
    if !sanitized.is_empty() {
        if sanitizer_contexts_cover_all(&sanitized) {
            locals.remove(&a.owner_name, &a.name);
        } else {
            let existing = match locals.get(&a.owner_name, &a.name) {
                Some(e) => Some(e.clone_set()),
                None => None,
            };
            if let Some(mut rest) = existing {
                remove_all(&mut rest, &sanitized);
                if rest.is_empty() {
                    locals.remove(&a.owner_name, &a.name);
                } else {
                    locals.set(clone_opt(&a.owner_name), a.name.clone(), rest);
                }
            }
        }
    } else if !tainted.is_empty() {
        locals.set(clone_opt(&a.owner_name), a.name.clone(), tainted);
    } else {
        locals.remove(&a.owner_name, &a.name);
    }
}

/// The taint errors of a module's statements, visited in the given order, with owners of
/// unowned calls found from `ranges` and `markers`.
pub fn taint_run(
    path: &str,
    decorated: &TaintDecorations,
    ranges: &OwnerRanges,
    markers: &Vec<(usize, Option<String>)>,
    assignments: &Vec<AssignmentSite>,
    calls: &Vec<CallSite>,
    method_calls: &Vec<MethodCallSite>,
    items: &Vec<LineItem>,
) -> (res: Vec<Diagnostic>)
    requires
        decorated.wf(),
        ranges.wf(),
        forall|i: int|
            0 <= i < items@.len() ==> {
                let it = #[trigger] items@[i];
                &&& it.2 == 0 ==> it.3 < calls@.len()
                &&& it.2 == 1 ==> it.3 < method_calls@.len()
                &&& it.2 != 0 && it.2 != 1 ==> it.3 < assignments@.len()
            },
    ensures
        res@.map_values(|d: Diagnostic| d@) == spec_taint_run(
            path@,
            decorated@,
            |o: Option<Seq<char>>| range_of(ranges@, o),
            markers_view(markers@),
            assignments@,
            calls@,
            method_calls@,
            items@,
        ).diagnostics,
{
    let ghost range = |o: Option<Seq<char>>| range_of(ranges@, o);
    let ghost mk = markers_view(markers@);
    let mut diagnostics: Vec<Diagnostic> = Vec::new();
    let mut locals: TaintedLocals = KeyTable::new();
    let mut source_lines: LineTable<TaintContexts> = LineTable::new();
    let mut sanitizer_lines: LineTable<TaintContexts> = LineTable::new();
    let n = items.len();
    let mut i: usize = 0;
    assert(items@.take(0) =~= Seq::<LineItem>::empty());
    assert(diagnostics@.map_values(|d: Diagnostic| d@) =~= Seq::<DiagnosticView>::empty());
    while i < n
        invariant
            n == items@.len(),
            i <= n,
            decorated.wf(),
            ranges.wf(),
            locals.wf(),
            source_lines.wf(),
            sanitizer_lines.wf(),
            range == (|o: Option<Seq<char>>| range_of(ranges@, o)),
            mk == markers_view(markers@),
            forall|q: int|
                0 <= q < items@.len() ==> {
                    let it = #[trigger] items@[q];
                    &&& it.2 == 0 ==> it.3 < calls@.len()
                    &&& it.2 == 1 ==> it.3 < method_calls@.len()
                    &&& it.2 != 0 && it.2 != 1 ==> it.3 < assignments@.len()
                },
            ({
                let st = spec_taint_run(path@, decorated@, range, mk, assignments@, calls@, method_calls@, items@.take(i as int));
                &&& diagnostics@.map_values(|d: Diagnostic| d@) == st.diagnostics
                &&& locals@ == st.locals
                &&& source_lines@ == st.source_lines
                &&& sanitizer_lines@ == st.sanitizer_lines
            }),
        decreases n - i,
    {
        let item = items[i];
        assert(items@.take(i + 1).drop_last() =~= items@.take(i as int));
        assert(items@.take(i + 1).last() == item);
        let ghost dv = diagnostics@.map_values(|d: Diagnostic| d@);
        if item.2 == 0 {
            let call = &calls[item.3];
            let owner = owner_for_line(ranges, markers.as_slice(), call.line);
            let none: Option<String> = None;
            if let Some(facts) = decorated.get(&none, &call.callee) {
                if let Some(sink) = taint_sink_contexts(facts) {
                    if any_tainted_arg(&call.arg_values, decorated, &locals, &owner, &sink) {
                        diagnostics.push(taint_sink_diagnostic(path, &call.callee, call.line));
                        assert(diagnostics@.map_values(|d: Diagnostic| d@) =~= dv.push(
                            spec_taint_sink_diagnostic(path@, call.callee@, call.line as nat),
                        ));
                    }
                }
            }
        } else if item.2 == 1 {
            let call = &method_calls[item.3];
            let owner = match &call.current_owner_name {
                Some(o) => Some(o.clone()),
                None => owner_for_line(ranges, markers.as_slice(), call.line),
            };
            let facts = taint_method_facts(decorated, Some(call.owner_name.as_str()), Some(call.method.as_str()));
            if let Some(f) = facts {
                if let Some(c) = taint_source_contexts(f) {
                    source_lines.set(clone_opt(&owner), call.line, c);
                }
                if let Some(c) = taint_sanitizer_contexts(f) {
                    sanitizer_lines.set(clone_opt(&owner), call.line, c);
                }
                if let Some(sink) = taint_sink_contexts(f) {
                    if any_tainted_arg(&call.arg_values, decorated, &locals, &owner, &sink) {
                        let name = join3(&call.owner_name, ".", &call.method);
                        diagnostics.push(taint_sink_diagnostic(path, &name, call.line));
                        assert(diagnostics@.map_values(|d: Diagnostic| d@) =~= dv.push(
                            spec_taint_sink_diagnostic(path@, call.owner_name@ + "."@ + call.method@, call.line as nat),
                        ));
                    }
                }
            }
        } else {
            let a = &assignments[item.3];
            assignment_step(a, decorated, &mut locals, &source_lines, &sanitizer_lines);
        }
        i = i + 1;
    }
    assert(items@.take(n as int) =~= items@);
    diagnostics
}

/// A capability a framework-transform provider declares.
#[derive(Debug, Clone, Copy, PartialEq, Eq, Structural)]
pub enum FrameworkCapability {
    EffectUnsafe,
    EffectIoFs,
    EffectIoNet,
    EffectIoProc,
    EffectTime,
    EffectRandom,
    EffectRuntimeValidation,
    ValidatorWitness,
    EffectTaintSanitize,
    TaintSanitizer,
    TaintSource,
    TaintSink,
    Other,
}

/// A framework-transform provider: its name, whether it is a function decorator, and its
/// declared capabilities.
#[derive(Debug, Clone)]
pub struct FrameworkProvider {
    pub name: String,
    pub function_decorator: bool,
    pub capabilities: Vec<FrameworkCapability>,
}

/// A callable defined in the module, with its decorators.
#[derive(Debug, Clone)]
pub struct DecoratedCallable {
    pub name: String,
    pub owner_type_name: Option<String>,
    pub decorators: Vec<String>,
    pub line: usize,
}

/// The taint role a provider capability grants.
pub open spec fn spec_capability_taint(c: FrameworkCapability) -> Option<crate::taint::SpecTaintFact> {
    match c {
        FrameworkCapability::TaintSource => Some((TaintFactKind::Source, None)),
        FrameworkCapability::TaintSink => Some((TaintFactKind::Sink, None)),
        FrameworkCapability::TaintSanitizer => Some((TaintFactKind::Sanitizer, None)),
        _ => None,
    }
}

/// The taint role of the first capability that grants one.
pub open spec fn spec_first_capability_taint(caps: Seq<FrameworkCapability>) -> Option<crate::taint::SpecTaintFact>
    decreases caps.len(),
{
    if caps.len() == 0 {
        None
    } else {
        match spec_capability_taint(caps[0]) {
            Some(f) => Some(f),
            None => spec_first_capability_taint(caps.drop_first()),
        }
    }
}

/// The taint role of the first capability that grants one.
fn first_capability_taint(caps: &Vec<FrameworkCapability>) -> (res: Option<crate::taint::TaintFact>)
    ensures
        crate::decorators::opt_fact(res) == spec_first_capability_taint(caps@),
{
    let n = caps.len();
    let mut i: usize = 0;
    assert(caps@.skip(0) =~= caps@);
    while i < n
        invariant
            n == caps@.len(),
            i <= n,
            spec_first_capability_taint(caps@) == spec_first_capability_taint(caps@.skip(i as int)),
        decreases n - i,
    {
        assert(caps@.skip(i as int)[0] == caps@[i as int]);
        assert(caps@.skip(i as int).drop_first() =~= caps@.skip(i + 1));
        match caps[i] {
            FrameworkCapability::TaintSource => {
                return Some(crate::taint::TaintFact::source(None));
            },
            FrameworkCapability::TaintSink => {
                return Some(crate::taint::TaintFact::sink(None));
            },
            FrameworkCapability::TaintSanitizer => {
                return Some(crate::taint::TaintFact::sanitizer(None));
            },
            _ => {},
        }
        i = i + 1;
    }
    None
}

/// The taint role each function-decorator provider grants, keyed by provider name; a later
/// provider of the same name replaces an earlier one.
pub open spec fn spec_adapter_taint(providers: Seq<FrameworkProvider>) -> Map<SummaryKey, crate::taint::SpecTaintFact>
    decreases providers.len(),
{
    if providers.len() == 0 {
        Map::empty()
    } else {
        let prev = spec_adapter_taint(providers.drop_last());
        let p = providers.last();
        if p.function_decorator {
            match spec_first_capability_taint(p.capabilities@) {
                Some(f) => prev.insert((None, p.name@), f),
                None => prev,
            }
        } else {
            prev
        }
    }
}

/// The taint role each function-decorator provider grants, keyed by provider name.
pub fn adapter_taint_decorators(providers: &Vec<FrameworkProvider>) -> (res: KeyTable<crate::taint::TaintFact>)
    ensures
        res.wf(),
        res@ == spec_adapter_taint(providers@),
{
    let mut table: KeyTable<crate::taint::TaintFact> = KeyTable::new();
    let n = providers.len();
    let mut i: usize = 0;
    assert(providers@.take(0) =~= Seq::<FrameworkProvider>::empty());
    while i < n
        invariant
            n == providers@.len(),
            i <= n,
            table.wf(),
            table@ == spec_adapter_taint(providers@.take(i as int)),
        decreases n - i,
    {
        let p = &providers[i];
        assert(providers@.take(i + 1).drop_last() =~= providers@.take(i as int));
        assert(providers@.take(i + 1).last() == *p);
        if p.function_decorator {
            if let Some(f) = first_capability_taint(&p.capabilities) {
                table.set(None, p.name.clone(), f);
            }
        }
        i = i + 1;
    }
    assert(providers@.take(n as int) =~= providers@);
    table
}

/// The taint facts one decorator contributes: those it carries itself and the role of an
/// adapter provider named by its short name or by the decorator itself.
pub open spec fn spec_decorator_taint(
    adapter: Map<SummaryKey, crate::taint::SpecTaintFact>,
    decorator: Seq<char>,
) -> Set<crate::taint::SpecTaintFact> {
    let short = crate::decorators::spec_decorator_short_name(decorator);
    crate::decorators::spec_taint_facts_from_decorator(decorator).union(
        if adapter.contains_key((None, short)) {
            set![adapter[(None, short)]]
        } else {
            Set::empty()
        },
    ).union(
        if adapter.contains_key((None, decorator)) {
            set![adapter[(None, decorator)]]
        } else {
            Set::empty()
        },
    )
}

/// The taint facts of a callable: those of all its decorators.
pub open spec fn spec_callable_taint(
    adapter: Map<SummaryKey, crate::taint::SpecTaintFact>,
    decorators: Seq<String>,
) -> Set<crate::taint::SpecTaintFact> {
    Set::new(
        |f: crate::taint::SpecTaintFact|
            exists|i: int| 0 <= i < decorators.len() && #[trigger] spec_decorator_taint(adapter, decorators[i]@).contains(f),
    )
}

fn callable_taint(adapter: &KeyTable<crate::taint::TaintFact>, decorators: &Vec<String>) -> (res: crate::taint::TaintFacts)
    requires
        adapter.wf(),
    ensures
        res@ == spec_callable_taint(adapter@, decorators@),
{
    let mut facts = crate::taint::TaintFacts::new();
    let n = decorators.len();
    let mut i: usize = 0;
    let none: Option<String> = None;
    while i < n
        invariant
            n == decorators@.len(),
            i <= n,
            adapter.wf(),
            none is None,
            facts@ == Set::new(
                |f: crate::taint::SpecTaintFact|
                    exists|j: int| 0 <= j < i && #[trigger] spec_decorator_taint(adapter@, decorators@[j]@).contains(f),
            ),
        decreases n - i,
    {
        let ghost before = facts@;
        let d = &decorators[i];
        let own = crate::decorators::taint_decorator_facts_from_decorator(d);
        facts.extend(&own);
        let short = match crate::decorators::decorator_short_name(d) {
            Some(s) => s,
            None => owned(d),
        };
        if let Some(f) = adapter.get(&none, &short) {
            facts.insert(f.duplicate());
        }
        if let Some(f) = adapter.get(&none, d) {
            facts.insert(f.duplicate());
        }
        assert(facts@ =~= before.union(spec_decorator_taint(adapter@, d@)));
        assert(facts@ =~= Set::new(
            |f: crate::taint::SpecTaintFact|
                exists|j: int| 0 <= j < i + 1 && #[trigger] spec_decorator_taint(adapter@, decorators@[j]@).contains(f),
        )) by {
            assert forall|f: crate::taint::SpecTaintFact| facts@.contains(f) implies exists|j: int|
                0 <= j < i + 1 && #[trigger] spec_decorator_taint(adapter@, decorators@[j]@).contains(f) by {
                if before.contains(f) {
                    let j = choose|j: int| 0 <= j < i && #[trigger] spec_decorator_taint(adapter@, decorators@[j]@).contains(f);
                    assert(0 <= j < i + 1);
                } else {
                    assert(spec_decorator_taint(adapter@, decorators@[i as int]@).contains(f));
                }
            }
            assert forall|f: crate::taint::SpecTaintFact| (exists|j: int|
                0 <= j < i + 1 && #[trigger] spec_decorator_taint(adapter@, decorators@[j]@).contains(f)) implies facts@.contains(f) by {
                let j = choose|j: int| 0 <= j < i + 1 && #[trigger] spec_decorator_taint(adapter@, decorators@[j]@).contains(f);
                if j < i {
                    assert(before.contains(f));
                }
            }
        }
        i = i + 1;
    }
    facts
}

/// The decorations after the module's callables (each with non-empty facts replacing any
/// earlier entry under its key) and then the imported facts (merged into existing entries).
pub open spec fn spec_local_decorations(
    adapter: Map<SummaryKey, crate::taint::SpecTaintFact>,
    callables: Seq<DecoratedCallable>,
) -> DecorationsView
    decreases callables.len(),
{
    if callables.len() == 0 {
        Map::empty()
    } else {
        let prev = spec_local_decorations(adapter, callables.drop_last());
        let c = callables.last();
        let facts = spec_callable_taint(adapter, c.decorators@);
        if facts == Set::<crate::taint::SpecTaintFact>::empty() {
            prev
        } else {
            prev.insert((opt_view(c.owner_type_name), c.name@), facts)
        }
    }
}

/// The decorations after merging imported facts into `base`.
pub open spec fn spec_merge_imported(
    base: DecorationsView,
    imported: Seq<(Option<String>, String, crate::taint::TaintFacts)>,
) -> DecorationsView
    decreases imported.len(),
{
    if imported.len() == 0 {
        base
    } else {
        let prev = spec_merge_imported(base, imported.drop_last());
        let (o, n, f) = imported.last();
        let k = (opt_view(o), n@);
        prev.insert(k, if prev.contains_key(k) { prev[k].union(f@) } else { f@ })
    }
}

/// The taint facts of the module's decorated callables, with imported facts merged in.
pub fn taint_decorations(
    providers: &Vec<FrameworkProvider>,
    callables: &Vec<DecoratedCallable>,
    imported: &Vec<(Option<String>, String, crate::taint::TaintFacts)>,
) -> (res: TaintDecorations)
    ensures
        res.wf(),
        res@ == spec_merge_imported(spec_local_decorations(spec_adapter_taint(providers@), callables@), imported@),
{
    let adapter = adapter_taint_decorators(providers);
    let mut table: TaintDecorations = KeyTable::new();
    let n = callables.len();
    let mut i: usize = 0;
    assert(callables@.take(0) =~= Seq::<DecoratedCallable>::empty());
    while i < n
        invariant
            n == callables@.len(),
            i <= n,
            adapter.wf(),
            adapter@ == spec_adapter_taint(providers@),
            table.wf(),
            table@ == spec_local_decorations(adapter@, callables@.take(i as int)),
        decreases n - i,
    {
        let c = &callables[i];
        assert(callables@.take(i + 1).drop_last() =~= callables@.take(i as int));
        assert(callables@.take(i + 1).last() == *c);
        let facts = callable_taint(&adapter, &c.decorators);
        if !facts.is_empty() {
            table.set(clone_opt(&c.owner_type_name), c.name.clone(), facts);
        }
        i = i + 1;
    }
    assert(callables@.take(n as int) =~= callables@);
    let ghost base = table@;
    let m = imported.len();
    let mut k: usize = 0;
    assert(imported@.take(0) =~= Seq::<(Option<String>, String, crate::taint::TaintFacts)>::empty());
    while k < m
        invariant
            m == imported@.len(),
            k <= m,
            table.wf(),
            table@ == spec_merge_imported(base, imported@.take(k as int)),
        decreases m - k,
    {
        let entry = &imported[k];
        assert(imported@.take(k + 1).drop_last() =~= imported@.take(k as int));
        assert(imported@.take(k + 1).last() == *entry);
        let ghost k2 = (opt_view(entry.0), entry.1@);
        let ghost tv = table@;
        let merged = match table.get(&entry.0, &entry.1) {
            Some(existing) => {
                let mut m2 = crate::taint::TaintFacts::new();
                m2.extend(existing);
                m2.extend(&entry.2);
                assert(m2@ =~= tv[k2].union(entry.2@));
                m2
            },
            None => {
                let mut m2 = crate::taint::TaintFacts::new();
                m2.extend(&entry.2);
                assert(m2@ =~= entry.2@);
                m2
            },
        };
        assert(merged@ == if tv.contains_key(k2) { tv[k2].union(entry.2@) } else { entry.2@ });
        table.set(clone_opt(&entry.0), entry.1.clone(), merged);
        proof {
            let prev = spec_merge_imported(base, imported@.take(k as int));
            assert(table@ =~= prev.insert(k2, if prev.contains_key(k2) { prev[k2].union(entry.2@) } else { entry.2@ }));
        }
        k = k + 1;
    }
    assert(imported@.take(m as int) =~= imported@);
    table
}

/// The `(owner, line)` items whose ranges locate owners: assignments, then return_sites.
pub open spec fn spec_range_items(a: Seq<AssignmentSite>, r: Seq<ReturnSite>) -> Seq<(Option<Seq<char>>, int)> {
    Seq::new(a.len(), |i: int| (opt_view(a[i].owner_name), a[i].line as int)) + Seq::new(
        r.len(),
        |i: int| (Some(r[i].owner_name@), r[i].line as int),
    )
}

/// The line markers: assignments and return_sites, sorted stably by line.
pub open spec fn spec_markers(a: Seq<AssignmentSite>, r: Seq<ReturnSite>) -> Seq<(int, Option<Seq<char>>)> {
    sort_stable(
        Seq::new(a.len(), |i: int| (a[i].line, 0u8, 0usize, i as usize)) + Seq::new(
            r.len(),
            |i: int| (r[i].line, 0u8, 1usize, i as usize),
        ),
    ).map_values(
        |it: LineItem|
            (
                it.0 as int,
                if it.2 == 0 {
                    opt_view(a[it.3 as int].owner_name)
                } else {
                    Some(r[it.3 as int].owner_name@)
                },
            ),
    )
}

/// The taint errors of a module: nothing when the module's decorator information is missing,
/// else the errors of visiting its statements in line order with the decorations of its
/// callables, adapters and imports.
pub open spec fn spec_taint_source_sink(
    path: Seq<char>,
    callables: Option<Seq<DecoratedCallable>>,
    providers: Seq<FrameworkProvider>,
    imported: Seq<(Option<String>, String, crate::taint::TaintFacts)>,
    a: Seq<AssignmentSite>,
    r: Seq<ReturnSite>,
    c: Seq<CallSite>,
    m: Seq<MethodCallSite>,
) -> Seq<DiagnosticView> {
    match callables {
        None => Seq::empty(),
        Some(cs) => spec_taint_run(
            path,
            spec_merge_imported(spec_local_decorations(spec_adapter_taint(providers), cs), imported),
            |o: Option<Seq<char>>| spec_range_after(spec_range_items(a, r), o),
            spec_markers(a, r),
            a,
            c,
            m,
            spec_taint_items(a, c, m),
        ).diagnostics,
    }
}

/// The taint errors of a module.
#[verifier::rlimit(40)]
#[verifier::spinoff_prover]
pub fn taint_source_sink_diagnostics(
    path: &str,
    callables: Option<&Vec<DecoratedCallable>>,
    providers: &Vec<FrameworkProvider>,
    imported: &Vec<(Option<String>, String, crate::taint::TaintFacts)>,
    assignments: &Vec<AssignmentSite>,
    return_sites: &Vec<ReturnSite>,
    calls: &Vec<CallSite>,
    method_calls: &Vec<MethodCallSite>,
) -> (res: Vec<Diagnostic>)
    ensures
        res@.map_values(|d: Diagnostic| d@) == spec_taint_source_sink(
            path@,
            match callables {
                Some(cs) => Some(cs@),
                None => None,
            },
            providers@,
            imported@,
            assignments@,
            return_sites@,
            calls@,
            method_calls@,
        ),
{
    let callables = match callables {
        Some(cs) => cs,
        None => {
            let r: Vec<Diagnostic> = Vec::new();
            assert(r@.map_values(|d: Diagnostic| d@) =~= Seq::<DiagnosticView>::empty());
            return r;
        },
    };
    let decorated = taint_decorations(providers, callables, imported);
    // Owner ranges from assignments then return_sites.
    let mut range_items: Vec<(Option<String>, usize)> = Vec::new();
    let mut i: usize = 0;
    while i < assignments.len()
        invariant
            i <= assignments@.len(),
            range_items@.len() == i,
            forall|j: int| 0 <= j < i ==> (opt_view(#[trigger] range_items@[j].0), range_items@[j].1 as int) == (
                opt_view(assignments@[j].owner_name),
                assignments@[j].line as int,
            ),
        decreases assignments@.len() - i,
    {
        range_items.push((clone_opt(&assignments[i].owner_name), assignments[i].line));
        i = i + 1;
    }
    let mut k: usize = 0;
    while k < return_sites.len()
        invariant
            k <= return_sites@.len(),
            range_items@.len() == assignments@.len() + k,
            forall|j: int| 0 <= j < assignments@.len() ==> (opt_view(#[trigger] range_items@[j].0), range_items@[j].1 as int) == (
                opt_view(assignments@[j].owner_name),
                assignments@[j].line as int,
            ),
            forall|j: int| assignments@.len() <= j < assignments@.len() + k ==> (opt_view(#[trigger] range_items@[j].0), range_items@[j].1 as int) == (
                Some(return_sites@[j - assignments@.len()].owner_name@),
                return_sites@[j - assignments@.len()].line as int,
            ),
        decreases return_sites@.len() - k,
    {
        range_items.push((Some(return_sites[k].owner_name.clone()), return_sites[k].line));
        k = k + 1;
    }
    let ranges = owner_line_ranges(range_items.as_slice());
    let ghost rv = range_items@.map_values(|x: (Option<String>, usize)| (opt_view(x.0), x.1 as int));
    assert forall|j: int| 0 <= j < range_items@.len() implies #[trigger] rv[j] == spec_range_items(assignments@, return_sites@)[j] by {
        assert(rv[j] == (opt_view(range_items@[j].0), range_items@[j].1 as int));
    }
    assert(range_items@.map_values(|x: (Option<String>, usize)| (opt_view(x.0), x.1 as int)) =~= spec_range_items(assignments@, return_sites@));
    // Markers: the same items sorted stably by line.
    let mut marker_items: Vec<LineItem> = Vec::new();
    let mut i2: usize = 0;
    while i2 < assignments.len()
        invariant
            i2 <= assignments@.len(),
            marker_items@ == Seq::new(i2 as nat, |q: int| (assignments@[q].line, 0u8, 0usize, q as usize)),
        decreases assignments@.len() - i2,
    {
        marker_items.push((assignments[i2].line, 0, 0, i2));
        assert(marker_items@ =~= Seq::new((i2 + 1) as nat, |q: int| (assignments@[q].line, 0u8, 0usize, q as usize)));
        i2 = i2 + 1;
    }
    let mut k2: usize = 0;
    while k2 < return_sites.len()
        invariant
            k2 <= return_sites@.len(),
            marker_items@ == Seq::new(assignments@.len(), |q: int| (assignments@[q].line, 0u8, 0usize, q as usize)) + Seq::new(k2 as nat, |q: int| (return_sites@[q].line, 0u8, 1usize, q as usize)),
        decreases return_sites@.len() - k2,
    {
        marker_items.push((return_sites[k2].line, 0, 1, k2));
        assert(marker_items@ =~= Seq::new(assignments@.len(), |q: int| (assignments@[q].line, 0u8, 0usize, q as usize)) + Seq::new((k2 + 1) as nat, |q: int| (return_sites@[q].line, 0u8, 1usize, q as usize)));
        k2 = k2 + 1;
    }
    let sorted_markers = sort_line_items(&marker_items);
    proof {
        lemma_sort_elements(marker_items@);
    }
    let mut markers: Vec<(usize, Option<String>)> = Vec::new();
    let mut p: usize = 0;
    while p < sorted_markers.len()
        invariant
            p <= sorted_markers@.len(),
            sorted_markers@ == sort_stable(marker_items@),
            marker_items@ == Seq::new(assignments@.len(), |q: int| (assignments@[q].line, 0u8, 0usize, q as usize)) + Seq::new(return_sites@.len(), |q: int| (return_sites@[q].line, 0u8, 1usize, q as usize)),
            forall|y: LineItem| #[trigger] sort_stable(marker_items@).contains(y) ==> marker_items@.contains(y),
            markers@.len() == p,
            forall|j: int| 0 <= j < p ==> markers_view(markers@)[j] == (
                sorted_markers@[j].0 as int,
                if sorted_markers@[j].2 == 0 {
                    opt_view(assignments@[sorted_markers@[j].3 as int].owner_name)
                } else {
                    Some(return_sites@[sorted_markers@[j].3 as int].owner_name@)
                },
            ),
        decreases sorted_markers@.len() - p,
    {
        let it = sorted_markers[p];
        assert(sort_stable(marker_items@).contains(it));
        let ghost w = choose|w: int| 0 <= w < marker_items@.len() && marker_items@[w] == it;
        let owner = if it.2 == 0 {
            assert(it.3 < assignments@.len());
            clone_opt(&assignments[it.3].owner_name)
        } else {
            assert(it.3 < return_sites@.len());
            Some(return_sites[it.3].owner_name.clone())
        };
        let ghost before = markers@;
        markers.push((it.0, owner));
        proof {
            assert forall|j: int| 0 <= j < p + 1 implies markers_view(markers@)[j] == (
                sorted_markers@[j].0 as int,
                if sorted_markers@[j].2 == 0 {
                    opt_view(assignments@[sorted_markers@[j].3 as int].owner_name)
                } else {
                    Some(return_sites@[sorted_markers@[j].3 as int].owner_name@)
                },
            ) by {
                assert(markers_view(markers@)[j] == (markers@[j].0 as int, opt_view(markers@[j].1)));
                if j < p {
                    assert(markers@[j] == before[j]);
                    assert(markers_view(before)[j] == (before[j].0 as int, opt_view(before[j].1)));
                }
            }
        }
        p = p + 1;
    }
    assert(markers_view(markers@) =~= spec_markers(assignments@, return_sites@));
    // Events.
    let mut items: Vec<LineItem> = Vec::new();
    let mut a3: usize = 0;
    while a3 < assignments.len()
        invariant
            a3 <= assignments@.len(),
            items@ == Seq::new(a3 as nat, |q: int| (assignments@[q].line, 1u8, 2usize, q as usize)),
        decreases assignments@.len() - a3,
    {
        items.push((assignments[a3].line, 1, 2, a3));
        assert(items@ =~= Seq::new((a3 + 1) as nat, |q: int| (assignments@[q].line, 1u8, 2usize, q as usize)));
        a3 = a3 + 1;
    }
    let ghost a_part = items@;
    let mut c3: usize = 0;
    while c3 < calls.len()
        invariant
            c3 <= calls@.len(),
            items@ == a_part + Seq::new(c3 as nat, |q: int| (calls@[q].line, 0u8, 0usize, q as usize)),
        decreases calls@.len() - c3,
    {
        items.push((calls[c3].line, 0, 0, c3));
        assert(items@ =~= a_part + Seq::new((c3 + 1) as nat, |q: int| (calls@[q].line, 0u8, 0usize, q as usize)));
        c3 = c3 + 1;
    }
    let ghost ac_part = items@;
    let mut m3: usize = 0;
    while m3 < method_calls.len()
        invariant
            m3 <= method_calls@.len(),
            items@ == ac_part + Seq::new(m3 as nat, |q: int| (method_calls@[q].line, 0u8, 1usize, q as usize)),
        decreases method_calls@.len() - m3,
    {
        items.push((method_calls[m3].line, 0, 1, m3));
        assert(items@ =~= ac_part + Seq::new((m3 + 1) as nat, |q: int| (method_calls@[q].line, 0u8, 1usize, q as usize)));
        m3 = m3 + 1;
    }
    let sorted = sort_line_items(&items);
    proof {
        lemma_sort_elements(items@);
        assert forall|q: int| 0 <= q < sorted@.len() implies {
            let it = #[trigger] sorted@[q];
            &&& it.2 == 0 ==> it.3 < calls@.len()
            &&& it.2 == 1 ==> it.3 < method_calls@.len()
            &&& it.2 != 0 && it.2 != 1 ==> it.3 < assignments@.len()
        } by {
            let it = sorted@[q];
            assert(sort_stable(items@).contains(it));
            let w = choose|w: int| 0 <= w < items@.len() && items@[w] == it;
        }
    }
    let res = taint_run(path, &decorated, &ranges, &markers, assignments, calls, method_calls, &sorted);
    proof {
        let f1 = |o: Option<Seq<char>>| range_of(ranges@, o);
        let f2 = |o: Option<Seq<char>>| spec_range_after(spec_range_items(assignments@, return_sites@), o);
        assert(f1 =~= f2);
    }
    res
}

} // verus!
