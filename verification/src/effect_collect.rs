//! Gathering the effect summaries of a module from what was loaded for it: the effects its
//! decorators declare, the rows framework adapters grant, the scopes of `unsafe:` blocks, the
//! standard-library imports, and the stored summary facts.
use vstd::prelude::*;
use crate::effect_row::{EffectKind, EffectRow, SpecEffectKind, sorted_kinds, spec_labels};
use crate::effect_summary::{SummaryEffectFact, clone_opt, opt_str_eq};
use crate::declarations::{string_views, opt_name_lt};
use crate::text::{chars_lt, str_lt, join2};
use crate::effect_summary::{CapabilityScope, EffectSource, EffectSummary, SpecEffectSource, SummaryKey, opt_view};
use crate::table::KeyTable;
use crate::taint_check::{FrameworkCapability, FrameworkProvider, DecoratedCallable};
use crate::text::{owned, str_eq, starts_with, str_starts_with};
use crate::inference::{SummaryView, summary_view};
use crate::signatures::SemanticImportTargetRef;
use crate::decorators::{
    spec_stdlib_effect_kind, spec_stdlib_symbols, spec_effectful_symbols, pair_names,
    stdlib_symbol_effect_row, stdlib_module_effect_methods,
    spec_decorator_short_name, spec_effect_kind_from_decorator, spec_lifecycle_effect_decorator,
    decorator_short_name, effect_kind_from_decorator, lifecycle_effect_decorator,
};

verus! {

/// Whether an effect label is a taint role.
pub open spec fn spec_is_taint_effect_label(label: Seq<char>) -> bool {
    starts_with(label, "taint."@)
}

/// Whether an effect label is a taint role: it starts with `taint.`.
pub fn is_taint_effect_label(label: &str) -> (res: bool)
    ensures
        res == spec_is_taint_effect_label(label@),
{
    str_starts_with(label, "taint.")
}

/// The effect a framework-transform capability grants, if any.
pub open spec fn spec_capability_effect(c: FrameworkCapability) -> Option<SpecEffectKind> {
    match c {
        FrameworkCapability::EffectUnsafe => Some(SpecEffectKind::Unsafe),
        FrameworkCapability::EffectIoFs => Some(SpecEffectKind::IoFs),
        FrameworkCapability::EffectIoNet => Some(SpecEffectKind::IoNet),
        FrameworkCapability::EffectIoProc => Some(SpecEffectKind::IoProc),
        FrameworkCapability::EffectTime => Some(SpecEffectKind::Time),
        FrameworkCapability::EffectRandom => Some(SpecEffectKind::Random),
        FrameworkCapability::EffectRuntimeValidation => Some(SpecEffectKind::RuntimeValidation),
        FrameworkCapability::ValidatorWitness => Some(SpecEffectKind::RuntimeValidation),
        FrameworkCapability::EffectTaintSanitize => Some(SpecEffectKind::TaintSanitize),
        FrameworkCapability::TaintSanitizer => Some(SpecEffectKind::TaintSanitize),
        FrameworkCapability::TaintSource => Some(SpecEffectKind::Declared("taint.source"@)),
        FrameworkCapability::TaintSink => Some(SpecEffectKind::Declared("taint.sink"@)),
        FrameworkCapability::Other => None,
    }
}

/// The effect a framework-transform capability grants, if any.
pub fn framework_capability_effect_kind(capability: &FrameworkCapability) -> (res: Option<EffectKind>)
    ensures
        crate::decorators::opt_kind(res) == spec_capability_effect(*capability),
{
    match capability {
        FrameworkCapability::EffectUnsafe => Some(EffectKind::Unsafe),
        FrameworkCapability::EffectIoFs => Some(EffectKind::IoFs),
        FrameworkCapability::EffectIoNet => Some(EffectKind::IoNet),
        FrameworkCapability::EffectIoProc => Some(EffectKind::IoProc),
        FrameworkCapability::EffectTime => Some(EffectKind::Time),
        FrameworkCapability::EffectRandom => Some(EffectKind::Random),
        FrameworkCapability::EffectRuntimeValidation => Some(EffectKind::RuntimeValidation),
        FrameworkCapability::ValidatorWitness => Some(EffectKind::RuntimeValidation),
        FrameworkCapability::EffectTaintSanitize => Some(EffectKind::TaintSanitize),
        FrameworkCapability::TaintSanitizer => Some(EffectKind::TaintSanitize),
        FrameworkCapability::TaintSource => Some(EffectKind::Declared(owned("taint.source"))),
        FrameworkCapability::TaintSink => Some(EffectKind::Declared(owned("taint.sink"))),
        FrameworkCapability::Other => None,
    }
}

/// The effects a provider's capabilities grant.
pub open spec fn spec_capabilities_row(caps: Seq<FrameworkCapability>) -> Set<SpecEffectKind> {
    Set::new(|k: SpecEffectKind| exists|i: int| 0 <= i < caps.len() && #[trigger] spec_capability_effect(caps[i]) == Some(k))
}

/// The source recorded for an adapter's row.
pub open spec fn spec_adapter_source(name: Seq<char>) -> SpecEffectSource {
    SpecEffectSource::Decorator("framework_transform capability on `"@ + name + "`"@)
}

/// The rows each function-decorator provider with some effect grants, keyed by provider name,
/// with their sources; a later provider of the same name replaces an earlier one.
pub open spec fn spec_adapter_effect_rows(providers: Seq<FrameworkProvider>) -> Map<
    SummaryKey,
    (Set<SpecEffectKind>, SpecEffectSource),
>
    decreases providers.len(),
{
    if providers.len() == 0 {
        Map::empty()
    } else {
        let prev = spec_adapter_effect_rows(providers.drop_last());
        let p = providers.last();
        let row = spec_capabilities_row(p.capabilities@);
        if p.function_decorator && row != Set::<SpecEffectKind>::empty() {
            prev.insert((None, p.name@), (row, spec_adapter_source(p.name@)))
        } else {
            prev
        }
    }
}

/// An adapter table: its rows are in order and match `rows` key by key.
pub open spec fn adapter_table_matches(
    table: Map<SummaryKey, (Seq<SpecEffectKind>, SpecEffectSource)>,
    rows: Map<SummaryKey, (Set<SpecEffectKind>, SpecEffectSource)>,
) -> bool {
    &&& table.dom() == rows.dom()
    &&& forall|k: SummaryKey| #[trigger] table.contains_key(k) ==> sorted_kinds(table[k].0)
        && table[k].0.to_set() == rows[k].0 && table[k].1 == rows[k].1
}

/// Two adapter tables matching the same rows are the same table.
pub proof fn lemma_adapter_table_unique(
    a: Map<SummaryKey, (Seq<SpecEffectKind>, SpecEffectSource)>,
    b: Map<SummaryKey, (Seq<SpecEffectKind>, SpecEffectSource)>,
    rows: Map<SummaryKey, (Set<SpecEffectKind>, SpecEffectSource)>,
)
    requires
        adapter_table_matches(a, rows),
        adapter_table_matches(b, rows),
    ensures
        a == b,
{
    assert forall|k: SummaryKey| #[trigger] a.contains_key(k) implies a[k] == b[k] by {
        crate::effect_row::lemma_row_set_eq(a[k].0, b[k].0);
    }
    assert(a =~= b);
}

/// The adapter table of the providers: for each function-decorator provider with some effect,
/// its row in order and its source.
pub open spec fn spec_adapter_table(providers: Seq<FrameworkProvider>) -> Map<
    SummaryKey,
    (Seq<SpecEffectKind>, SpecEffectSource),
> {
    choose|m: Map<SummaryKey, (Seq<SpecEffectKind>, SpecEffectSource)>|
        adapter_table_matches(m, spec_adapter_effect_rows(providers))
}

proof fn lemma_empty_row_set(s: Seq<SpecEffectKind>)
    ensures
        (s.len() == 0) == (s.to_set() == Set::<SpecEffectKind>::empty()),
{
    if s.len() == 0 {
        assert(s.to_set() =~= Set::<SpecEffectKind>::empty());
    } else {
        assert(s.to_set().contains(s[0]));
    }
}

fn capabilities_row(caps: &Vec<FrameworkCapability>) -> (res: EffectRow)
    ensures
        res.wf(),
        res@.to_set() == spec_capabilities_row(caps@),
{
    let mut row = EffectRow::empty();
    let n = caps.len();
    let mut i: usize = 0;
    assert(row@.to_set() =~= Set::<SpecEffectKind>::empty());
    while i < n
        invariant
            n == caps@.len(),
            i <= n,
            row.wf(),
            row@.to_set() == Set::new(
                |k: SpecEffectKind| exists|j: int| 0 <= j < i && #[trigger] spec_capability_effect(caps@[j]) == Some(k),
            ),
        decreases n - i,
    {
        let ghost before = row@.to_set();
        match framework_capability_effect_kind(&caps[i]) {
            Some(e) => {
                row.insert(e);
            },
            None => {},
        }
        assert(row@.to_set() =~= Set::new(
            |k: SpecEffectKind| exists|j: int| 0 <= j < i + 1 && #[trigger] spec_capability_effect(caps@[j]) == Some(k),
        )) by {
            assert forall|k: SpecEffectKind| (exists|j: int| 0 <= j < i + 1 && #[trigger] spec_capability_effect(caps@[j]) == Some(k)) implies row@.to_set().contains(k) by {
                let j = choose|j: int| 0 <= j < i + 1 && #[trigger] spec_capability_effect(caps@[j]) == Some(k);
                if j < i {
                    assert(before.contains(k));
                }
            }
        }
        i = i + 1;
    }
    assert(spec_capabilities_row(caps@) =~= row@.to_set());
    row
}

/// The rows that function-decorator providers grant, keyed by provider name, each with the
/// source that names the provider.
pub fn adapter_effect_rows(providers: &Vec<FrameworkProvider>) -> (res: KeyTable<(EffectRow, EffectSource)>)
    ensures
        res.wf(),
        adapter_table_matches(res@, spec_adapter_effect_rows(providers@)),
        res@ == spec_adapter_table(providers@),
{
    let mut table: KeyTable<(EffectRow, EffectSource)> = KeyTable::new();
    let n = providers.len();
    let mut i: usize = 0;
    assert(providers@.take(0) =~= Seq::<FrameworkProvider>::empty());
    assert(table@.dom() =~= spec_adapter_effect_rows(providers@.take(0)).dom());
    while i < n
        invariant
            n == providers@.len(),
            i <= n,
            table.wf(),
            adapter_table_matches(table@, spec_adapter_effect_rows(providers@.take(i as int))),
        decreases n - i,
    {
        let p = &providers[i];
        assert(providers@.take(i + 1).drop_last() =~= providers@.take(i as int));
        assert(providers@.take(i + 1).last() == *p);
        let ghost prev = spec_adapter_effect_rows(providers@.take(i as int));
        let ghost next = spec_adapter_effect_rows(providers@.take(i + 1));
        if p.function_decorator {
            let row = capabilities_row(&p.capabilities);
            proof {
                lemma_empty_row_set(row@);
            }
            if !row.is_empty() {
                let mut text = owned("framework_transform capability on `");
                text.append(&p.name);
                text.append("`");
                let ghost rv = row@;
                table.set(None, p.name.clone(), (row, EffectSource::Decorator(text)));
                assert(table@.dom() =~= next.dom());
            }
        }
        i = i + 1;
    }
    assert(providers@.take(n as int) =~= providers@);
    proof {
        let m = spec_adapter_table(providers@);
        lemma_adapter_table_unique(table@, m, spec_adapter_effect_rows(providers@));
    }
    table
}

/// The scopes in which `unsafe` is granted: the capability ranges, or when there are none the
/// lines of unsafe operations inside `unsafe:` blocks, each as a one-line range.
pub open spec fn spec_capability_ranges(
    ranges: Seq<(usize, usize)>,
    unsafe_sites: Seq<(usize, bool)>,
) -> Seq<(usize, usize)>
    decreases unsafe_sites.len(),
{
    if ranges.len() > 0 {
        ranges
    } else if unsafe_sites.len() == 0 {
        Seq::empty()
    } else {
        let prev = spec_capability_ranges(ranges, unsafe_sites.drop_last());
        let site = unsafe_sites.last();
        if site.1 {
            prev.push((site.0, site.0))
        } else {
            prev
        }
    }
}

/// The capability scopes of a module: each range grants `unsafe`, sourced from an unsafe block.
pub fn collect_capability_scopes(
    ranges: Vec<(usize, usize)>,
    unsafe_sites: &Vec<(usize, bool)>,
) -> (res: Vec<CapabilityScope>)
    ensures
        res@.len() == spec_capability_ranges(ranges@, unsafe_sites@).len(),
        forall|j: int|
            0 <= j < res@.len() ==> {
                let r = spec_capability_ranges(ranges@, unsafe_sites@)[j];
                &&& (#[trigger] res@[j]).line_start == r.0
                &&& res@[j].line_end == r.1
                &&& res@[j].grants.wf()
                &&& res@[j].grants@ == seq![SpecEffectKind::Unsafe]
                &&& res@[j].source@ == SpecEffectSource::UnsafeBlock
            },
{
    let mut effective = ranges;
    if effective.len() == 0 {
        let n = unsafe_sites.len();
        let mut i: usize = 0;
        assert(unsafe_sites@.take(0) =~= Seq::<(usize, bool)>::empty());
        while i < n
            invariant
                n == unsafe_sites@.len(),
                i <= n,
                ranges@.len() == 0,
                effective@ == spec_capability_ranges(ranges@, unsafe_sites@.take(i as int)),
            decreases n - i,
        {
            assert(unsafe_sites@.take(i + 1).drop_last() =~= unsafe_sites@.take(i as int));
            assert(unsafe_sites@.take(i + 1).last() == unsafe_sites@[i as int]);
            let site = unsafe_sites[i];
            if site.1 {
                effective.push((site.0, site.0));
            }
            i = i + 1;
        }
        assert(unsafe_sites@.take(n as int) =~= unsafe_sites@);
    }
    let ghost eff = effective@;
    assert(eff == spec_capability_ranges(ranges@, unsafe_sites@));
    let mut scopes: Vec<CapabilityScope> = Vec::new();
    let m = effective.len();
    let mut j: usize = 0;
    while j < m
        invariant
            m == eff.len(),
            eff == effective@,
            j <= m,
            scopes@.len() == j,
            forall|k: int|
                0 <= k < j ==> {
                    let r = eff[k];
                    &&& (#[trigger] scopes@[k]).line_start == r.0
                    &&& scopes@[k].line_end == r.1
                    &&& scopes@[k].grants.wf()
                    &&& scopes@[k].grants@ == seq![SpecEffectKind::Unsafe]
                    &&& scopes@[k].source@ == SpecEffectSource::UnsafeBlock
                },
        decreases m - j,
    {
        let (line_start, line_end) = effective[j];
        let mut grants = EffectRow::empty();
        grants.insert(EffectKind::Unsafe);
        proof {
            let g = grants@;
            assert(g.to_set() =~= set![SpecEffectKind::Unsafe]);
            crate::effect_row::lemma_row_set_eq(g, seq![SpecEffectKind::Unsafe]);
            assert(seq![SpecEffectKind::Unsafe].to_set() =~= set![SpecEffectKind::Unsafe]) by {
                assert(seq![SpecEffectKind::Unsafe][0] == SpecEffectKind::Unsafe);
            }
        }
        scopes.push(CapabilityScope { line_start, line_end, grants, source: EffectSource::UnsafeBlock });
        j = j + 1;
    }
    scopes
}

/// What a callable's decorators have declared so far: purity, effects and their sources.
pub struct LocalState {
    pub pure: bool,
    pub row: Set<SpecEffectKind>,
    pub sources: Seq<SpecEffectSource>,
}

/// The adapter entry a decorator refers to: under its short name, else under itself.
pub open spec fn spec_adapter_entry(
    adapter: Map<SummaryKey, (Seq<SpecEffectKind>, SpecEffectSource)>,
    short: Seq<char>,
    decorator: Seq<char>,
) -> Option<(Seq<SpecEffectKind>, SpecEffectSource)> {
    if adapter.contains_key((None, short)) {
        Some(adapter[(None, short)])
    } else if adapter.contains_key((None, decorator)) {
        Some(adapter[(None, decorator)])
    } else {
        None
    }
}

/// Reading one decorator: `@effect_pure` or `@pure` marks the callable pure; a declared effect
/// or a lifecycle decorator adds its effect; an adapter named by the decorator adds its row.
pub open spec fn spec_local_step(
    adapter: Map<SummaryKey, (Seq<SpecEffectKind>, SpecEffectSource)>,
    st: LocalState,
    decorator: Seq<char>,
) -> LocalState {
    let short = spec_decorator_short_name(decorator);
    let st1 = if short == "effect_pure"@ || short == "pure"@ {
        LocalState {
            pure: true,
            row: st.row,
            sources: st.sources.push(SpecEffectSource::Decorator(decorator)),
        }
    } else {
        match spec_effect_kind_from_decorator(short) {
            Some(k) => LocalState {
                pure: st.pure,
                row: st.row.insert(k),
                sources: st.sources.push(SpecEffectSource::Decorator(decorator)),
            },
            None => if spec_lifecycle_effect_decorator(short) {
                LocalState {
                    pure: st.pure,
                    row: st.row.insert(SpecEffectKind::Declared("resource.lifecycle"@)),
                    sources: st.sources.push(SpecEffectSource::Lifecycle(decorator)),
                }
            } else {
                st
            },
        }
    };
    match spec_adapter_entry(adapter, short, decorator) {
        Some((r, src)) => LocalState {
            pure: st1.pure,
            row: st1.row.union(r.to_set()),
            sources: st1.sources.push(src),
        },
        None => st1,
    }
}

/// What a callable's decorators declare, read in order.
pub open spec fn spec_local_state(
    adapter: Map<SummaryKey, (Seq<SpecEffectKind>, SpecEffectSource)>,
    decorators: Seq<String>,
) -> LocalState
    decreases decorators.len(),
{
    if decorators.len() == 0 {
        LocalState { pure: false, row: Set::empty(), sources: Seq::empty() }
    } else {
        spec_local_step(adapter, spec_local_state(adapter, decorators.drop_last()), decorators.last()@)
    }
}

/// The positions of the callables that get a summary: those declared pure or with some effect.
pub open spec fn spec_kept_callables(
    adapter: Map<SummaryKey, (Seq<SpecEffectKind>, SpecEffectSource)>,
    callables: Seq<DecoratedCallable>,
) -> Seq<int>
    decreases callables.len(),
{
    if callables.len() == 0 {
        Seq::empty()
    } else {
        let prev = spec_kept_callables(adapter, callables.drop_last());
        let st = spec_local_state(adapter, callables.last().decorators@);
        if st.pure || st.row != Set::<SpecEffectKind>::empty() {
            prev.push(callables.len() - 1)
        } else {
            prev
        }
    }
}

/// The sources taken by their views.
pub open spec fn source_views(s: Seq<EffectSource>) -> Seq<SpecEffectSource> {
    s.map_values(|x: EffectSource| x@)
}

/// A summary is the one a callable's decorators give.
pub open spec fn summary_of_callable(s: EffectSummary, c: DecoratedCallable, st: LocalState) -> bool {
    &&& s.callable@ == c.name@
    &&& opt_view(s.owner_type_name) == opt_view(c.owner_type_name)
    &&& s.pure == st.pure
    &&& s.row.wf()
    &&& s.row@.to_set() == st.row
    &&& source_views(s.sources@) == st.sources
    &&& s.line == c.line
}

fn local_state(adapter: &KeyTable<(EffectRow, EffectSource)>, decorators: &Vec<String>) -> (res: (
    bool,
    EffectRow,
    Vec<EffectSource>,
))
    requires
        adapter.wf(),
    ensures
        res.1.wf(),
        res.0 == spec_local_state(adapter@, decorators@).pure,
        res.1@.to_set() == spec_local_state(adapter@, decorators@).row,
        source_views(res.2@) == spec_local_state(adapter@, decorators@).sources,
{
    let mut pure = false;
    let mut row = EffectRow::empty();
    let mut sources: Vec<EffectSource> = Vec::new();
    let none: Option<String> = None;
    let n = decorators.len();
    let mut i: usize = 0;
    assert(decorators@.take(0) =~= Seq::<String>::empty());
    assert(row@.to_set() =~= Set::<SpecEffectKind>::empty());
    assert(source_views(sources@) =~= Seq::<SpecEffectSource>::empty());
    while i < n
        invariant
            n == decorators@.len(),
            i <= n,
            adapter.wf(),
            none is None,
            row.wf(),
            pure == spec_local_state(adapter@, decorators@.take(i as int)).pure,
            row@.to_set() == spec_local_state(adapter@, decorators@.take(i as int)).row,
            source_views(sources@) == spec_local_state(adapter@, decorators@.take(i as int)).sources,
        decreases n - i,
    {
        let d = &decorators[i];
        assert(decorators@.take(i + 1).drop_last() =~= decorators@.take(i as int));
        assert(decorators@.take(i + 1).last() == *d);
        let short = match decorator_short_name(d) {
            Some(s) => s,
            None => owned(d),
        };
        let ghost before_sources = source_views(sources@);
        if str_eq(&short, "effect_pure") || str_eq(&short, "pure") {
            pure = true;
            sources.push(EffectSource::Decorator(d.clone()));
            assert(source_views(sources@) =~= before_sources.push(SpecEffectSource::Decorator(d@)));
        } else {
            match effect_kind_from_decorator(&short) {
                Some(e) => {
                    row.insert(e);
                    sources.push(EffectSource::Decorator(d.clone()));
                    assert(source_views(sources@) =~= before_sources.push(SpecEffectSource::Decorator(d@)));
                },
                None => {
                    if lifecycle_effect_decorator(&short) {
                        row.insert(EffectKind::Declared(owned("resource.lifecycle")));
                        sources.push(EffectSource::Lifecycle(d.clone()));
                        assert(source_views(sources@) =~= before_sources.push(SpecEffectSource::Lifecycle(d@)));
                    }
                },
            }
        }
        let ghost mid_sources = source_views(sources@);
        let entry = match adapter.get(&none, &short) {
            Some(e) => Some(e),
            None => adapter.get(&none, d),
        };
        match entry {
            Some(e) => {
                row.extend(&e.0);
                sources.push(e.1.duplicate());
                assert(source_views(sources@) =~= mid_sources.push(e.1@));
            },
            None => {},
        }
        i = i + 1;
    }
    assert(decorators@.take(n as int) =~= decorators@);
    (pure, row, sources)
}

/// The summaries `out` are those of the callables at the positions `kept`, all before `bound`.
pub open spec fn summaries_of_kept(
    adapter: Map<SummaryKey, (Seq<SpecEffectKind>, SpecEffectSource)>,
    callables: Seq<DecoratedCallable>,
    kept: Seq<int>,
    out: Seq<EffectSummary>,
    bound: int,
) -> bool {
    &&& out.len() == kept.len()
    &&& forall|j: int| 0 <= j < out.len() ==> 0 <= #[trigger] kept[j] < bound
    &&& forall|j: int|
        0 <= j < out.len() ==> summary_of_callable(
            #[trigger] out[j],
            callables[kept[j]],
            spec_local_state(adapter, callables[kept[j]].decorators@),
        )
}

/// The summaries of a module's callables that their decorators declare pure or effectful, in
/// the order of the callables.
pub fn collect_local_effect_summaries(
    callables: &Vec<DecoratedCallable>,
    adapter: &KeyTable<(EffectRow, EffectSource)>,
) -> (res: Vec<EffectSummary>)
    requires
        adapter.wf(),
    ensures
        summaries_of_kept(
            adapter@,
            callables@,
            spec_kept_callables(adapter@, callables@),
            res@,
            callables@.len() as int,
        ),
{
    let mut out: Vec<EffectSummary> = Vec::new();
    let n = callables.len();
    let mut i: usize = 0;
    assert(callables@.take(0) =~= Seq::<DecoratedCallable>::empty());
    while i < n
        invariant
            n == callables@.len(),
            i <= n,
            adapter.wf(),
            summaries_of_kept(
                adapter@,
                callables@,
                spec_kept_callables(adapter@, callables@.take(i as int)),
                out@,
                i as int,
            ),
        decreases n - i,
    {
        let c = &callables[i];
        assert(callables@.take(i + 1).drop_last() =~= callables@.take(i as int));
        assert(callables@.take(i + 1).last() == *c);
        let (pure, row, sources) = local_state(adapter, &c.decorators);
        proof {
            lemma_empty_row_set(row@);
        }
        let ghost before = out@;
        let ghost prev = spec_kept_callables(adapter@, callables@.take(i as int));
        if pure || !row.is_empty() {
            out.push(EffectSummary {
                callable: c.name.clone(),
                owner_type_name: crate::effect_summary::clone_opt(&c.owner_type_name),
                pure,
                row,
                sources,
                line: c.line,
            });
            proof {
                let st = spec_local_state(adapter@, callables@[i as int].decorators@);
                let kept = prev.push(i as int);
                assert(spec_kept_callables(adapter@, callables@.take(i + 1)) == kept);
                assert(summary_of_callable(out@[before.len() as int], callables@[i as int], st));
                assert forall|j: int| 0 <= j < out@.len() implies 0 <= #[trigger] kept[j] < i + 1 by {
                    if j < before.len() {
                        assert(kept[j] == prev[j]);
                    }
                }
                assert forall|j: int| 0 <= j < out@.len() implies summary_of_callable(
                    #[trigger] out@[j],
                    callables@[kept[j]],
                    spec_local_state(adapter@, callables@[kept[j]].decorators@),
                ) by {
                    if j < before.len() {
                        assert(out@[j] == before[j]);
                        assert(kept[j] == prev[j]);
                    }
                }
            }
        } else {
            proof {
                assert(spec_kept_callables(adapter@, callables@.take(i + 1)) == prev);
            }
        }
        i = i + 1;
    }
    assert(callables@.take(n as int) =~= callables@);
    out
}

/// The summary of one effectful standard-library function as seen under a local name.
pub open spec fn stdlib_summary_view(
    owner: Option<Seq<char>>,
    callable: Seq<char>,
    kind: SpecEffectKind,
    source: Seq<char>,
) -> SummaryView {
    SummaryView {
        key: (owner, callable),
        pure: false,
        row: set![kind],
        sources: seq![SpecEffectSource::Stdlib(source)],
        line: 1,
    }
}

/// The summaries of the effectful functions of `module` imported as `local`: one per function,
/// owned by the local name.
pub open spec fn spec_module_method_summaries(
    local: Seq<char>,
    module: Seq<char>,
    methods: Seq<Seq<char>>,
) -> Seq<SummaryView>
    decreases methods.len(),
{
    if methods.len() == 0 {
        Seq::empty()
    } else {
        let m = methods.last();
        spec_module_method_summaries(local, module, methods.drop_last()).push(
            stdlib_summary_view(
                Some(local),
                m,
                spec_stdlib_effect_kind(module, m).unwrap(),
                module + "."@ + m,
            ),
        )
    }
}

/// The summaries one import contributes: the imported standard-library function when it has an
/// effect, else the effectful functions of the imported module.
pub open spec fn spec_import_summaries(local: Seq<char>, target: SemanticImportTargetRef) -> Seq<
    SummaryView,
> {
    let symbol_kind = match target.symbol_target {
        Some(t) => spec_stdlib_effect_kind(t.module_key@, t.symbol_name@),
        None => None,
    };
    match symbol_kind {
        Some(k) => seq![stdlib_summary_view(None, local, k, target.raw_target@)],
        None => spec_module_method_summaries(
            local,
            target.raw_target@,
            spec_effectful_symbols(target.raw_target@, spec_stdlib_symbols(target.raw_target@)),
        ),
    }
}

/// The summaries the imports of a module contribute, import by import.
pub open spec fn spec_stdlib_summaries(imports: Seq<(String, SemanticImportTargetRef)>) -> Seq<SummaryView>
    decreases imports.len(),
{
    if imports.len() == 0 {
        Seq::empty()
    } else {
        let (local, target) = imports.last();
        spec_stdlib_summaries(imports.drop_last()) + spec_import_summaries(local@, target)
    }
}

/// The summaries taken by their views.
pub open spec fn summary_views(s: Seq<EffectSummary>) -> Seq<SummaryView> {
    s.map_values(|x: EffectSummary| summary_view(x))
}

proof fn lemma_single_row(k: SpecEffectKind)
    ensures
        seq![k].to_set() == set![k],
{
    assert(seq![k].to_set() =~= set![k]) by {
        assert(seq![k][0] == k);
    }
}

/// The effect summaries that the module-level imports of standard-library functions and modules
/// contribute, given each import's local name and target.
pub fn collect_stdlib_effect_summaries(imports: &Vec<(String, SemanticImportTargetRef)>) -> (res: Vec<
    EffectSummary,
>)
    ensures
        summary_views(res@) == spec_stdlib_summaries(imports@),
        forall|j: int| 0 <= j < res@.len() ==> (#[trigger] res@[j]).wf(),
{
    let mut out: Vec<EffectSummary> = Vec::new();
    let n = imports.len();
    let mut i: usize = 0;
    assert(imports@.take(0) =~= Seq::<(String, SemanticImportTargetRef)>::empty());
    assert(summary_views(out@) =~= Seq::<SummaryView>::empty());
    while i < n
        invariant
            n == imports@.len(),
            i <= n,
            summary_views(out@) == spec_stdlib_summaries(imports@.take(i as int)),
            forall|j: int| 0 <= j < out@.len() ==> (#[trigger] out@[j]).wf(),
        decreases n - i,
    {
        let (local, target) = &imports[i];
        assert(imports@.take(i + 1).drop_last() =~= imports@.take(i as int));
        assert(imports@.take(i + 1).last() == imports@[i as int]);
        let ghost base = summary_views(out@);
        let ghost expected = spec_import_summaries(local@, *target);
        let symbol_row = match &target.symbol_target {
            Some(t) => stdlib_symbol_effect_row(&t.module_key, &t.symbol_name),
            None => None,
        };
        match symbol_row {
            Some(row) => {
                let ghost k = row@[0];
                proof {
                    lemma_single_row(k);
                }
                let mut sources: Vec<EffectSource> = Vec::new();
                sources.push(EffectSource::Stdlib(target.raw_target.clone()));
                let ghost before = out@;
                out.push(EffectSummary {
                    callable: local.clone(),
                    owner_type_name: None,
                    pure: false,
                    row,
                    sources,
                    line: 1,
                });
                proof {
                    assert(summary_view(out@[before.len() as int]).sources =~= seq![SpecEffectSource::Stdlib(target.raw_target@)]);
                    assert(summary_view(out@[before.len() as int]) == expected[0]);
                    assert(expected =~= seq![expected[0]]);
                    assert(summary_views(out@) =~= base + expected);
                }
            },
            None => {
                let methods = stdlib_module_effect_methods(&target.raw_target);
                let ghost mnames = pair_names(methods@);
                let m = methods.len();
                let mut q: usize = 0;
                assert(mnames.take(0) =~= Seq::<Seq<char>>::empty());
                assert(base + Seq::<SummaryView>::empty() =~= base);
                while q < m
                    invariant
                        m == methods@.len(),
                        q <= m,
                        mnames == pair_names(methods@),
                        forall|a: int|
                            0 <= a < methods@.len() ==> {
                                let (name, row) = #[trigger] methods@[a];
                                &&& spec_stdlib_effect_kind(target.raw_target@, name@) matches Some(k)
                                &&& row.wf()
                                &&& row@ == seq![k]
                            },
                        summary_views(out@) == base + spec_module_method_summaries(
                            local@,
                            target.raw_target@,
                            mnames.take(q as int),
                        ),
                        forall|j: int| 0 <= j < out@.len() ==> (#[trigger] out@[j]).wf(),
                    decreases m - q,
                {
                    let (method_name, row) = &methods[q];
                    assert(mnames.take(q + 1).drop_last() =~= mnames.take(q as int));
                    assert(mnames.take(q + 1).last() == method_name@);
                    let ghost k = row@[0];
                    proof {
                        lemma_single_row(k);
                    }
                    let mut text = target.raw_target.clone();
                    text.append(".");
                    text.append(method_name);
                    let mut sources: Vec<EffectSource> = Vec::new();
                    sources.push(EffectSource::Stdlib(text));
                    let ghost before = out@;
                    let ghost prev_views = summary_views(before);
                    out.push(EffectSummary {
                        callable: method_name.clone(),
                        owner_type_name: Some(local.clone()),
                        pure: false,
                        row: row.duplicate(),
                        sources,
                        line: 1,
                    });
                    proof {
                        let sv = summary_view(out@[before.len() as int]);
                        assert(sv.sources =~= seq![SpecEffectSource::Stdlib(target.raw_target@ + "."@ + method_name@)]);
                        assert(sv == stdlib_summary_view(Some(local@), method_name@, k, target.raw_target@ + "."@ + method_name@));
                        assert(summary_views(out@) =~= prev_views.push(sv));
                    }
                    q = q + 1;
                }
                assert(mnames.take(m as int) =~= mnames);
            },
        }
        proof {
            assert(spec_stdlib_summaries(imports@.take(i + 1)) == spec_stdlib_summaries(imports@.take(i as int)) + expected);
        }
        i = i + 1;
    }
    assert(imports@.take(n as int) =~= imports@);
    out
}

/// How a summary's source is stored as text.
pub open spec fn spec_stored_source_text(s: SpecEffectSource) -> Seq<char> {
    match s {
        SpecEffectSource::Decorator(n) => n,
        SpecEffectSource::Lifecycle(n) => n,
        SpecEffectSource::UnsafeBlock => "unsafe:"@,
        SpecEffectSource::Inferred(n) => "inferred:"@ + n,
        SpecEffectSource::Stdlib(n) => "stdlib:"@ + n,
    }
}

/// Whether a label is kept: effect labels when effect rows are checked, taint labels when taint
/// is checked.
pub open spec fn spec_label_kept(label: Seq<char>, effect_rows: bool, taint: bool) -> bool {
    (effect_rows && !spec_is_taint_effect_label(label)) || (taint && spec_is_taint_effect_label(label))
}

/// The labels of `labels` that are kept, in order.
pub open spec fn spec_kept_labels(labels: Seq<Seq<char>>, effect_rows: bool, taint: bool) -> Seq<Seq<char>>
    decreases labels.len(),
{
    if labels.len() == 0 {
        Seq::empty()
    } else {
        let prev = spec_kept_labels(labels.drop_last(), effect_rows, taint);
        if spec_label_kept(labels.last(), effect_rows, taint) {
            prev.push(labels.last())
        } else {
            prev
        }
    }
}

/// The plain-value view of a stored summary fact.
pub struct FactView {
    pub name: Seq<char>,
    pub owner_type_name: Option<Seq<char>>,
    pub pure: bool,
    pub effects: Seq<Seq<char>>,
    pub sources: Seq<Seq<char>>,
    pub line: nat,
}

pub open spec fn fact_view(f: SummaryEffectFact) -> FactView {
    FactView {
        name: f.name@,
        owner_type_name: opt_view(f.owner_type_name),
        pure: f.pure,
        effects: string_views(f.effects@),
        sources: string_views(f.sources@),
        line: f.line as nat,
    }
}

/// The stored facts taken by their views.
pub open spec fn fact_views(s: Seq<SummaryEffectFact>) -> Seq<FactView> {
    s.map_values(|f: SummaryEffectFact| fact_view(f))
}

/// The fact stored for a summary, keeping the labels the enabled checks read.
pub open spec fn spec_fact_of_summary(s: EffectSummary, effect_rows: bool, taint: bool) -> FactView {
    FactView {
        name: s.callable@,
        owner_type_name: opt_view(s.owner_type_name),
        pure: s.pure,
        effects: spec_kept_labels(spec_labels(s.row@), effect_rows, taint),
        sources: s.sources@.map_values(|x: EffectSource| spec_stored_source_text(x@)),
        line: s.line as nat,
    }
}

/// Whether a stored fact is kept: a pure callable when effect rows are checked, or any callable
/// with a kept label.
pub open spec fn spec_fact_kept(f: FactView, effect_rows: bool) -> bool {
    (effect_rows && f.pure) || f.effects.len() > 0
}

/// The facts of the summaries that are kept, in the order of the summaries.
pub open spec fn spec_selected_facts(summaries: Seq<EffectSummary>, effect_rows: bool, taint: bool) -> Seq<FactView>
    decreases summaries.len(),
{
    if summaries.len() == 0 {
        Seq::empty()
    } else {
        let prev = spec_selected_facts(summaries.drop_last(), effect_rows, taint);
        let f = spec_fact_of_summary(summaries.last(), effect_rows, taint);
        if spec_fact_kept(f, effect_rows) {
            prev.push(f)
        } else {
            prev
        }
    }
}

/// Fact `a` sorts strictly before `b`: by owning type, then name, then line.
pub open spec fn fact_key_lt(a: FactView, b: FactView) -> bool {
    opt_name_lt(a.owner_type_name, b.owner_type_name) || (a.owner_type_name == b.owner_type_name && (
    chars_lt(a.name, b.name) || (a.name == b.name && a.line < b.line)))
}

/// `x` placed after the last fact of `s` that does not sort after it, scanning from the end.
pub open spec fn spec_insert_fact(s: Seq<FactView>, x: FactView) -> Seq<FactView>
    decreases s.len(),
{
    if s.len() == 0 || !fact_key_lt(x, s.last()) {
        s.push(x)
    } else {
        spec_insert_fact(s.drop_last(), x).push(s.last())
    }
}

/// The facts sorted by owning type, name and line; facts with equal keys keep their order.
pub open spec fn spec_sort_facts(s: Seq<FactView>) -> Seq<FactView>
    decreases s.len(),
{
    if s.len() == 0 {
        Seq::empty()
    } else {
        spec_insert_fact(spec_sort_facts(s.drop_last()), s.last())
    }
}

proof fn lemma_insert_fact_at(s: Seq<FactView>, x: FactView, p: int)
    requires
        0 <= p <= s.len(),
        p == 0 || !fact_key_lt(x, s[p - 1]),
        forall|j: int| p <= j < s.len() ==> fact_key_lt(x, #[trigger] s[j]),
    ensures
        spec_insert_fact(s, x) == s.insert(p, x),
    decreases s.len(),
{
    if s.len() == 0 {
        assert(s.insert(p, x) =~= s.push(x));
    } else if !fact_key_lt(x, s.last()) {
        assert(p == s.len());
        assert(s.insert(p, x) =~= s.push(x));
    } else {
        lemma_insert_fact_at(s.drop_last(), x, p);
        assert(s.drop_last().insert(p, x).push(s.last()) =~= s.insert(p, x));
    }
}

fn fact_key_less(a: &SummaryEffectFact, b: &SummaryEffectFact) -> (res: bool)
    ensures
        res == fact_key_lt(fact_view(*a), fact_view(*b)),
{
    let owner_lt = match (&a.owner_type_name, &b.owner_type_name) {
        (None, Some(_)) => true,
        (Some(x), Some(y)) => str_lt(x, y),
        _ => false,
    };
    if owner_lt {
        return true;
    }
    if !opt_str_eq(&a.owner_type_name, &b.owner_type_name) {
        return false;
    }
    str_lt(&a.name, &b.name) || (crate::text::str_eq(&a.name, &b.name) && a.line < b.line)
}

fn stored_source_text(source: &EffectSource) -> (res: String)
    ensures
        res@ == spec_stored_source_text(source@),
{
    match source {
        EffectSource::Decorator(n) => n.clone(),
        EffectSource::Lifecycle(n) => n.clone(),
        EffectSource::UnsafeBlock => owned("unsafe:"),
        EffectSource::Inferred(n) => join2("inferred:", n),
        EffectSource::Stdlib(n) => join2("stdlib:", n),
    }
}

fn fact_of_summary(s: &EffectSummary, effect_rows: bool, taint: bool) -> (res: SummaryEffectFact)
    ensures
        fact_view(res) == spec_fact_of_summary(*s, effect_rows, taint),
{
    let labels = s.row.labels();
    let ghost lv = string_views(labels@);
    assert(lv == spec_labels(s.row@));
    let mut effects: Vec<String> = Vec::new();
    let mut i: usize = 0;
    assert(lv.take(0) =~= Seq::<Seq<char>>::empty());
    assert(string_views(effects@) =~= Seq::<Seq<char>>::empty());
    while i < labels.len()
        invariant
            lv == string_views(labels@),
            lv.len() == labels@.len(),
            i <= labels@.len(),
            string_views(effects@) == spec_kept_labels(lv.take(i as int), effect_rows, taint),
        decreases labels@.len() - i,
    {
        let label = &labels[i];
        assert(lv.take(i + 1).drop_last() =~= lv.take(i as int));
        assert(lv.take(i + 1).last() == label@);
        let is_taint = is_taint_effect_label(label);
        if (effect_rows && !is_taint) || (taint && is_taint) {
            let ghost before = string_views(effects@);
            effects.push(label.clone());
            assert(string_views(effects@) =~= before.push(label@));
        }
        i = i + 1;
    }
    assert(lv.take(labels@.len() as int) =~= lv);
    let mut sources: Vec<String> = Vec::new();
    let mut j: usize = 0;
    while j < s.sources.len()
        invariant
            j <= s.sources@.len(),
            string_views(sources@) == s.sources@.take(j as int).map_values(
                |x: EffectSource| spec_stored_source_text(x@),
            ),
        decreases s.sources@.len() - j,
    {
        let ghost before = string_views(sources@);
        let text = stored_source_text(&s.sources[j]);
        sources.push(text);
        assert(string_views(sources@) =~= before.push(spec_stored_source_text(s.sources@[j as int]@)));
        assert(s.sources@.take(j + 1).map_values(|x: EffectSource| spec_stored_source_text(x@))
            =~= s.sources@.take(j as int).map_values(|x: EffectSource| spec_stored_source_text(x@)).push(
            spec_stored_source_text(s.sources@[j as int]@),
        ));
        j = j + 1;
    }
    assert(s.sources@.take(s.sources@.len() as int) =~= s.sources@);
    SummaryEffectFact {
        name: s.callable.clone(),
        owner_type_name: clone_opt(&s.owner_type_name),
        pure: s.pure,
        effects,
        sources,
        line: s.line,
    }
}

/// The summary facts a module stores: one per summary, keeping the labels that the enabled
/// checks read, dropping facts left with nothing to say, ordered by owning type, name and line.
pub fn summary_effect_facts(summaries: &Vec<EffectSummary>, effect_rows: bool, taint: bool) -> (res:
    Vec<SummaryEffectFact>)
    ensures
        fact_views(res@) == spec_sort_facts(spec_selected_facts(summaries@, effect_rows, taint)),
{
    let mut selected: Vec<SummaryEffectFact> = Vec::new();
    let n = summaries.len();
    let mut i: usize = 0;
    assert(summaries@.take(0) =~= Seq::<EffectSummary>::empty());
    assert(fact_views(selected@) =~= Seq::<FactView>::empty());
    while i < n
        invariant
            n == summaries@.len(),
            i <= n,
            fact_views(selected@) == spec_selected_facts(summaries@.take(i as int), effect_rows, taint),
        decreases n - i,
    {
        assert(summaries@.take(i + 1).drop_last() =~= summaries@.take(i as int));
        assert(summaries@.take(i + 1).last() == summaries@[i as int]);
        let fact = fact_of_summary(&summaries[i], effect_rows, taint);
        if (effect_rows && fact.pure) || fact.effects.len() > 0 {
            let ghost before = fact_views(selected@);
            let ghost fv = fact_view(fact);
            selected.push(fact);
            assert(fact_views(selected@) =~= before.push(fv));
        }
        i = i + 1;
    }
    assert(summaries@.take(n as int) =~= summaries@);
    let ghost sel = fact_views(selected@);
    let mut out: Vec<SummaryEffectFact> = Vec::new();
    let mut rest = selected;
    let total_len = rest.len();
    let ghost total = sel.len();
    assert(fact_views(out@) =~= spec_sort_facts(sel.take(0)));
    let mut k: usize = 0;
    while rest.len() > 0
        invariant
            total == sel.len(),
            total == total_len,
            k + rest@.len() == total,
            forall|t: int| 0 <= t < rest@.len() ==> fact_view(#[trigger] rest@[t]) == sel[k + t],
            fact_views(out@) == spec_sort_facts(sel.take(k as int)),
        decreases rest@.len(),
    {
        let ghost old_rest = rest@;
        let x = rest.remove(0);
        assert(fact_view(x) == sel[k as int]) by {
            assert(x == old_rest[0]);
        }
        let ghost xv = fact_view(x);
        let mut p: usize = out.len();
        while p > 0 && fact_key_less(&x, &out[p - 1])
            invariant
                p <= out@.len(),
                xv == fact_view(x),
                forall|j: int| p <= j < out@.len() ==> fact_key_lt(xv, #[trigger] fact_views(out@)[j]),
            decreases p,
        {
            assert(fact_views(out@)[p - 1] == fact_view(out@[p - 1]));
            p = p - 1;
        }
        let ghost ov = fact_views(out@);
        proof {
            if p > 0 {
                assert(ov[p - 1] == fact_view(out@[p - 1]));
            }
            lemma_insert_fact_at(ov, xv, p as int);
            assert(sel.take(k + 1).drop_last() =~= sel.take(k as int));
            assert(sel.take(k + 1).last() == xv);
        }
        out.insert(p, x);
        assert(fact_views(out@) =~= ov.insert(p as int, xv));
        k = k + 1;
        assert forall|t: int| 0 <= t < rest@.len() implies fact_view(#[trigger] rest@[t]) == sel[k + t] by {
            assert(rest@[t] == old_rest[t + 1]);
        }
    }
    assert(sel.take(total as int) =~= sel);
    out
}

} // verus!
