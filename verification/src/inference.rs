//! Inference of effect summaries along call edges: a callable that calls an effectful
//! callable, and declares nothing itself, gets the callee's effects, for a bounded number of
//! rounds.
use vstd::prelude::*;
use crate::effect_row::{EffectRow, SpecEffectKind, sorted_kinds, lemma_row_set_eq};
use crate::effect_summary::{
    EffectSource, EffectSummary, SpecEffectSource, SummaryKey, opt_view, clone_opt, opt_str_eq,
    spec_display_name,
};
use crate::owners::{owner_lt, owner_precedes, lemma_owner_lt_total, lemma_owner_lt_transitive, lemma_owner_lt_irreflexive};
use crate::text::{chars_lt, str_eq, str_lt, lemma_chars_lt_irreflexive, lemma_chars_lt_transitive, lemma_chars_lt_total};

verus! {

/// What a call edge calls: a function by name, or a method of a type.
#[derive(Debug, Clone)]
pub enum EffectCallCallee {
    Function(String),
    Method { owner_type_name: String, method_name: String },
}

/// A call from the body of a function or method (the owner) on a line.
#[derive(Debug, Clone)]
pub struct EffectCallEdge {
    pub owner_type_name: Option<String>,
    pub owner_name: String,
    pub callee: EffectCallCallee,
    pub line: usize,
}

/// The plain-value view of a call edge: caller key, callee key and line.
pub struct EdgeView {
    pub owner_key: SummaryKey,
    pub callee_key: SummaryKey,
    pub line: int,
}

impl EffectCallEdge {
    pub open spec fn spec_owner_key(&self) -> SummaryKey {
        (opt_view(self.owner_type_name), self.owner_name@)
    }

    pub open spec fn spec_callee_key(&self) -> SummaryKey {
        match self.callee {
            EffectCallCallee::Function(n) => (None, n@),
            EffectCallCallee::Method { owner_type_name, method_name } => (
                Some(owner_type_name@),
                method_name@,
            ),
        }
    }

    pub open spec fn spec_view(&self) -> EdgeView {
        EdgeView { owner_key: self.spec_owner_key(), callee_key: self.spec_callee_key(), line: self.line as int }
    }

    /// The caller's key: its owning type and name.
    pub fn owner_key(&self) -> (res: (Option<String>, String))
        ensures
            (opt_view(res.0), res.1@) == self.spec_owner_key(),
    {
        (clone_opt(&self.owner_type_name), self.owner_name.clone())
    }
}

/// The plain-value view of a summary.
pub struct SummaryView {
    pub key: SummaryKey,
    pub pure: bool,
    pub row: Set<SpecEffectKind>,
    pub sources: Seq<SpecEffectSource>,
    pub line: int,
}

pub open spec fn summary_view(s: EffectSummary) -> SummaryView {
    SummaryView {
        key: s.spec_key(),
        pure: s.pure,
        row: s.row@.to_set(),
        sources: s.sources@.map_values(|x: EffectSource| x@),
        line: s.line as int,
    }
}

/// A summary declares its own effects: it is pure, or its non-empty row has a source that is
/// not an inference.
pub open spec fn is_declared(v: SummaryView) -> bool {
    v.pure || (v.row != Set::<SpecEffectKind>::empty() && exists|i: int|
        0 <= i < v.sources.len() && !(v.sources[i] is Inferred))
}

/// The keys of the seeds that declare their own effects; inference leaves these alone.
pub open spec fn declared_keys(seeds: Seq<SummaryView>) -> Set<SummaryKey> {
    Set::new(|k: SummaryKey| exists|i: int| 0 <= i < seeds.len() && seeds[i].key == k && is_declared(seeds[i]))
}

/// The summary a call resolves to among the seeds followed by the inferred summaries, if it
/// has effects: the first seed with the key, else the inferred summary with the key.
pub open spec fn spec_resolve_callee(
    seeds: Seq<SummaryView>,
    inferred: Map<SummaryKey, SummaryView>,
    key: SummaryKey,
) -> Option<SummaryView> {
    if exists|i: int|
        0 <= i < seeds.len() && seeds[i].key == key && forall|j: int| 0 <= j < i ==> seeds[j].key != key {
        let i = choose|i: int|
            0 <= i < seeds.len() && seeds[i].key == key && forall|j: int| 0 <= j < i ==> seeds[j].key != key;
        if seeds[i].row != Set::<SpecEffectKind>::empty() {
            Some(seeds[i])
        } else {
            None
        }
    } else if inferred.contains_key(key) && inferred[key].row != Set::<SpecEffectKind>::empty() {
        Some(inferred[key])
    } else {
        None
    }
}

/// The summary inference starts from for a caller first seen on `line`.
pub open spec fn fresh_summary(key: SummaryKey, line: int) -> SummaryView {
    SummaryView { key, pure: false, row: Set::empty(), sources: Seq::empty(), line }
}

/// One call edge of a round: an undeclared caller that calls an effectful callee takes on the
/// callee's effects, an inference source naming the callee, and the earlier of the two lines.
pub open spec fn spec_edge_step(
    seeds: Seq<SummaryView>,
    snapshot: Map<SummaryKey, SummaryView>,
    state: (Map<SummaryKey, SummaryView>, bool),
    edge: EdgeView,
) -> (Map<SummaryKey, SummaryView>, bool) {
    if declared_keys(seeds).contains(edge.owner_key) {
        state
    } else {
        match spec_resolve_callee(seeds, snapshot, edge.callee_key) {
            None => state,
            Some(callee) => {
                let (m, changed) = state;
                let k = edge.owner_key;
                let entry = if m.contains_key(k) {
                    m[k]
                } else {
                    fresh_summary(k, edge.line)
                };
                let row = entry.row.union(callee.row);
                let src = SpecEffectSource::Inferred(spec_display_name(callee.key.0, callee.key.1));
                let sources = if entry.sources.contains(src) {
                    entry.sources
                } else {
                    entry.sources.push(src)
                };
                let line = if edge.line < entry.line {
                    edge.line
                } else {
                    entry.line
                };
                (
                    m.insert(k, SummaryView { row, sources, line, ..entry }),
                    changed || row != entry.row,
                )
            },
        }
    }
}

/// A round over the first edges: callees resolve against the summaries as they were when the
/// round began.
pub open spec fn spec_round(
    seeds: Seq<SummaryView>,
    snapshot: Map<SummaryKey, SummaryView>,
    edges: Seq<EdgeView>,
) -> (Map<SummaryKey, SummaryView>, bool)
    decreases edges.len(),
{
    if edges.len() == 0 {
        (snapshot, false)
    } else {
        spec_edge_step(seeds, snapshot, spec_round(seeds, snapshot, edges.drop_last()), edges.last())
    }
}

/// Rounds of inference, at most `rounds` of them, stopping after a round that changed no row.
pub open spec fn spec_infer(
    seeds: Seq<SummaryView>,
    edges: Seq<EdgeView>,
    inferred: Map<SummaryKey, SummaryView>,
    rounds: nat,
) -> Map<SummaryKey, SummaryView>
    decreases rounds,
{
    if rounds == 0 {
        inferred
    } else {
        let (next, changed) = spec_round(seeds, inferred, edges);
        if changed {
            spec_infer(seeds, edges, next, (rounds - 1) as nat)
        } else {
            next
        }
    }
}

/// The order of summary keys: by owner, then by name.
pub open spec fn key_lt(a: SummaryKey, b: SummaryKey) -> bool {
    owner_lt(a.0, b.0) || (a.0 == b.0 && chars_lt(a.1, b.1))
}

pub proof fn lemma_key_lt_irreflexive(a: SummaryKey)
    ensures
        !key_lt(a, a),
{
    lemma_owner_lt_irreflexive(a.0);
    lemma_chars_lt_irreflexive(a.1);
}

pub proof fn lemma_key_lt_transitive(a: SummaryKey, b: SummaryKey, c: SummaryKey)
    requires
        key_lt(a, b),
        key_lt(b, c),
    ensures
        key_lt(a, c),
{
    if owner_lt(a.0, b.0) && owner_lt(b.0, c.0) {
        lemma_owner_lt_transitive(a.0, b.0, c.0);
    } else if a.0 == b.0 && b.0 == c.0 {
        lemma_chars_lt_transitive(a.1, b.1, c.1);
    }
}

pub proof fn lemma_key_lt_total(a: SummaryKey, b: SummaryKey)
    ensures
        a == b || key_lt(a, b) || key_lt(b, a),
{
    lemma_owner_lt_total(a.0, b.0);
    lemma_chars_lt_total(a.1, b.1);
}

/// Summaries listed in strictly increasing key order.
pub open spec fn keys_sorted(v: Seq<EffectSummary>) -> bool {
    forall|i: int, j: int| 0 <= i < j < v.len() ==> key_lt(v[i].spec_key(), v[j].spec_key())
}

/// The key-to-summary map a sorted list of summaries stands for.
pub open spec fn summaries_map(v: Seq<EffectSummary>) -> Map<SummaryKey, SummaryView> {
    Map::new(
        |k: SummaryKey| exists|i: int| 0 <= i < v.len() && v[i].spec_key() == k,
        |k: SummaryKey| summary_view(v[choose|i: int| 0 <= i < v.len() && v[i].spec_key() == k]),
    )
}

proof fn lemma_map_at(v: Seq<EffectSummary>, i: int)
    requires
        keys_sorted(v),
        0 <= i < v.len(),
    ensures
        summaries_map(v).contains_key(v[i].spec_key()),
        summaries_map(v)[v[i].spec_key()] == summary_view(v[i]),
{
    let k = v[i].spec_key();
    let w = choose|w: int| 0 <= w < v.len() && v[w].spec_key() == k;
    if w != i {
        lemma_key_lt_irreflexive(k);
    }
}

proof fn lemma_map_update(v: Seq<EffectSummary>, i: int, s: EffectSummary)
    requires
        keys_sorted(v),
        0 <= i < v.len(),
        s.spec_key() == v[i].spec_key(),
    ensures
        keys_sorted(v.update(i, s)),
        summaries_map(v.update(i, s)) == summaries_map(v).insert(s.spec_key(), summary_view(s)),
{
    let u = v.update(i, s);
    assert(keys_sorted(u)) by {
        assert forall|a: int, b: int| 0 <= a < b < u.len() implies key_lt(u[a].spec_key(), u[b].spec_key()) by {
            assert(u[a].spec_key() == v[a].spec_key());
            assert(u[b].spec_key() == v[b].spec_key());
        }
    }
    let m1 = summaries_map(u);
    let m2 = summaries_map(v).insert(s.spec_key(), summary_view(s));
    assert forall|k: SummaryKey| #[trigger] m1.contains_key(k) == m2.contains_key(k) by {
        if m1.contains_key(k) {
            let j = choose|j: int| 0 <= j < u.len() && u[j].spec_key() == k;
            assert(v[j].spec_key() == k);
        }
        if summaries_map(v).contains_key(k) {
            let j = choose|j: int| 0 <= j < v.len() && v[j].spec_key() == k;
            assert(u[j].spec_key() == k);
        }
        if k == s.spec_key() {
            assert(u[i].spec_key() == k);
        }
    }
    assert forall|k: SummaryKey| m1.contains_key(k) implies #[trigger] m1[k] == m2[k] by {
        let j = choose|j: int| 0 <= j < u.len() && u[j].spec_key() == k;
        lemma_map_at(u, j);
        if j == i {
            assert(u[j] == s);
        } else {
            assert(u[j] == v[j]);
            lemma_map_at(v, j);
            assert(k != s.spec_key()) by {
                if k == s.spec_key() {
                    assert(v[i].spec_key() == k);
                    if j < i {
                        lemma_key_lt_irreflexive(k);
                    } else {
                        lemma_key_lt_irreflexive(k);
                    }
                }
            }
        }
    }
    assert(m1 =~= m2);
}

proof fn lemma_map_insert(v: Seq<EffectSummary>, i: int, s: EffectSummary)
    requires
        keys_sorted(v),
        0 <= i <= v.len(),
        forall|j: int| 0 <= j < i ==> key_lt(v[j].spec_key(), s.spec_key()),
        forall|j: int| i <= j < v.len() ==> key_lt(s.spec_key(), v[j].spec_key()),
    ensures
        keys_sorted(v.insert(i, s)),
        summaries_map(v.insert(i, s)) == summaries_map(v).insert(s.spec_key(), summary_view(s)),
        !summaries_map(v).contains_key(s.spec_key()),
{
    let u = v.insert(i, s);
    let ks = s.spec_key();
    assert(keys_sorted(u)) by {
        assert forall|a: int, b: int| 0 <= a < b < u.len() implies key_lt(u[a].spec_key(), u[b].spec_key()) by {
            if b < i {
            } else if b == i {
            } else if a < i {
                lemma_key_lt_transitive(u[a].spec_key(), ks, u[b].spec_key());
            } else if a == i {
            } else {
                assert(u[a] == v[a - 1]);
                assert(u[b] == v[b - 1]);
            }
        }
    }
    assert forall|j: int| 0 <= j < v.len() implies v[j].spec_key() != ks by {
        lemma_key_lt_irreflexive(ks);
    }
    let m1 = summaries_map(u);
    let m2 = summaries_map(v).insert(ks, summary_view(s));
    assert forall|k: SummaryKey| #[trigger] m1.contains_key(k) == m2.contains_key(k) by {
        if m1.contains_key(k) {
            let j = choose|j: int| 0 <= j < u.len() && u[j].spec_key() == k;
            if j < i {
                assert(v[j].spec_key() == k);
            } else if j > i {
                assert(v[j - 1].spec_key() == k);
            }
        }
        if summaries_map(v).contains_key(k) {
            let j = choose|j: int| 0 <= j < v.len() && v[j].spec_key() == k;
            if j < i {
                assert(u[j].spec_key() == k);
            } else {
                assert(u[j + 1].spec_key() == k);
            }
        }
        if k == ks {
            assert(u[i].spec_key() == k);
        }
    }
    assert forall|k: SummaryKey| m1.contains_key(k) implies #[trigger] m1[k] == m2[k] by {
        let j = choose|j: int| 0 <= j < u.len() && u[j].spec_key() == k;
        lemma_map_at(u, j);
        if j < i {
            assert(u[j] == v[j]);
            lemma_map_at(v, j);
            assert(k != ks);
            assert(m1[k] == summary_view(u[j]));
            assert(m2[k] == summaries_map(v)[k]);
            assert(summaries_map(v)[k] == summary_view(v[j]));
            assert(m1[k] == m2[k]);
        } else if j > i {
            assert(u[j] == v[j - 1]);
            lemma_map_at(v, j - 1);
            assert(k != ks);
            assert(m1[k] == summary_view(u[j]));
            assert(m2[k] == summaries_map(v)[k]);
            assert(summaries_map(v)[k] == summary_view(v[j - 1]));
            assert(m1[k] == m2[k]);
        } else {
            assert(u[j] == s);
            assert(m1[k] == summary_view(u[j]));
            assert(m2[k] == summary_view(s));
        }
    }
    assert(m1 =~= m2);
}

proof fn lemma_nonempty_set(s: Seq<SpecEffectKind>)
    ensures
        (s.len() > 0) == (s.to_set() != Set::<SpecEffectKind>::empty()),
{
    if s.len() > 0 {
        assert(s.to_set().contains(s[0]));
    } else {
        assert(s.to_set() =~= Set::<SpecEffectKind>::empty());
    }
}

/// Whether `key` is among the declared keys.
fn key_in(keys: &Vec<(Option<String>, String)>, owner: &Option<String>, name: &str) -> (res: bool)
    ensures
        res == exists|i: int| 0 <= i < keys@.len() && (opt_view(keys@[i].0), keys@[i].1@) == (opt_view(*owner), name@),
{
    let n = keys.len();
    let mut i: usize = 0;
    while i < n
        invariant
            n == keys@.len(),
            i <= n,
            forall|j: int| 0 <= j < i ==> (opt_view(keys@[j].0), keys@[j].1@) != (opt_view(*owner), name@),
        decreases n - i,
    {
        if opt_str_eq(&keys[i].0, owner) && str_eq(&keys[i].1, name) {
            return true;
        }
        i = i + 1;
    }
    false
}

/// The views of a list of summaries.
pub open spec fn views(v: Seq<EffectSummary>) -> Seq<SummaryView> {
    v.map_values(|s: EffectSummary| summary_view(s))
}

/// All summaries have well-formed rows.
pub open spec fn all_wf(v: Seq<EffectSummary>) -> bool {
    forall|i: int| 0 <= i < v.len() ==> #[trigger] v[i].row.wf()
}

impl EffectSummary {
    /// A copy of the summary.
    pub fn duplicate(&self) -> (res: EffectSummary)
        ensures
            res.spec_key() == self.spec_key(),
            res.pure == self.pure,
            res.row@ == self.row@,
            res.sources@.map_values(|x: EffectSource| x@) == self.sources@.map_values(|x: EffectSource| x@),
            res.line == self.line,
    {
        let mut sources: Vec<EffectSource> = Vec::new();
        let n = self.sources.len();
        let mut i: usize = 0;
        while i < n
            invariant
                n == self.sources@.len(),
                i <= n,
                sources@.len() == i,
                forall|j: int| 0 <= j < i ==> sources@[j]@ == self.sources@[j]@,
            decreases n - i,
        {
            sources.push(self.sources[i].duplicate());
            i = i + 1;
        }
        assert(sources@.map_values(|x: EffectSource| x@) =~= self.sources@.map_values(|x: EffectSource| x@));
        EffectSummary {
            callable: self.callable.clone(),
            owner_type_name: clone_opt(&self.owner_type_name),
            pure: self.pure,
            row: self.row.duplicate(),
            sources,
            line: self.line,
        }
    }
}

/// The position of the first summary with `key` in `v`.
fn find_first(v: &Vec<EffectSummary>, owner: &Option<String>, name: &str) -> (res: Option<usize>)
    ensures
        match res {
            Some(i) => i < v@.len() && v@[i as int].spec_key() == (opt_view(*owner), name@)
                && forall|j: int| 0 <= j < i ==> v@[j].spec_key() != (opt_view(*owner), name@),
            None => forall|j: int| 0 <= j < v@.len() ==> v@[j].spec_key() != (opt_view(*owner), name@),
        },
{
    let n = v.len();
    let mut i: usize = 0;
    while i < n
        invariant
            n == v@.len(),
            i <= n,
            forall|j: int| 0 <= j < i ==> v@[j].spec_key() != (opt_view(*owner), name@),
        decreases n - i,
    {
        if opt_str_eq(&v[i].owner_type_name, owner) && str_eq(&v[i].callable, name) {
            return Some(i);
        }
        i = i + 1;
    }
    None
}

/// Where `key` belongs in a key-sorted list, and whether it is already there.
fn locate(v: &Vec<EffectSummary>, owner: &Option<String>, name: &str) -> (res: (usize, bool))
    requires
        keys_sorted(v@),
    ensures
        res.0 <= v@.len(),
        forall|j: int| 0 <= j < res.0 ==> key_lt(v@[j].spec_key(), (opt_view(*owner), name@)),
        res.1 ==> res.0 < v@.len() && v@[res.0 as int].spec_key() == (opt_view(*owner), name@),
        !res.1 ==> forall|j: int|
            res.0 <= j < v@.len() ==> key_lt((opt_view(*owner), name@), v@[j].spec_key()),
{
    let ghost key = (opt_view(*owner), name@);
    let n = v.len();
    let mut i: usize = 0;
    while i < n && (owner_precedes(&v[i].owner_type_name, owner) || (opt_str_eq(
        &v[i].owner_type_name,
        owner,
    ) && str_lt(&v[i].callable, name)))
        invariant
            n == v@.len(),
            i <= n,
            key == (opt_view(*owner), name@),
            forall|j: int| 0 <= j < i ==> key_lt(v@[j].spec_key(), key),
        decreases n - i,
    {
        i = i + 1;
    }
    if i < n && opt_str_eq(&v[i].owner_type_name, owner) && str_eq(&v[i].callable, name) {
        return (i, true);
    }
    proof {
        if i < n {
            lemma_key_lt_total(v@[i as int].spec_key(), key);
            assert forall|j: int| i <= j < v@.len() implies key_lt(key, v@[j].spec_key()) by {
                if j > i {
                    lemma_key_lt_transitive(key, v@[i as int].spec_key(), v@[j].spec_key());
                }
            }
        }
    }
    (i, false)
}

/// The callee a call resolves to, as a position among the seeds or the snapshot.
fn resolve_callee(
    seeds: &Vec<EffectSummary>,
    snapshot: &Vec<EffectSummary>,
    owner: &Option<String>,
    name: &str,
) -> (res: Option<(bool, usize)>)
    requires
        keys_sorted(snapshot@),
    ensures
        match res {
            Some((in_seeds, i)) => {
                &&& in_seeds ==> i < seeds@.len() && spec_resolve_callee(
                    views(seeds@),
                    summaries_map(snapshot@),
                    (opt_view(*owner), name@),
                ) == Some(summary_view(seeds@[i as int]))
                &&& !in_seeds ==> i < snapshot@.len() && spec_resolve_callee(
                    views(seeds@),
                    summaries_map(snapshot@),
                    (opt_view(*owner), name@),
                ) == Some(summary_view(snapshot@[i as int]))
            },
            None => spec_resolve_callee(views(seeds@), summaries_map(snapshot@), (opt_view(*owner), name@))
                is None,
        },
{
    let ghost key = (opt_view(*owner), name@);
    let ghost sv = views(seeds@);
    assert forall|j: int| 0 <= j < seeds@.len() implies #[trigger] sv[j].key == seeds@[j].spec_key() by {}
    match find_first(seeds, owner, name) {
        Some(i) => {
            proof {
                let w = choose|w: int|
                    0 <= w < sv.len() && sv[w].key == key && forall|j: int| 0 <= j < w ==> sv[j].key != key;
                assert(0 <= i < sv.len() && sv[i as int].key == key && forall|j: int|
                    0 <= j < i ==> sv[j].key != key);
                if w < i {
                } else if w > i {
                }
                lemma_nonempty_set(seeds@[i as int].row@);
            }
            if seeds[i].row.is_empty() {
                None
            } else {
                Some((true, i))
            }
        },
        None => {
            let (p, found) = locate(snapshot, owner, name);
            if found {
                proof {
                    lemma_map_at(snapshot@, p as int);
                    lemma_nonempty_set(snapshot@[p as int].row@);
                }
                if snapshot[p].row.is_empty() {
                    None
                } else {
                    Some((false, p))
                }
            } else {
                proof {
                    if summaries_map(snapshot@).contains_key(key) {
                        let j = choose|j: int| 0 <= j < snapshot@.len() && snapshot@[j].spec_key() == key;
                        lemma_key_lt_irreflexive(key);
                    }
                }
                None
            }
        },
    }
}

proof fn lemma_round_step(seeds: Seq<SummaryView>, snapshot: Map<SummaryKey, SummaryView>, edges: Seq<EdgeView>, i: int)
    requires
        0 <= i < edges.len(),
    ensures
        spec_round(seeds, snapshot, edges.take(i + 1)) == spec_edge_step(
            seeds,
            snapshot,
            spec_round(seeds, snapshot, edges.take(i)),
            edges[i],
        ),
{
    assert(edges.take(i + 1).drop_last() =~= edges.take(i));
    assert(edges.take(i + 1).last() == edges[i]);
}

/// Whether `sources` holds a source equal to `src`.
fn has_source(sources: &Vec<EffectSource>, src: &EffectSource) -> (res: bool)
    ensures
        res == sources@.map_values(|x: EffectSource| x@).contains(src@),
{
    let ghost v = sources@.map_values(|x: EffectSource| x@);
    let n = sources.len();
    let mut i: usize = 0;
    while i < n
        invariant
            n == sources@.len(),
            i <= n,
            v == sources@.map_values(|x: EffectSource| x@),
            forall|j: int| 0 <= j < i ==> v[j] != src@,
        decreases n - i,
    {
        if sources[i].same(src) {
            assert(v[i as int] == src@);
            return true;
        }
        i = i + 1;
    }
    false
}

/// One round of inference over all edges, updating `inferred` in place; returns whether some
/// row grew.
fn infer_round(
    edges: &[EffectCallEdge],
    seeds: &Vec<EffectSummary>,
    declared: &Vec<(Option<String>, String)>,
    inferred: &mut Vec<EffectSummary>,
) -> (changed: bool)
    requires
        keys_sorted(old(inferred)@),
        all_wf(old(inferred)@),
        all_wf(seeds@),
        forall|k: SummaryKey|
            declared_keys(views(seeds@)).contains(k) <==> exists|i: int|
                0 <= i < declared@.len() && (opt_view(declared@[i].0), declared@[i].1@) == k,
    ensures
        keys_sorted(final(inferred)@),
        all_wf(final(inferred)@),
        (summaries_map(final(inferred)@), changed) == spec_round(
            views(seeds@),
            summaries_map(old(inferred)@),
            edges@.map_values(|e: EffectCallEdge| e.spec_view()),
        ),
{
    let ghost ev = edges@.map_values(|e: EffectCallEdge| e.spec_view());
    let ghost sv = views(seeds@);
    let snapshot = duplicate_all(inferred);
    let ghost snap = summaries_map(snapshot@);
    assert(snap == summaries_map(old(inferred)@));
    let mut changed = false;
    let n = edges.len();
    let mut i: usize = 0;
    assert(ev.take(0) =~= Seq::<EdgeView>::empty());
    while i < n
        invariant
            n == edges@.len(),
            i <= n,
            ev == edges@.map_values(|e: EffectCallEdge| e.spec_view()),
            sv == views(seeds@),
            keys_sorted(snapshot@),
            snap == summaries_map(snapshot@),
            keys_sorted(inferred@),
            all_wf(inferred@),
            all_wf(seeds@),
            forall|k: SummaryKey|
                declared_keys(sv).contains(k) <==> exists|q: int|
                    0 <= q < declared@.len() && (opt_view(declared@[q].0), declared@[q].1@) == k,
            (summaries_map(inferred@), changed) == spec_round(sv, snap, ev.take(i as int)),
        decreases n - i,
    {
        proof {
            lemma_round_step(sv, snap, ev, i as int);
        }
        let edge = &edges[i];
        assert(ev[i as int] == edge.spec_view());
        if key_in(declared, &edge.owner_type_name, &edge.owner_name) {
            i = i + 1;
            continue;
        }
        let (callee_owner, callee_name) = match &edge.callee {
            EffectCallCallee::Function(n) => (None, n.clone()),
            EffectCallCallee::Method { owner_type_name, method_name } => (
                Some(owner_type_name.clone()),
                method_name.clone(),
            ),
        };
        assert((opt_view(callee_owner), callee_name@) == edge.spec_callee_key());
        let found = resolve_callee(seeds, &snapshot, &callee_owner, &callee_name);
        let (callee_row, callee_display) = match found {
            None => {
                i = i + 1;
                continue;
            },
            Some((true, k)) => (seeds[k].row.duplicate(), seeds[k].display_name()),
            Some((false, k)) => (snapshot[k].row.duplicate(), snapshot[k].display_name()),
        };
        let ghost callee = spec_resolve_callee(sv, snap, edge.spec_callee_key())->0;
        assert(callee_row@.to_set() == callee.row);
        assert(callee_display@ == spec_display_name(callee.key.0, callee.key.1));
        let ghost m = summaries_map(inferred@);
        let ghost key = edge.spec_owner_key();
        let (pos, found_entry) = locate(inferred, &edge.owner_type_name, &edge.owner_name);
        let mut entry = if found_entry {
            inferred[pos].duplicate()
        } else {
            let e = EffectSummary {
                callable: edge.owner_name.clone(),
                owner_type_name: clone_opt(&edge.owner_type_name),
                pure: false,
                row: EffectRow::empty(),
                sources: Vec::new(),
                line: edge.line,
            };
            assert(e.sources@.map_values(|x: EffectSource| x@) =~= Seq::<SpecEffectSource>::empty());
            assert(e.row@.to_set() =~= Set::<SpecEffectKind>::empty());
            e
        };
        proof {
            if found_entry {
                lemma_map_at(inferred@, pos as int);
            } else if m.contains_key(key) {
                let j = choose|j: int| 0 <= j < inferred@.len() && inferred@[j].spec_key() == key;
                if j < pos {
                    lemma_key_lt_irreflexive(key);
                } else {
                    lemma_key_lt_irreflexive(key);
                }
            }
        }
        assert(entry.row.wf()) by {
            if found_entry {
                assert(inferred@[pos as int].row.wf());
            }
        }
        let ghost before_view = summary_view(entry);
        let ghost before_row_seq = entry.row@;
        let before = entry.row.duplicate();
        entry.row.extend(&callee_row);
        let src = EffectSource::Inferred(callee_display);
        let ghost before_sources = entry.sources@.map_values(|x: EffectSource| x@);
        if !has_source(&entry.sources, &src) {
            let ghost s_old = entry.sources@;
            entry.sources.push(src);
            assert(entry.sources@.map_values(|x: EffectSource| x@) =~= before_sources.push(
                SpecEffectSource::Inferred(spec_display_name(callee.key.0, callee.key.1)),
            ));
        }
        if edge.line < entry.line {
            entry.line = edge.line;
        }
        let grew = !entry.row.same_row(&before);
        proof {
            lemma_row_set_eq(entry.row@, before_row_seq);
        }
        if grew {
            changed = true;
        }
        proof {
            assert(summary_view(entry) == (SummaryView {
                row: before_view.row.union(callee.row),
                sources: if before_view.sources.contains(
                    SpecEffectSource::Inferred(spec_display_name(callee.key.0, callee.key.1)),
                ) {
                    before_view.sources
                } else {
                    before_view.sources.push(
                        SpecEffectSource::Inferred(spec_display_name(callee.key.0, callee.key.1)),
                    )
                },
                line: if edge.line < before_view.line {
                    edge.line as int
                } else {
                    before_view.line
                },
                ..before_view
            }));
        }
        if found_entry {
            let ghost old_inf = inferred@;
            inferred.set(pos, entry);
            proof {
                assert(inferred@ == old_inf.update(pos as int, entry));
                lemma_map_update(old_inf, pos as int, entry);
            }
        } else {
            let ghost old_inf = inferred@;
            inferred.insert(pos, entry);
            proof {
                assert(inferred@ == old_inf.insert(pos as int, entry));
                lemma_map_insert(old_inf, pos as int, entry);
            }
        }
        assert(all_wf(inferred@));
        i = i + 1;
    }
    assert(ev.take(n as int) =~= ev);
    changed
}

/// Copies of all summaries.
fn duplicate_all(v: &Vec<EffectSummary>) -> (res: Vec<EffectSummary>)
    ensures
        res@.len() == v@.len(),
        forall|i: int| 0 <= i < v@.len() ==> summary_view(#[trigger] res@[i]) == summary_view(v@[i])
            && res@[i].spec_key() == v@[i].spec_key() && res@[i].row@ == v@[i].row@,
        keys_sorted(v@) ==> keys_sorted(res@),
        all_wf(v@) ==> all_wf(res@),
        keys_sorted(v@) ==> summaries_map(res@) == summaries_map(v@),
{
    let mut out: Vec<EffectSummary> = Vec::new();
    let n = v.len();
    let mut i: usize = 0;
    while i < n
        invariant
            n == v@.len(),
            i <= n,
            out@.len() == i,
            forall|j: int| 0 <= j < i ==> summary_view(#[trigger] out@[j]) == summary_view(v@[j])
                && out@[j].spec_key() == v@[j].spec_key() && out@[j].row@ == v@[j].row@,
        decreases n - i,
    {
        out.push(v[i].duplicate());
        i = i + 1;
    }
    proof {
        if keys_sorted(v@) {
            assert(keys_sorted(out@));
            let m1 = summaries_map(out@);
            let m2 = summaries_map(v@);
            assert forall|k: SummaryKey| #[trigger] m1.contains_key(k) == m2.contains_key(k) by {
                if m1.contains_key(k) {
                    let j = choose|j: int| 0 <= j < out@.len() && out@[j].spec_key() == k;
                    assert(v@[j].spec_key() == k);
                }
                if m2.contains_key(k) {
                    let j = choose|j: int| 0 <= j < v@.len() && v@[j].spec_key() == k;
                    assert(out@[j].spec_key() == k);
                }
            }
            assert forall|k: SummaryKey| m1.contains_key(k) implies #[trigger] m1[k] == m2[k] by {
                let j = choose|j: int| 0 <= j < out@.len() && out@[j].spec_key() == k;
                lemma_map_at(out@, j);
                lemma_map_at(v@, j);
            }
            assert(m1 =~= m2);
        }
        if all_wf(v@) {
            assert forall|j: int| 0 <= j < out@.len() implies #[trigger] out@[j].row.wf() by {
                assert(v@[j].row.wf());
            }
        }
    }
    out
}

/// The summaries that inference adds for undeclared callers, in key order: up to eight rounds
/// over the call edges, each resolving callees against the seeds followed by the summaries
/// inferred so far, stopping early after a round in which no row grew.
pub fn collect_inferred_effect_summaries(edges: &[EffectCallEdge], seeds: &[EffectSummary]) -> (res:
    Vec<EffectSummary>)
    requires
        forall|i: int| 0 <= i < seeds@.len() ==> #[trigger] seeds@[i].row.wf(),
    ensures
        keys_sorted(res@),
        all_wf(res@),
        summaries_map(res@) == spec_infer(
            views(seeds@),
            edges@.map_values(|e: EffectCallEdge| e.spec_view()),
            Map::empty(),
            8,
        ),
        inferred_ok(views(seeds@), summaries_map(res@)),
{
    let ghost ev = edges@.map_values(|e: EffectCallEdge| e.spec_view());
    let mut seed_vec: Vec<EffectSummary> = Vec::new();
    let mut declared: Vec<(Option<String>, String)> = Vec::new();
    let ns = seeds.len();
    let mut i: usize = 0;
    while i < ns
        invariant
            ns == seeds@.len(),
            i <= ns,
            seed_vec@.len() == i,
            forall|j: int| 0 <= j < seeds@.len() ==> #[trigger] seeds@[j].row.wf(),
            forall|j: int| 0 <= j < i ==> summary_view(#[trigger] seed_vec@[j]) == summary_view(seeds@[j])
                && seed_vec@[j].spec_key() == seeds@[j].spec_key() && seed_vec@[j].row@ == seeds@[j].row@,
            forall|k: SummaryKey|
                declared_keys(views(seeds@.take(i as int))).contains(k) <==> exists|q: int|
                    0 <= q < declared@.len() && (opt_view(declared@[q].0), declared@[q].1@) == k,
        decreases ns - i,
    {
        let s = &seeds[i];
        let ghost before = declared@;
        proof {
            lemma_nonempty_set(s.row@);
        }
        if s.pure || s.has_declared_effect_row() {
            declared.push(s.key());
            proof {
                let v = summary_view(*s);
                if !s.pure {
                    let w = choose|w: int| 0 <= w < s.sources@.len() && !(s.sources@[w]@ is Inferred);
                    assert(v.sources[w] == s.sources@[w]@);
                }
                assert(is_declared(v));
            }
        }
        seed_vec.push(s.duplicate());
        proof {
            let sv1 = views(seeds@.take(i + 1));
            let sv0 = views(seeds@.take(i as int));
            assert forall|j: int| 0 <= j < i implies #[trigger] sv1[j] == sv0[j] by {}
            assert(sv1[i as int] == summary_view(seeds@[i as int]));
            assert forall|k: SummaryKey|
                declared_keys(sv1).contains(k) <==> exists|q: int|
                    0 <= q < declared@.len() && (opt_view(declared@[q].0), declared@[q].1@) == k by {
                if declared_keys(sv1).contains(k) {
                    let j = choose|j: int| 0 <= j < sv1.len() && sv1[j].key == k && is_declared(sv1[j]);
                    if j < i {
                        assert(declared_keys(sv0).contains(k));
                        let q = choose|q: int|
                            0 <= q < before.len() && (opt_view(before[q].0), before[q].1@) == k;
                        assert(declared@[q] == before[q]);
                    } else {
                        assert(declared@.last() == declared@[declared@.len() - 1]);
                    }
                }
                if exists|q: int| 0 <= q < declared@.len() && (opt_view(declared@[q].0), declared@[q].1@) == k {
                    let q = choose|q: int|
                        0 <= q < declared@.len() && (opt_view(declared@[q].0), declared@[q].1@) == k;
                    if q < before.len() {
                        assert(declared@[q] == before[q]);
                        assert(declared_keys(sv0).contains(k));
                        let j = choose|j: int| 0 <= j < sv0.len() && sv0[j].key == k && is_declared(sv0[j]);
                        assert(sv1[j] == sv0[j]);
                    } else {
                        assert(sv1[i as int].key == k && is_declared(sv1[i as int]));
                    }
                }
            }
        }
        i = i + 1;
    }
    assert(seeds@.take(ns as int) =~= seeds@);
    assert(views(seed_vec@) =~= views(seeds@));
    assert(all_wf(seed_vec@)) by {
        assert forall|j: int| 0 <= j < seed_vec@.len() implies #[trigger] seed_vec@[j].row.wf() by {
            assert(seeds@[j].row.wf());
        }
    }
    let mut inferred: Vec<EffectSummary> = Vec::new();
    assert(summaries_map(inferred@) =~= Map::<SummaryKey, SummaryView>::empty());
    let mut round: usize = 0;
    while round < 8
        invariant
            round <= 8,
            ev == edges@.map_values(|e: EffectCallEdge| e.spec_view()),
            views(seed_vec@) == views(seeds@),
            all_wf(seed_vec@),
            keys_sorted(inferred@),
            all_wf(inferred@),
            forall|k: SummaryKey|
                declared_keys(views(seed_vec@)).contains(k) <==> exists|q: int|
                    0 <= q < declared@.len() && (opt_view(declared@[q].0), declared@[q].1@) == k,
            spec_infer(views(seeds@), ev, Map::empty(), 8) == spec_infer(
                views(seeds@),
                ev,
                summaries_map(inferred@),
                (8 - round) as nat,
            ),
        decreases 8 - round,
    {
        let ghost before = summaries_map(inferred@);
        let changed = infer_round(edges, &seed_vec, &declared, &mut inferred);
        round = round + 1;
        if !changed {
            assert(spec_infer(views(seeds@), ev, before, (8 - (round - 1)) as nat) == summaries_map(
                inferred@,
            ));
            proof {
                law_inference_adds_no_new_effects(views(seeds@), edges@.map_values(|e: EffectCallEdge| e.spec_view()));
            }
            return inferred;
        }
    }
    proof {
        law_inference_adds_no_new_effects(views(seeds@), edges@.map_values(|e: EffectCallEdge| e.spec_view()));
    }
    inferred
}

/// Every effect that some seed has.
pub open spec fn seed_effects(seeds: Seq<SummaryView>) -> Set<SpecEffectKind> {
    Set::new(|e: SpecEffectKind| exists|i: int| 0 <= i < seeds.len() && seeds[i].row.contains(e))
}

/// Inferred summaries are stored under their own key, are not pure, belong to undeclared
/// callers, and have a non-empty row made of seed effects only.
pub open spec fn inferred_ok(seeds: Seq<SummaryView>, m: Map<SummaryKey, SummaryView>) -> bool {
    forall|k: SummaryKey|
        #[trigger] m.contains_key(k) ==> {
            &&& m[k].key == k
            &&& !m[k].pure
            &&& m[k].row != Set::<SpecEffectKind>::empty()
            &&& m[k].row.subset_of(seed_effects(seeds))
            &&& !declared_keys(seeds).contains(k)
            &&& m[k].sources.len() > 0
            &&& forall|i: int| 0 <= i < m[k].sources.len() ==> (#[trigger] m[k].sources[i]) is Inferred
        }
}

proof fn lemma_resolve_ok(seeds: Seq<SummaryView>, snap: Map<SummaryKey, SummaryView>, key: SummaryKey)
    requires
        inferred_ok(seeds, snap),
    ensures
        spec_resolve_callee(seeds, snap, key) matches Some(c) ==> c.row != Set::<SpecEffectKind>::empty()
            && c.row.subset_of(seed_effects(seeds)) && c.key == key,
{
    if exists|i: int|
        0 <= i < seeds.len() && seeds[i].key == key && forall|j: int| 0 <= j < i ==> seeds[j].key != key {
        let i = choose|i: int|
            0 <= i < seeds.len() && seeds[i].key == key && forall|j: int| 0 <= j < i ==> seeds[j].key != key;
        assert forall|e: SpecEffectKind| seeds[i].row.contains(e) implies seed_effects(seeds).contains(e) by {}
    }
}

proof fn lemma_step_ok(
    seeds: Seq<SummaryView>,
    snap: Map<SummaryKey, SummaryView>,
    state: (Map<SummaryKey, SummaryView>, bool),
    edge: EdgeView,
)
    requires
        inferred_ok(seeds, snap),
        inferred_ok(seeds, state.0),
    ensures
        inferred_ok(seeds, spec_edge_step(seeds, snap, state, edge).0),
{
    lemma_resolve_ok(seeds, snap, edge.callee_key);
    let next = spec_edge_step(seeds, snap, state, edge).0;
    if !declared_keys(seeds).contains(edge.owner_key) {
        if let Some(callee) = spec_resolve_callee(seeds, snap, edge.callee_key) {
            let k = edge.owner_key;
            let m = state.0;
            let entry = if m.contains_key(k) {
                m[k]
            } else {
                fresh_summary(k, edge.line)
            };
            let row = entry.row.union(callee.row);
            let e0 = choose|e: SpecEffectKind| callee.row.contains(e);
            assert(callee.row.contains(e0)) by {
                if !callee.row.contains(e0) {
                    assert(callee.row =~= Set::<SpecEffectKind>::empty());
                }
            }
            assert(row.contains(e0));
            assert forall|q: SummaryKey| #[trigger] next.contains_key(q) implies {
                &&& next[q].key == q
                &&& !next[q].pure
                &&& next[q].row != Set::<SpecEffectKind>::empty()
                &&& next[q].row.subset_of(seed_effects(seeds))
                &&& !declared_keys(seeds).contains(q)
                &&& next[q].sources.len() > 0
                &&& forall|i: int| 0 <= i < next[q].sources.len() ==> (#[trigger] next[q].sources[i]) is Inferred
            } by {
                if q == k {
                    let src = SpecEffectSource::Inferred(spec_display_name(callee.key.0, callee.key.1));
                    if !entry.sources.contains(src) {
                        assert forall|i: int| 0 <= i < entry.sources.push(src).len() implies (#[trigger] entry.sources.push(src)[i]) is Inferred by {
                            if i < entry.sources.len() {
                                assert(entry.sources.push(src)[i] == entry.sources[i]);
                            }
                        }
                    } else {
                        assert(entry.sources.len() > 0);
                    }
                    assert(next[q].row == row);
                    assert(!(row =~= Set::<SpecEffectKind>::empty())) by {
                        assert(row.contains(e0));
                    }
                } else {
                    assert(m.contains_key(q));
                }
            }
        }
    }
}

proof fn lemma_round_ok(seeds: Seq<SummaryView>, snap: Map<SummaryKey, SummaryView>, edges: Seq<EdgeView>)
    requires
        inferred_ok(seeds, snap),
    ensures
        inferred_ok(seeds, spec_round(seeds, snap, edges).0),
    decreases edges.len(),
{
    if edges.len() > 0 {
        lemma_round_ok(seeds, snap, edges.drop_last());
        lemma_step_ok(seeds, snap, spec_round(seeds, snap, edges.drop_last()), edges.last());
    }
}

proof fn lemma_infer_ok(
    seeds: Seq<SummaryView>,
    edges: Seq<EdgeView>,
    m: Map<SummaryKey, SummaryView>,
    rounds: nat,
)
    requires
        inferred_ok(seeds, m),
    ensures
        inferred_ok(seeds, spec_infer(seeds, edges, m, rounds)),
    decreases rounds,
{
    if rounds > 0 {
        lemma_round_ok(seeds, m, edges);
        let (next, changed) = spec_round(seeds, m, edges);
        if changed {
            lemma_infer_ok(seeds, edges, next, (rounds - 1) as nat);
        }
    }
}

/// Inference introduces no new effects: every inferred summary is impure, belongs to a
/// caller that declares nothing, has a non-empty row, every effect in that row is an effect of
/// some seed, and its sources are inference sources, at least one.
pub proof fn law_inference_adds_no_new_effects(seeds: Seq<SummaryView>, edges: Seq<EdgeView>)
    ensures
        inferred_ok(seeds, spec_infer(seeds, edges, Map::empty(), 8)),
{
    assert(inferred_ok(seeds, Map::<SummaryKey, SummaryView>::empty()));
    lemma_infer_ok(seeds, edges, Map::empty(), 8);
}

/// With no call edges nothing is inferred.
pub proof fn law_no_edges_no_inference(seeds: Seq<SummaryView>)
    ensures
        spec_infer(seeds, Seq::<EdgeView>::empty(), Map::empty(), 8) == Map::<SummaryKey, SummaryView>::empty(),
{
    assert(spec_round(seeds, Map::<SummaryKey, SummaryView>::empty(), Seq::<EdgeView>::empty()) == (
        Map::<SummaryKey, SummaryView>::empty(),
        false,
    ));
}

} // verus!
