//! Effect summaries of callables, the lookups over them, and the checks that decide whether a
//! call's effects are covered by its caller or by a capability scope.
use vstd::prelude::*;
use crate::effect_row::{EffectKind, EffectRow, SpecEffectKind, effect_kind_from_label, spec_kind_from_label};
use crate::text::{owned, str_eq, join3, starts_with, str_starts_with, substring};

verus! {

/// Where an effect of a summary comes from.
#[derive(Debug, Clone)]
pub enum EffectSource {
    Decorator(String),
    Lifecycle(String),
    UnsafeBlock,
    Inferred(String),
    Stdlib(String),
}

/// The plain-value view of an effect source.
pub enum SpecEffectSource {
    Decorator(Seq<char>),
    Lifecycle(Seq<char>),
    UnsafeBlock,
    Inferred(Seq<char>),
    Stdlib(Seq<char>),
}

impl View for EffectSource {
    type V = SpecEffectSource;

    open spec fn view(&self) -> SpecEffectSource {
        match self {
            EffectSource::Decorator(n) => SpecEffectSource::Decorator(n@),
            EffectSource::Lifecycle(n) => SpecEffectSource::Lifecycle(n@),
            EffectSource::UnsafeBlock => SpecEffectSource::UnsafeBlock,
            EffectSource::Inferred(n) => SpecEffectSource::Inferred(n@),
            EffectSource::Stdlib(n) => SpecEffectSource::Stdlib(n@),
        }
    }
}

impl EffectSource {
    /// A copy of this source.
    pub fn duplicate(&self) -> (res: EffectSource)
        ensures
            res@ == self@,
    {
        match self {
            EffectSource::Decorator(n) => EffectSource::Decorator(n.clone()),
            EffectSource::Lifecycle(n) => EffectSource::Lifecycle(n.clone()),
            EffectSource::UnsafeBlock => EffectSource::UnsafeBlock,
            EffectSource::Inferred(n) => EffectSource::Inferred(n.clone()),
            EffectSource::Stdlib(n) => EffectSource::Stdlib(n.clone()),
        }
    }

    /// Whether this is the same source as `other`.
    pub fn same(&self, other: &EffectSource) -> (res: bool)
        ensures
            res == (self@ == other@),
    {
        match (self, other) {
            (EffectSource::Decorator(a), EffectSource::Decorator(b)) => str_eq(a, b),
            (EffectSource::Lifecycle(a), EffectSource::Lifecycle(b)) => str_eq(a, b),
            (EffectSource::UnsafeBlock, EffectSource::UnsafeBlock) => true,
            (EffectSource::Inferred(a), EffectSource::Inferred(b)) => str_eq(a, b),
            (EffectSource::Stdlib(a), EffectSource::Stdlib(b)) => str_eq(a, b),
            _ => false,
        }
    }
}

/// An optional string taken by its characters.
pub open spec fn opt_view(o: Option<String>) -> Option<Seq<char>> {
    match o {
        Some(s) => Some(s@),
        None => None,
    }
}

/// A copy of an optional string.
pub fn clone_opt(o: &Option<String>) -> (res: Option<String>)
    ensures
        opt_view(res) == opt_view(*o),
{
    match o {
        Some(s) => Some(s.clone()),
        None => None,
    }
}

/// Whether two optional strings hold the same characters.
pub fn opt_str_eq(a: &Option<String>, b: &Option<String>) -> (res: bool)
    ensures
        res == (opt_view(*a) == opt_view(*b)),
{
    match (a, b) {
        (Some(x), Some(y)) => str_eq(x, y),
        (None, None) => true,
        _ => false,
    }
}

/// A range of lines in which the listed effects are granted.
#[derive(Debug, Clone)]
pub struct CapabilityScope {
    pub line_start: usize,
    pub line_end: usize,
    pub grants: EffectRow,
    pub source: EffectSource,
}

/// The effects that a callable is known to have, and where they come from.
#[derive(Debug, Clone)]
pub struct EffectSummary {
    pub callable: String,
    pub owner_type_name: Option<String>,
    pub pure: bool,
    pub row: EffectRow,
    pub sources: Vec<EffectSource>,
    pub line: usize,
}

/// A summary key: the owning type (none for a free function) and the callable's name.
pub type SummaryKey = (Option<Seq<char>>, Seq<char>);

/// The name under which a summary is shown: `Owner.callable` for methods.
pub open spec fn spec_display_name(owner: Option<Seq<char>>, callable: Seq<char>) -> Seq<char> {
    match owner {
        Some(o) => o + "."@ + callable,
        None => callable,
    }
}

impl EffectSummary {
    pub open spec fn wf(&self) -> bool {
        self.row.wf()
    }

    pub open spec fn spec_key(&self) -> SummaryKey {
        (opt_view(self.owner_type_name), self.callable@)
    }

    pub open spec fn spec_display(&self) -> Seq<char> {
        spec_display_name(opt_view(self.owner_type_name), self.callable@)
    }

    /// The summary declares its row: the row is not empty and some source is not an inference.
    pub open spec fn spec_has_declared_effect_row(&self) -> bool {
        self.row@.len() > 0 && exists|i: int|
            0 <= i < self.sources@.len() && !(self.sources@[i]@ is Inferred)
    }

    /// The name under which the summary is shown.
    pub fn display_name(&self) -> (res: String)
        ensures
            res@ == self.spec_display(),
    {
        match &self.owner_type_name {
            Some(owner) => join3(owner, ".", &self.callable),
            None => self.callable.clone(),
        }
    }

    /// The summary's owner and callable name.
    pub fn key(&self) -> (res: (Option<String>, String))
        ensures
            (opt_view(res.0), res.1@) == self.spec_key(),
    {
        (clone_opt(&self.owner_type_name), self.callable.clone())
    }

    /// Whether the summary declares (rather than only infers) a non-empty row.
    pub fn has_declared_effect_row(&self) -> (res: bool)
        ensures
            res == self.spec_has_declared_effect_row(),
    {
        if self.row.is_empty() {
            return false;
        }
        let n = self.sources.len();
        let mut i: usize = 0;
        while i < n
            invariant
                n == self.sources@.len(),
                i <= n,
                self.row@.len() > 0,
                forall|j: int| 0 <= j < i ==> self.sources@[j]@ is Inferred,
            decreases n - i,
        {
            let inferred = match &self.sources[i] {
                EffectSource::Inferred(_) => true,
                _ => false,
            };
            if !inferred {
                assert(0 <= i < self.sources@.len() && !(self.sources@[i as int]@ is Inferred));
                return true;
            }
            i = i + 1;
        }
        false
    }
}

/// The keys of a list of summaries.
pub open spec fn summary_keys(s: Seq<EffectSummary>) -> Seq<SummaryKey> {
    s.map_values(|x: EffectSummary| x.spec_key())
}

/// The first position at which `key` occurs.
pub open spec fn first_key_index(keys: Seq<SummaryKey>, key: SummaryKey) -> Option<int> {
    if exists|i: int|
        0 <= i < keys.len() && keys[i] == key && forall|j: int| 0 <= j < i ==> keys[j] != key {
        Some(
            choose|i: int|
                0 <= i < keys.len() && keys[i] == key && forall|j: int| 0 <= j < i ==> keys[j] != key,
        )
    } else {
        None
    }
}

/// Position `i` holds the first summary with its key.
pub open spec fn is_first_of_key(s: Seq<EffectSummary>, i: int) -> bool {
    0 <= i < s.len() && forall|j: int| 0 <= j < i ==> s[j].spec_key() != s[i].spec_key()
}

/// The summary a by-key lookup finds: the first one with that key.
pub open spec fn lookup_summary(s: Seq<EffectSummary>, key: SummaryKey) -> Option<int> {
    first_key_index(summary_keys(s), key)
}

/// The summary an effectful lookup finds: the first one with that key, if its row is not empty.
pub open spec fn lookup_effectful(s: Seq<EffectSummary>, key: SummaryKey) -> Option<int> {
    match lookup_summary(s, key) {
        Some(i) => if s[i].row@.len() > 0 {
            Some(i)
        } else {
            None
        },
        None => None,
    }
}

/// Position `i` is kept by a by-key index over methods (or free functions), optionally only
/// when its row has effects: it holds the first summary with its key.
pub open spec fn selected(s: Seq<EffectSummary>, i: int, methods: bool, effectful: bool) -> bool {
    &&& 0 <= i < s.len()
    &&& (s[i].owner_type_name is Some) == methods
    &&& is_first_of_key(s, i)
    &&& effectful ==> s[i].row@.len() > 0
}

/// `idx` lists, in increasing order, exactly the selected positions.
pub open spec fn indexes_selected(
    idx: Seq<usize>,
    s: Seq<EffectSummary>,
    methods: bool,
    effectful: bool,
) -> bool {
    &&& forall|a: int, b: int| 0 <= a < b < idx.len() ==> idx[a] < idx[b]
    &&& forall|a: int| 0 <= a < idx.len() ==> selected(s, #[trigger] idx[a] as int, methods, effectful)
    &&& forall|i: int| #[trigger] selected(s, i, methods, effectful) ==> idx.contains(i as usize)
}

proof fn lemma_first_key_index(s: Seq<EffectSummary>, i: int)
    requires
        is_first_of_key(s, i),
    ensures
        lookup_summary(s, s[i].spec_key()) == Some(i),
{
    let keys = summary_keys(s);
    assert(keys[i] == s[i].spec_key());
    let w = choose|w: int|
        0 <= w < keys.len() && keys[w] == s[i].spec_key() && forall|j: int|
            0 <= j < w ==> keys[j] != s[i].spec_key();
    if w < i {
        assert(keys[w] == s[w].spec_key());
    } else if w > i {
        assert(keys[i] == s[i].spec_key());
    }
}

proof fn lemma_no_key(s: Seq<EffectSummary>, key: SummaryKey)
    requires
        forall|j: int| 0 <= j < s.len() ==> s[j].spec_key() != key,
    ensures
        lookup_summary(s, key) is None,
{
    let keys = summary_keys(s);
    assert forall|j: int| 0 <= j < keys.len() implies keys[j] != key by {
        assert(keys[j] == s[j].spec_key());
    }
}

/// Position of the first summary with the key `(owner, callable)`.
fn find_key(summaries: &[EffectSummary], owner: &Option<String>, callable: &str) -> (res: Option<
    usize,
>)
    ensures
        match res {
            Some(i) => lookup_summary(summaries@, (opt_view(*owner), callable@)) == Some(i as int)
                && i < summaries@.len(),
            None => lookup_summary(summaries@, (opt_view(*owner), callable@)) is None,
        },
{
    let ghost key = (opt_view(*owner), callable@);
    let n = summaries.len();
    let mut i: usize = 0;
    while i < n
        invariant
            n == summaries@.len(),
            i <= n,
            key == (opt_view(*owner), callable@),
            forall|j: int| 0 <= j < i ==> summaries@[j].spec_key() != key,
        decreases n - i,
    {
        if opt_str_eq(&summaries[i].owner_type_name, owner) && str_eq(&summaries[i].callable, callable) {
            assert(summaries@[i as int].spec_key() == key);
            assert(is_first_of_key(summaries@, i as int));
            proof {
                lemma_first_key_index(summaries@, i as int);
            }
            return Some(i);
        }
        i = i + 1;
    }
    proof {
        lemma_no_key(summaries@, key);
    }
    None
}

/// Positions of the summaries that a by-key index keeps.
fn first_positions(summaries: &[EffectSummary], methods: bool, effectful: bool) -> (res: Vec<usize>)
    ensures
        indexes_selected(res@, summaries@, methods, effectful),
{
    let n = summaries.len();
    let mut out: Vec<usize> = Vec::new();
    let mut i: usize = 0;
    while i < n
        invariant
            n == summaries@.len(),
            i <= n,
            forall|a: int, b: int| 0 <= a < b < out@.len() ==> out@[a] < out@[b],
            forall|a: int|
                0 <= a < out@.len() ==> out@[a] < i && selected(
                    summaries@,
                    #[trigger] out@[a] as int,
                    methods,
                    effectful,
                ),
            forall|k: int|
                0 <= k < i && #[trigger] selected(summaries@, k, methods, effectful) ==> out@.contains(
                    k as usize,
                ),
        decreases n - i,
    {
        let s = &summaries[i];
        let is_method = s.owner_type_name.is_some();
        let first = match find_key(summaries, &s.owner_type_name, &s.callable) {
            Some(k) => k == i,
            None => false,
        };
        proof {
            if is_first_of_key(summaries@, i as int) {
                lemma_first_key_index(summaries@, i as int);
            } else {
                let j = choose|j: int|
                    0 <= j < i && summaries@[j].spec_key() == summaries@[i as int].spec_key();
                assert(summary_keys(summaries@)[j] == summaries@[j].spec_key());
            }
        }
        let ghost old_out = out@;
        if is_method == methods && first && (!effectful || !s.row.is_empty()) {
            out.push(i);
            assert(out@[out@.len() - 1] == i);
        }
        assert forall|k: int|
            0 <= k < i + 1 && #[trigger] selected(summaries@, k, methods, effectful) implies out@.contains(
            k as usize,
        ) by {
            if k < i {
                let m = choose|m: int| 0 <= m < old_out.len() && old_out[m] == k as usize;
                assert(out@[m] == k as usize);
            }
        }
        i = i + 1;
    }
    out
}

/// The free-function summaries that name lookups find, by position.
pub fn function_summaries_by_name(summaries: &[EffectSummary]) -> (res: Vec<usize>)
    ensures
        indexes_selected(res@, summaries@, false, false),
{
    first_positions(summaries, false, false)
}

/// The method summaries that owner-and-name lookups find, by position.
pub fn method_summaries_by_name(summaries: &[EffectSummary]) -> (res: Vec<usize>)
    ensures
        indexes_selected(res@, summaries@, true, false),
{
    first_positions(summaries, true, false)
}

/// The free-function summaries with effects that name lookups find, by position.
pub fn effectful_function_summaries_by_name(summaries: &[EffectSummary]) -> (res: Vec<usize>)
    ensures
        indexes_selected(res@, summaries@, false, true),
{
    first_positions(summaries, false, true)
}

/// The method summaries with effects that owner-and-name lookups find, by position.
pub fn effectful_method_summaries_by_name(summaries: &[EffectSummary]) -> (res: Vec<usize>)
    ensures
        indexes_selected(res@, summaries@, true, true),
{
    first_positions(summaries, true, true)
}

/// A found position as a `usize`.
pub open spec fn as_index(o: Option<int>) -> Option<usize> {
    match o {
        Some(i) => Some(i as usize),
        None => None,
    }
}

/// The summary an optional reference points to.
pub open spec fn opt_deref(o: Option<&EffectSummary>) -> Option<EffectSummary> {
    match o {
        Some(c) => Some(*c),
        None => None,
    }
}

/// The lookup a by-key index answers: the first summary with the key, when it is kept.
pub open spec fn index_lookup_result(
    s: Seq<EffectSummary>,
    key: SummaryKey,
    effectful: bool,
) -> Option<int> {
    if effectful {
        lookup_effectful(s, key)
    } else {
        lookup_summary(s, key)
    }
}

pub proof fn lemma_lookup_is_first(s: Seq<EffectSummary>, key: SummaryKey, k: int)
    requires
        lookup_summary(s, key) == Some(k),
    ensures
        is_first_of_key(s, k),
        s[k].spec_key() == key,
        0 <= k < s.len(),
{
    let keys = summary_keys(s);
    assert(keys[k] == s[k].spec_key());
    assert forall|j: int| 0 <= j < k implies s[j].spec_key() != s[k].spec_key() by {
        assert(keys[j] == s[j].spec_key());
    }
}

/// Looks `(owner, callable)` up in a by-key index built over `summaries`.
fn lookup_in_index(
    summaries: &[EffectSummary],
    idx: &Vec<usize>,
    methods: bool,
    effectful: bool,
    owner: &Option<String>,
    callable: &str,
) -> (res: Option<usize>)
    requires
        indexes_selected(idx@, summaries@, methods, effectful),
        (owner is Some) == methods,
    ensures
        res matches Some(i) ==> i < summaries@.len(),
        match res {
            Some(i) => index_lookup_result(summaries@, (opt_view(*owner), callable@), effectful)
                == Some(i as int),
            None => index_lookup_result(summaries@, (opt_view(*owner), callable@), effectful) is None,
        },
{
    let ghost key = (opt_view(*owner), callable@);
    let total = summaries.len();
    let n = idx.len();
    let mut i: usize = 0;
    while i < n
        invariant
            total == summaries@.len(),
            n == idx@.len(),
            i <= n,
            indexes_selected(idx@, summaries@, methods, effectful),
            key == (opt_view(*owner), callable@),
            forall|j: int| 0 <= j < i ==> summaries@[idx@[j] as int].spec_key() != key,
        decreases n - i,
    {
        let k = idx[i];
        assert(selected(summaries@, idx@[i as int] as int, methods, effectful));
        if opt_str_eq(&summaries[k].owner_type_name, owner) && str_eq(&summaries[k].callable, callable) {
            proof {
                lemma_first_key_index(summaries@, k as int);
            }
            return Some(k);
        }
        i = i + 1;
    }
    proof {
        match lookup_summary(summaries@, key) {
            Some(k) => {
                lemma_lookup_is_first(summaries@, key, k);
                if !effectful || summaries@[k].row@.len() > 0 {
                    assert(selected(summaries@, k, methods, effectful));
                    assert(idx@.contains(k as usize));
                    let m = choose|m: int| 0 <= m < idx@.len() && idx@[m] == k as usize;
                    assert(summaries@[idx@[m] as int].spec_key() == key);
                }
            },
            None => {},
        }
    }
    None
}

/// The summary of the function or method that makes a call: the method summary of
/// `owner_type_name.owner_name` when there is one, else the function summary of `owner_name`.
pub fn caller_effect_summary(
    summaries: &[EffectSummary],
    by_name: &Vec<usize>,
    by_method: &Vec<usize>,
    owner_name: &str,
    owner_type_name: Option<&str>,
) -> (res: Option<usize>)
    requires
        indexes_selected(by_name@, summaries@, false, false),
        indexes_selected(by_method@, summaries@, true, false),
    ensures
        res matches Some(i) ==> i < summaries@.len(),
        res == as_index(match owner_type_name {
            Some(t) => match lookup_summary(summaries@, (Some(t@), owner_name@)) {
                Some(i) => Some(i),
                None => lookup_summary(summaries@, (None, owner_name@)),
            },
            None => lookup_summary(summaries@, (None, owner_name@)),
        }),
{
    if let Some(t) = owner_type_name {
        let owner = Some(owner(t));
        if let Some(i) = lookup_in_index(summaries, by_method, true, false, &owner, owner_name) {
            return Some(i);
        }
    }
    let none: Option<String> = None;
    lookup_in_index(summaries, by_name, false, false, &none, owner_name)
}

fn owner(t: &str) -> (res: String)
    ensures
        res@ == t@,
{
    owned(t)
}

/// The effectful function summary for `name`, if there is one.
pub fn effectful_function_summary(
    summaries: &[EffectSummary],
    effectful_by_name: &Vec<usize>,
    name: &str,
) -> (res: Option<usize>)
    requires
        indexes_selected(effectful_by_name@, summaries@, false, true),
    ensures
        res matches Some(i) ==> i < summaries@.len(),
        res == as_index(lookup_effectful(summaries@, (None, name@))),
{
    let none: Option<String> = None;
    lookup_in_index(summaries, effectful_by_name, false, true, &none, name)
}

/// The effectful method summary of `owner_name.method_name`, when both names are known.
pub fn effectful_method_summary(
    summaries: &[EffectSummary],
    by_method: &Vec<usize>,
    owner_name: Option<&str>,
    method_name: Option<&str>,
) -> (res: Option<usize>)
    requires
        indexes_selected(by_method@, summaries@, true, true),
    ensures
        res matches Some(i) ==> i < summaries@.len(),
        res == match (owner_name, method_name) {
            (Some(o), Some(m)) => as_index(lookup_effectful(summaries@, (Some(o@), m@))),
            _ => None,
        },
{
    let o = match owner_name {
        Some(o) => o,
        None => {
            return None;
        },
    };
    let m = match method_name {
        Some(m) => m,
        None => {
            return None;
        },
    };
    let owner = Some(owner(o));
    lookup_in_index(summaries, by_method, true, true, &owner, m)
}

/// Whether the caller's own declared row already covers `required`.
pub open spec fn spec_caller_effect_row_allows(
    caller: Option<EffectSummary>,
    required: Seq<SpecEffectKind>,
) -> bool {
    match caller {
        Some(summary) => !summary.pure && summary.spec_has_declared_effect_row()
            && required.to_set().subset_of(summary.row@.to_set()),
        None => false,
    }
}

/// Whether the caller's declared effect row covers the effects `required` by a callee.
pub fn caller_effect_row_allows(caller: Option<&EffectSummary>, required: &EffectRow) -> (res: bool)
    ensures
        res == spec_caller_effect_row_allows(opt_deref(caller), required@),
{
    match caller {
        Some(summary) => !summary.pure && summary.has_declared_effect_row() && summary.row.covers(
            required,
        ),
        None => false,
    }
}

/// Some scope spans `line` and grants all of `row`, which is not empty.
pub open spec fn spec_capability_scopes_allow(
    scopes: Seq<CapabilityScope>,
    line: int,
    row: Seq<SpecEffectKind>,
) -> bool {
    row.len() > 0 && exists|i: int|
        0 <= i < scopes.len() && scopes[i].line_start <= line <= scopes[i].line_end
            && row.to_set().subset_of(#[trigger] scopes[i].grants@.to_set())
}

/// Whether some capability scope around `line` grants every effect of `row`.
pub fn capability_scopes_allow(scopes: &[CapabilityScope], line: usize, row: &EffectRow) -> (res:
    bool)
    ensures
        res == spec_capability_scopes_allow(scopes@, line as int, row@),
{
    if row.is_empty() {
        return false;
    }
    let n = scopes.len();
    let mut i: usize = 0;
    while i < n
        invariant
            n == scopes@.len(),
            i <= n,
            row@.len() > 0,
            forall|j: int|
                0 <= j < i ==> !(scopes@[j].line_start <= line <= scopes@[j].line_end
                    && row@.to_set().subset_of(#[trigger] scopes@[j].grants@.to_set())),
        decreases n - i,
    {
        let scope = &scopes[i];
        if line >= scope.line_start && line <= scope.line_end && scope.grants.covers(row) {
            assert(row@.to_set().subset_of(scopes@[i as int].grants@.to_set()));
            assert(0 <= i < scopes@.len() && scopes@[i as int].line_start <= line <= scopes@[i as int].line_end);
            assert(row@.len() > 0);
            return true;
        }
        i = i + 1;
    }
    false
}

/// An effect summary as stored in a module's summary facts: effects and sources as text.
#[derive(Debug, Clone)]
pub struct SummaryEffectFact {
    pub name: String,
    pub owner_type_name: Option<String>,
    pub pure: bool,
    pub effects: Vec<String>,
    pub sources: Vec<String>,
    pub line: usize,
}

/// The source that a stored source text denotes: `inferred:` and `stdlib:` prefixes mark
/// inferred and standard-library sources, anything else names a decorator.
pub open spec fn spec_source_from_text(source: Seq<char>) -> SpecEffectSource {
    if starts_with(source, "inferred:"@) {
        SpecEffectSource::Inferred(source.skip(9))
    } else if starts_with(source, "stdlib:"@) {
        SpecEffectSource::Stdlib(source.skip(7))
    } else {
        SpecEffectSource::Decorator(source)
    }
}

/// The source that a stored source text denotes.
pub fn effect_source_from_fact_source(source: String) -> (res: EffectSource)
    ensures
        res@ == spec_source_from_text(source@),
{
    proof {
        reveal_strlit("inferred:");
        reveal_strlit("stdlib:");
    }
    if str_starts_with(&source, "inferred:") {
        let n = source.as_str().unicode_len();
        return EffectSource::Inferred(substring(&source, 9, n));
    }
    if str_starts_with(&source, "stdlib:") {
        let n = source.as_str().unicode_len();
        return EffectSource::Stdlib(substring(&source, 7, n));
    }
    EffectSource::Decorator(source)
}

/// The summary that a stored fact describes, under the given callable and owner names.
pub fn effect_summary_from_fact(
    callable: String,
    owner_type_name: Option<String>,
    fact: SummaryEffectFact,
) -> (res: EffectSummary)
    ensures
        res.wf(),
        res.callable@ == callable@,
        opt_view(res.owner_type_name) == opt_view(owner_type_name),
        res.pure == fact.pure,
        res.row@.to_set() == fact.effects@.map_values(|l: String| spec_kind_from_label(l@)).to_set(),
        res.sources@.map_values(|s: EffectSource| s@) == fact.sources@.map_values(
            |s: String| spec_source_from_text(s@),
        ),
        res.line == fact.line,
{
    let row = EffectRow::from_labels(fact.effects);
    let mut sources: Vec<EffectSource> = Vec::new();
    let n = fact.sources.len();
    let mut i: usize = 0;
    while i < n
        invariant
            n == fact.sources@.len(),
            i <= n,
            sources@.len() == i,
            forall|j: int| 0 <= j < i ==> sources@[j]@ == spec_source_from_text(fact.sources@[j]@),
        decreases n - i,
    {
        sources.push(effect_source_from_fact_source(fact.sources[i].clone()));
        i = i + 1;
    }
    assert(sources@.map_values(|s: EffectSource| s@) =~= fact.sources@.map_values(
        |s: String| spec_source_from_text(s@),
    ));
    EffectSummary {
        callable,
        owner_type_name,
        pure: fact.pure,
        row,
        sources,
        line: fact.line,
    }
}

/// The summary of an imported function, under the name it is imported as.
pub fn effect_summary_from_function_fact(local_name: String, fact: SummaryEffectFact) -> (res:
    EffectSummary)
    ensures
        res.wf(),
        res.callable@ == local_name@,
        res.owner_type_name is None,
        res.pure == fact.pure,
        res.row@.to_set() == fact.effects@.map_values(|l: String| spec_kind_from_label(l@)).to_set(),
        res.sources@.map_values(|s: EffectSource| s@) == fact.sources@.map_values(
            |s: String| spec_source_from_text(s@),
        ),
        res.line == fact.line,
{
    effect_summary_from_fact(local_name, None, fact)
}

/// The summary of a method of an imported class, owned by the name the class is imported as.
pub fn effect_summary_from_method_fact(local_owner_type_name: String, fact: SummaryEffectFact) -> (res:
    EffectSummary)
    ensures
        res.wf(),
        res.callable@ == fact.name@,
        opt_view(res.owner_type_name) == Some(local_owner_type_name@),
        res.pure == fact.pure,
        res.row@.to_set() == fact.effects@.map_values(|l: String| spec_kind_from_label(l@)).to_set(),
        res.sources@.map_values(|s: EffectSource| s@) == fact.sources@.map_values(
            |s: String| spec_source_from_text(s@),
        ),
        res.line == fact.line,
{
    let name = fact.name.clone();
    effect_summary_from_fact(name, Some(local_owner_type_name), fact)
}

} // verus!
