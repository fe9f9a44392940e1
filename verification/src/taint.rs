//! Taint facts (sources, sinks and sanitizers, each for an optional context) and the set algebra
//! that decides which contexts of a value are still tainted when it reaches a sink.
use vstd::prelude::*;
use crate::effect_summary::{opt_view, clone_opt, opt_str_eq, SummaryEffectFact};
use crate::text::{
    owned, str_eq, str_split_once, str_last_segment, split_once, last_segment, contains_char,
    str_rsplit_once, rsplit_once,
};

verus! {

/// The role a taint fact gives a callable.
#[derive(Debug, Clone, Copy, PartialEq, Eq, Structural)]
pub enum TaintFactKind {
    Source,
    Sink,
    Sanitizer,
}

/// A taint role, optionally restricted to a named context.
#[derive(Debug, Clone)]
pub struct TaintFact {
    pub kind: TaintFactKind,
    pub context: Option<String>,
}

/// The plain-value view of a taint fact.
pub type SpecTaintFact = (TaintFactKind, Option<Seq<char>>);

impl View for TaintFact {
    type V = SpecTaintFact;

    open spec fn view(&self) -> SpecTaintFact {
        (self.kind, opt_view(self.context))
    }
}

impl TaintFact {
    /// A source fact for `context`.
    pub fn source(context: Option<String>) -> (res: TaintFact)
        ensures
            res@ == (TaintFactKind::Source, opt_view(context)),
    {
        TaintFact { kind: TaintFactKind::Source, context }
    }

    /// A sink fact for `context`.
    pub fn sink(context: Option<String>) -> (res: TaintFact)
        ensures
            res@ == (TaintFactKind::Sink, opt_view(context)),
    {
        TaintFact { kind: TaintFactKind::Sink, context }
    }

    /// A sanitizer fact for `context`.
    pub fn sanitizer(context: Option<String>) -> (res: TaintFact)
        ensures
            res@ == (TaintFactKind::Sanitizer, opt_view(context)),
    {
        TaintFact { kind: TaintFactKind::Sanitizer, context }
    }

    /// A copy of this fact.
    pub fn duplicate(&self) -> (res: TaintFact)
        ensures
            res@ == self@,
    {
        TaintFact { kind: self.kind, context: clone_opt(&self.context) }
    }
}

/// A set of taint facts.
#[derive(Debug, Clone)]
pub struct TaintFacts {
    items: Vec<TaintFact>,
}

impl View for TaintFacts {
    type V = Set<SpecTaintFact>;

    closed spec fn view(&self) -> Set<SpecTaintFact> {
        self.items@.map_values(|f: TaintFact| f@).to_set()
    }
}

impl TaintFacts {
    /// The empty set of facts.
    pub fn new() -> (res: TaintFacts)
        ensures
            res@ == Set::<SpecTaintFact>::empty(),
    {
        let r = TaintFacts { items: Vec::new() };
        assert(r@ =~= Set::<SpecTaintFact>::empty());
        r
    }

    /// Whether the set holds no fact.
    pub fn is_empty(&self) -> (res: bool)
        ensures
            res == (self@ == Set::<SpecTaintFact>::empty()),
    {
        let r = self.items.len() == 0;
        if !r {
            let ghost v = self.items@.map_values(|f: TaintFact| f@);
            assert(v[0] == self.items@[0]@);
            assert(v.contains(v[0]));
            assert(self@.contains(v[0]));
            assert(!Set::empty().contains(v[0]));
        } else {
            assert(self@ =~= Set::<SpecTaintFact>::empty());
        }
        r
    }

    /// Adds `fact` to the set.
    pub fn insert(&mut self, fact: TaintFact)
        ensures
            final(self)@ == old(self)@.insert(fact@),
    {
        let ghost before = self.items@;
        self.items.push(fact);
        proof {
            before.map_values(|f: TaintFact| f@).lemma_push_to_set_commute(fact@);
        }
        assert(self.items@.map_values(|f: TaintFact| f@) =~= before.map_values(|f: TaintFact| f@).push(
            fact@,
        ));
    }

    /// Adds every fact of `other` to the set.
    pub fn extend(&mut self, other: &TaintFacts)
        ensures
            final(self)@ == old(self)@.union(other@),
    {
        let ghost start = self@;
        let ghost ov = other.items@.map_values(|f: TaintFact| f@);
        let n = other.items.len();
        let mut i: usize = 0;
        assert(ov.take(0).to_set() =~= Set::<SpecTaintFact>::empty());
        assert(start.union(Set::empty()) =~= start);
        while i < n
            invariant
                n == other.items@.len(),
                i <= n,
                ov == other.items@.map_values(|f: TaintFact| f@),
                self@ == start.union(ov.take(i as int).to_set()),
            decreases n - i,
        {
            self.insert(other.items[i].duplicate());
            assert(ov.take(i + 1) =~= ov.take(i as int).push(ov[i as int]));
            proof {
                ov.take(i as int).lemma_push_to_set_commute(ov[i as int]);
            }
            assert(self@ =~= start.union(ov.take(i + 1).to_set()));
            i = i + 1;
        }
        assert(ov.take(n as int) =~= ov);
    }

    /// The contexts of the facts of `kind`.
    pub fn contexts_of_kind(&self, kind: TaintFactKind) -> (res: TaintContexts)
        ensures
            res@ == Set::new(|c: Option<Seq<char>>| self@.contains((kind, c))),
    {
        let ghost fv = self.items@.map_values(|f: TaintFact| f@);
        let mut out = TaintContexts::new();
        let n = self.items.len();
        let mut i: usize = 0;
        while i < n
            invariant
                n == self.items@.len(),
                i <= n,
                fv == self.items@.map_values(|f: TaintFact| f@),
                out@ == Set::new(
                    |c: Option<Seq<char>>|
                        exists|j: int| 0 <= j < i && #[trigger] fv[j] == (kind, c),
                ),
            decreases n - i,
        {
            let ghost before = out@;
            if self.items[i].kind == kind {
                out.insert(clone_opt(&self.items[i].context));
            }
            assert(out@ =~= Set::new(
                |c: Option<Seq<char>>| exists|j: int| 0 <= j < i + 1 && #[trigger] fv[j] == (kind, c),
            )) by {
                assert forall|c: Option<Seq<char>>| out@.contains(c) implies exists|j: int|
                    0 <= j < i + 1 && #[trigger] fv[j] == (kind, c) by {
                    if before.contains(c) {
                        let j = choose|j: int| 0 <= j < i && #[trigger] fv[j] == (kind, c);
                        assert(0 <= j < i + 1 && fv[j] == (kind, c));
                    } else {
                        assert(fv[i as int] == (kind, c));
                    }
                }
                assert forall|c: Option<Seq<char>>|
                    (exists|j: int| 0 <= j < i + 1 && #[trigger] fv[j] == (kind, c)) implies out@.contains(
                    c,
                ) by {
                    let j = choose|j: int| 0 <= j < i + 1 && #[trigger] fv[j] == (kind, c);
                    if j < i {
                        assert(before.contains(c));
                    }
                }
            }
            i = i + 1;
        }
        assert(out@ =~= Set::new(|c: Option<Seq<char>>| self@.contains((kind, c)))) by {
            assert forall|c: Option<Seq<char>>| self@.contains((kind, c)) implies out@.contains(c) by {
                let j = choose|j: int| 0 <= j < fv.len() && fv[j] == (kind, c);
            }
        }
        out
    }
}

/// A set of taint contexts; `None` stands for every context.
#[derive(Debug)]
pub struct TaintContexts {
    items: Vec<Option<String>>,
}

impl View for TaintContexts {
    type V = Set<Option<Seq<char>>>;

    closed spec fn view(&self) -> Set<Option<Seq<char>>> {
        self.items@.map_values(|c: Option<String>| opt_view(c)).to_set()
    }
}

impl TaintContexts {
    /// No context is stored twice.
    #[verifier::type_invariant]
    spec fn stored_once(self) -> bool {
        self.items@.map_values(|c: Option<String>| opt_view(c)).no_duplicates()
    }

    /// The empty set of contexts.
    pub fn new() -> (res: TaintContexts)
        ensures
            res@ == Set::<Option<Seq<char>>>::empty(),
    {
        let r = TaintContexts { items: Vec::new() };
        assert(r@ =~= Set::<Option<Seq<char>>>::empty());
        r
    }

    /// The number of stored entries, which bounds the positions `get` accepts.
    pub closed spec fn spec_len(&self) -> nat {
        self.items@.len()
    }

    /// The context stored at position `i`.
    pub closed spec fn spec_get(&self, i: int) -> Option<Seq<char>> {
        opt_view(self.items@[i])
    }

    /// The stored entries are exactly the set's elements.
    pub proof fn lemma_entries(&self)
        ensures
            forall|i: int| 0 <= i < self.spec_len() ==> self@.contains(#[trigger] self.spec_get(i)),
            forall|c: Option<Seq<char>>|
                #[trigger] self@.contains(c) ==> exists|i: int|
                    0 <= i < self.spec_len() && self.spec_get(i) == c,
    {
        let v = self.items@.map_values(|c: Option<String>| opt_view(c));
        assert forall|i: int| 0 <= i < self.spec_len() implies self@.contains(
            #[trigger] self.spec_get(i),
        ) by {
            assert(v[i] == self.spec_get(i));
        }
        assert forall|c: Option<Seq<char>>| #[trigger] self@.contains(c) implies exists|i: int|
            0 <= i < self.spec_len() && self.spec_get(i) == c by {
            let i = choose|i: int| 0 <= i < v.len() && v[i] == c;
            assert(self.spec_get(i) == c);
        }
    }

    /// The number of contexts in the set.
    pub fn len(&self) -> (res: usize)
        ensures
            res == self.spec_len(),
            res == self@.len(),
    {
        proof {
            use_type_invariant(self);
            self.items@.map_values(|c: Option<String>| opt_view(c)).unique_seq_to_set();
        }
        self.items.len()
    }

    /// A copy of the context stored at position `i`.
    pub fn get(&self, i: usize) -> (res: Option<String>)
        requires
            i < self.spec_len(),
        ensures
            opt_view(res) == self.spec_get(i as int),
    {
        clone_opt(&self.items[i])
    }

    /// Whether the set holds no context.
    pub fn is_empty(&self) -> (res: bool)
        ensures
            res == (self@ == Set::<Option<Seq<char>>>::empty()),
    {
        let r = self.items.len() == 0;
        if !r {
            let ghost v = self.items@.map_values(|c: Option<String>| opt_view(c));
            assert(v[0] == opt_view(self.items@[0]));
            assert(v.contains(v[0]));
            assert(self@.contains(v[0]));
            assert(!Set::empty().contains(v[0]));
        } else {
            assert(self@ =~= Set::<Option<Seq<char>>>::empty());
        }
        r
    }

    /// Whether the set holds `context`.
    pub fn contains(&self, context: &Option<String>) -> (res: bool)
        ensures
            res == self@.contains(opt_view(*context)),
    {
        let ghost v = self.items@.map_values(|c: Option<String>| opt_view(c));
        let n = self.items.len();
        let mut i: usize = 0;
        while i < n
            invariant
                n == self.items@.len(),
                i <= n,
                v == self.items@.map_values(|c: Option<String>| opt_view(c)),
                forall|j: int| 0 <= j < i ==> v[j] != opt_view(*context),
            decreases n - i,
        {
            if opt_str_eq(&self.items[i], context) {
                assert(v[i as int] == opt_view(*context));
                return true;
            }
            i = i + 1;
        }
        false
    }

    /// Adds `context` to the set.
    pub fn insert(&mut self, context: Option<String>)
        ensures
            final(self)@ == old(self)@.insert(opt_view(context)),
    {
        proof {
            use_type_invariant(&*self);
        }
        if self.contains(&context) {
            assert(self@.insert(opt_view(context)) =~= self@);
            return;
        }
        let ghost before = self.items@;
        proof {
            let bv = before.map_values(|c: Option<String>| opt_view(c));
            let pv = before.push(context).map_values(|c: Option<String>| opt_view(c));
            assert(pv =~= bv.push(opt_view(context)));
            assert(!bv.contains(opt_view(context)));
            assert forall|a: int, b: int| 0 <= a < pv.len() && 0 <= b < pv.len() && a != b implies pv[a] != pv[b] by {
                if a < bv.len() && b < bv.len() {
                    assert(pv[a] == bv[a] && pv[b] == bv[b]);
                } else if a < bv.len() {
                    assert(pv[a] == bv[a]);
                } else {
                    assert(pv[b] == bv[b]);
                }
            }
        }
        let mut items = copy_contexts(&self.items);
        items.push(context);
        assert(items@.map_values(|c: Option<String>| opt_view(c)) =~= before.push(context).map_values(
            |c: Option<String>| opt_view(c),
        ));
        self.items = items;
        proof {
            before.map_values(|c: Option<String>| opt_view(c)).lemma_push_to_set_commute(
                opt_view(context),
            );
        }
        assert(self.items@.map_values(|c: Option<String>| opt_view(c)) =~= before.map_values(
            |c: Option<String>| opt_view(c),
        ).push(opt_view(context)));
    }

    /// Adds every context of `other` to the set.
    pub fn extend(&mut self, other: &TaintContexts)
        ensures
            final(self)@ == old(self)@.union(other@),
    {
        let ghost start = self@;
        let ghost ov = other.items@.map_values(|c: Option<String>| opt_view(c));
        let n = other.items.len();
        let mut i: usize = 0;
        assert(ov.take(0).to_set() =~= Set::<Option<Seq<char>>>::empty());
        assert(start.union(Set::empty()) =~= start);
        while i < n
            invariant
                n == other.items@.len(),
                i <= n,
                ov == other.items@.map_values(|c: Option<String>| opt_view(c)),
                self@ == start.union(ov.take(i as int).to_set()),
            decreases n - i,
        {
            self.insert(clone_opt(&other.items[i]));
            assert(ov.take(i + 1) =~= ov.take(i as int).push(ov[i as int]));
            proof {
                ov.take(i as int).lemma_push_to_set_commute(ov[i as int]);
            }
            assert(self@ =~= start.union(ov.take(i + 1).to_set()));
            i = i + 1;
        }
        assert(ov.take(n as int) =~= ov);
    }

    /// Removes `context` from the set.
    pub fn remove(&mut self, context: &Option<String>)
        ensures
            final(self)@ == old(self)@.remove(opt_view(*context)),
    {
        proof {
            use_type_invariant(&*self);
        }
        let ghost target = opt_view(*context);
        let ghost ov = self.items@.map_values(|c: Option<String>| opt_view(c));
        let mut kept: Vec<Option<String>> = Vec::new();
        let n = self.items.len();
        let mut i: usize = 0;
        while i < n
            invariant
                n == self.items@.len(),
                i <= n,
                ov == self.items@.map_values(|c: Option<String>| opt_view(c)),
                target == opt_view(*context),
                kept@.map_values(|c: Option<String>| opt_view(c)).to_set() == ov.take(
                    i as int,
                ).to_set().remove(target),
                ov.no_duplicates(),
                kept@.map_values(|c: Option<String>| opt_view(c)).no_duplicates(),
            decreases n - i,
        {
            let ghost kv = kept@.map_values(|c: Option<String>| opt_view(c));
            assert(ov.take(i + 1) =~= ov.take(i as int).push(ov[i as int]));
            proof {
                ov.take(i as int).lemma_push_to_set_commute(ov[i as int]);
            }
            if !opt_str_eq(&self.items[i], context) {
                proof {
                    assert(!ov.take(i as int).contains(ov[i as int])) by {
                        if ov.take(i as int).contains(ov[i as int]) {
                            let k = choose|k: int| 0 <= k < i && ov.take(i as int)[k] == ov[i as int];
                            assert(ov[k] == ov[i as int]);
                        }
                    }
                    assert(!kv.contains(ov[i as int])) by {
                        if kv.contains(ov[i as int]) {
                            assert(kv.to_set().contains(ov[i as int]));
                        }
                    }
                }
                kept.push(clone_opt(&self.items[i]));
                proof {
                    kv.lemma_push_to_set_commute(ov[i as int]);
                    let nv = kept@.map_values(|c: Option<String>| opt_view(c));
                    assert(nv =~= kv.push(ov[i as int]));
                    assert forall|a: int, b: int| 0 <= a < nv.len() && 0 <= b < nv.len() && a != b implies nv[a]
                        != nv[b] by {
                        if a < kv.len() && b < kv.len() {
                            assert(nv[a] == kv[a] && nv[b] == kv[b]);
                        } else if a < kv.len() {
                            assert(nv[a] == kv[a]);
                        } else {
                            assert(nv[b] == kv[b]);
                        }
                    }
                }
                assert(kept@.map_values(|c: Option<String>| opt_view(c)) =~= kv.push(ov[i as int]));
                assert(kept@.map_values(|c: Option<String>| opt_view(c)).to_set() =~= ov.take(
                    i + 1,
                ).to_set().remove(target));
            } else {
                assert(kept@.map_values(|c: Option<String>| opt_view(c)).to_set() =~= ov.take(
                    i + 1,
                ).to_set().remove(target));
            }
            i = i + 1;
        }
        assert(ov.take(n as int) =~= ov);
        self.items = kept;
    }
}

fn copy_contexts(items: &Vec<Option<String>>) -> (res: Vec<Option<String>>)
    ensures
        res@.map_values(|c: Option<String>| opt_view(c)) == items@.map_values(|c: Option<String>| opt_view(c)),
{
    let mut out: Vec<Option<String>> = Vec::new();
    let n = items.len();
    let mut i: usize = 0;
    while i < n
        invariant
            n == items@.len(),
            i <= n,
            out@.len() == i,
            forall|j: int| 0 <= j < i ==> opt_view(#[trigger] out@[j]) == opt_view(items@[j]),
        decreases n - i,
    {
        out.push(clone_opt(&items[i]));
        i = i + 1;
    }
    assert(out@.map_values(|c: Option<String>| opt_view(c)) =~= items@.map_values(|c: Option<String>| opt_view(c)));
    out
}

/// The contexts of the facts of `kind`, if there is any.
pub open spec fn spec_contexts_for_kind(
    facts: Set<SpecTaintFact>,
    kind: TaintFactKind,
) -> Option<Set<Option<Seq<char>>>> {
    let contexts = Set::new(|c: Option<Seq<char>>| facts.contains((kind, c)));
    if contexts == Set::<Option<Seq<char>>>::empty() {
        None
    } else {
        Some(contexts)
    }
}

/// The set view of an optional context set.
pub open spec fn opt_contexts(o: Option<TaintContexts>) -> Option<Set<Option<Seq<char>>>> {
    match o {
        Some(c) => Some(c@),
        None => None,
    }
}

/// The contexts of the facts of `kind`, or `None` when there is none.
pub fn taint_contexts_for_kind(facts: &TaintFacts, kind: TaintFactKind) -> (res: Option<
    TaintContexts,
>)
    ensures
        opt_contexts(res) == spec_contexts_for_kind(facts@, kind),
{
    let contexts = facts.contexts_of_kind(kind);
    if contexts.is_empty() {
        None
    } else {
        Some(contexts)
    }
}

/// The contexts in which the facts make a callable a taint source.
pub fn taint_source_contexts(facts: &TaintFacts) -> (res: Option<TaintContexts>)
    ensures
        opt_contexts(res) == spec_contexts_for_kind(facts@, TaintFactKind::Source),
{
    taint_contexts_for_kind(facts, TaintFactKind::Source)
}

/// The contexts in which the facts make a callable a taint sink.
pub fn taint_sink_contexts(facts: &TaintFacts) -> (res: Option<TaintContexts>)
    ensures
        opt_contexts(res) == spec_contexts_for_kind(facts@, TaintFactKind::Sink),
{
    taint_contexts_for_kind(facts, TaintFactKind::Sink)
}

/// The contexts in which the facts make a callable a sanitizer.
pub fn taint_sanitizer_contexts(facts: &TaintFacts) -> (res: Option<TaintContexts>)
    ensures
        opt_contexts(res) == spec_contexts_for_kind(facts@, TaintFactKind::Sanitizer),
{
    taint_contexts_for_kind(facts, TaintFactKind::Sanitizer)
}

/// A source context reaches a sink context when either is unrestricted or they are equal.
pub open spec fn spec_context_matches(source: Option<Seq<char>>, sink: Option<Seq<char>>) -> bool {
    source is None || sink is None || source == sink
}

/// Whether a source context reaches a sink context.
pub fn taint_context_matches(source: &Option<String>, sink: &Option<String>) -> (res: bool)
    ensures
        res == spec_context_matches(opt_view(*source), opt_view(*sink)),
{
    source.is_none() || sink.is_none() || opt_str_eq(source, sink)
}

/// A sanitizer context removes a required context when it is unrestricted, or when both name
/// the same context.
pub open spec fn spec_sanitizer_covers(
    sanitizer: Option<Seq<char>>,
    required: Option<Seq<char>>,
) -> bool {
    sanitizer is None || (required is Some && sanitizer == required)
}

/// Whether a sanitizer context removes taint in a required context.
pub fn sanitizer_context_covers(sanitizer: &Option<String>, required: &Option<String>) -> (res: bool)
    ensures
        res == spec_sanitizer_covers(opt_view(*sanitizer), opt_view(*required)),
{
    sanitizer.is_none() || (required.is_some() && opt_str_eq(sanitizer, required))
}

/// Whether a set of sanitizer contexts removes taint in every context.
pub fn sanitizer_contexts_cover_all(contexts: &TaintContexts) -> (res: bool)
    ensures
        res == contexts@.contains(None),
{
    contexts.contains(&None)
}

/// The contexts of `contexts` that reach some required context; all of them when nothing is
/// required.
pub open spec fn spec_matching_required(
    contexts: Set<Option<Seq<char>>>,
    required: Option<Set<Option<Seq<char>>>>,
) -> Set<Option<Seq<char>>> {
    match required {
        None => contexts,
        Some(req) => contexts.filter(
            |c: Option<Seq<char>>|
                exists|r: Option<Seq<char>>| req.contains(r) && spec_context_matches(c, r),
        ),
    }
}

/// Whether some context of `required` is reached by `context`.
fn matches_some(context: &Option<String>, required: &TaintContexts) -> (res: bool)
    ensures
        res == exists|r: Option<Seq<char>>|
            required@.contains(r) && spec_context_matches(opt_view(*context), r),
{
    proof {
        required.lemma_entries();
    }
    let n = required.len();
    let mut i: usize = 0;
    while i < n
        invariant
            n == required.spec_len(),
            i <= n,
            forall|j: int|
                0 <= j < i ==> !spec_context_matches(opt_view(*context), #[trigger] required.spec_get(j)),
        decreases n - i,
    {
        let r = required.get(i);
        if taint_context_matches(context, &r) {
            proof {
                required.lemma_entries();
            }
            assert(required@.contains(required.spec_get(i as int)));
            return true;
        }
        i = i + 1;
    }
    assert forall|r: Option<Seq<char>>| required@.contains(r) implies !spec_context_matches(
        opt_view(*context),
        r,
    ) by {
        let j = choose|j: int| 0 <= j < required.spec_len() && required.spec_get(j) == r;
    }
    false
}

/// The contexts that reach some required context (all of them when nothing is required).
pub fn taint_contexts_matching_required(
    contexts: &TaintContexts,
    required: Option<&TaintContexts>,
) -> (res: TaintContexts)
    ensures
        res@ == spec_matching_required(
            contexts@,
            match required {
                Some(r) => Some(r@),
                None => None,
            },
        ),
{
    let required = match required {
        Some(r) => r,
        None => {
            return contexts.clone_set();
        },
    };
    let ghost pred = |c: Option<Seq<char>>|
        exists|r: Option<Seq<char>>| required@.contains(r) && spec_context_matches(c, r);
    proof {
        contexts.lemma_entries();
    }
    let mut out = TaintContexts::new();
    let n = contexts.len();
    let mut i: usize = 0;
    while i < n
        invariant
            n == contexts.spec_len(),
            i <= n,
            pred == (|c: Option<Seq<char>>|
                exists|r: Option<Seq<char>>| required@.contains(r) && spec_context_matches(c, r)),
            out@ == Set::new(
                |c: Option<Seq<char>>|
                    pred(c) && exists|j: int| 0 <= j < i && #[trigger] contexts.spec_get(j) == c,
            ),
        decreases n - i,
    {
        let c = contexts.get(i);
        let ghost before = out@;
        if matches_some(&c, required) {
            out.insert(c);
        }
        assert(out@ =~= Set::new(
            |x: Option<Seq<char>>|
                pred(x) && exists|j: int| 0 <= j < i + 1 && #[trigger] contexts.spec_get(j) == x,
        )) by {
            assert forall|x: Option<Seq<char>>|
                pred(x) && (exists|j: int| 0 <= j < i + 1 && #[trigger] contexts.spec_get(j) == x)
                    implies out@.contains(x) by {
                let j = choose|j: int| 0 <= j < i + 1 && #[trigger] contexts.spec_get(j) == x;
                if j < i {
                    assert(before.contains(x));
                }
            }
            assert forall|x: Option<Seq<char>>| out@.contains(x) implies pred(x) && exists|j: int|
                0 <= j < i + 1 && #[trigger] contexts.spec_get(j) == x by {
                if before.contains(x) {
                    let j = choose|j: int| 0 <= j < i && #[trigger] contexts.spec_get(j) == x;
                    assert(0 <= j < i + 1);
                } else {
                    assert(contexts.spec_get(i as int) == x);
                }
            }
        }
        i = i + 1;
    }
    assert(out@ =~= contexts@.filter(pred)) by {
        assert forall|x: Option<Seq<char>>| #[trigger] contexts@.contains(x) && pred(x) implies out@.contains(
            x,
        ) by {
            let j = choose|j: int| 0 <= j < contexts.spec_len() && contexts.spec_get(j) == x;
        }
        assert forall|x: Option<Seq<char>>| out@.contains(x) implies #[trigger] contexts@.contains(x)
            && pred(x) by {
            let j = choose|j: int| 0 <= j < i && #[trigger] contexts.spec_get(j) == x;
        }
    }
    out
}

/// The required contexts that the sanitizer contexts leave tainted (none when nothing is
/// required).
pub open spec fn spec_unsanitized_after(
    sanitizer: Set<Option<Seq<char>>>,
    required: Option<Set<Option<Seq<char>>>>,
) -> Set<Option<Seq<char>>> {
    match required {
        None => Set::empty(),
        Some(req) => req.filter(
            |r: Option<Seq<char>>|
                !exists|s: Option<Seq<char>>| sanitizer.contains(s) && spec_sanitizer_covers(s, r),
        ),
    }
}

/// Whether some sanitizer context covers `required`.
fn covered_by_some(sanitizers: &TaintContexts, required: &Option<String>) -> (res: bool)
    ensures
        res == exists|s: Option<Seq<char>>|
            sanitizers@.contains(s) && spec_sanitizer_covers(s, opt_view(*required)),
{
    proof {
        sanitizers.lemma_entries();
    }
    let n = sanitizers.len();
    let mut i: usize = 0;
    while i < n
        invariant
            n == sanitizers.spec_len(),
            i <= n,
            forall|j: int|
                0 <= j < i ==> !spec_sanitizer_covers(#[trigger] sanitizers.spec_get(j), opt_view(*required)),
        decreases n - i,
    {
        let s = sanitizers.get(i);
        if sanitizer_context_covers(&s, required) {
            proof {
                sanitizers.lemma_entries();
            }
            assert(sanitizers@.contains(sanitizers.spec_get(i as int)));
            return true;
        }
        i = i + 1;
    }
    assert forall|s: Option<Seq<char>>| sanitizers@.contains(s) implies !spec_sanitizer_covers(
        s,
        opt_view(*required),
    ) by {
        let j = choose|j: int| 0 <= j < sanitizers.spec_len() && sanitizers.spec_get(j) == s;
    }
    false
}

/// The required contexts that a sanitizer with the given contexts leaves tainted.
pub fn unsanitized_contexts_after_sanitizer(
    sanitizer_contexts: &TaintContexts,
    required_contexts: Option<&TaintContexts>,
) -> (res: TaintContexts)
    ensures
        res@ == spec_unsanitized_after(
            sanitizer_contexts@,
            match required_contexts {
                Some(r) => Some(r@),
                None => None,
            },
        ),
{
    let required = match required_contexts {
        Some(r) => r,
        None => {
            return TaintContexts::new();
        },
    };
    let ghost pred = |r: Option<Seq<char>>|
        !exists|s: Option<Seq<char>>| sanitizer_contexts@.contains(s) && spec_sanitizer_covers(s, r);
    proof {
        required.lemma_entries();
    }
    let mut out = TaintContexts::new();
    let n = required.len();
    let mut i: usize = 0;
    while i < n
        invariant
            n == required.spec_len(),
            i <= n,
            pred == (|r: Option<Seq<char>>|
                !exists|s: Option<Seq<char>>|
                    sanitizer_contexts@.contains(s) && spec_sanitizer_covers(s, r)),
            out@ == Set::new(
                |c: Option<Seq<char>>|
                    pred(c) && exists|j: int| 0 <= j < i && #[trigger] required.spec_get(j) == c,
            ),
        decreases n - i,
    {
        let c = required.get(i);
        let ghost before = out@;
        if !covered_by_some(sanitizer_contexts, &c) {
            out.insert(c);
        }
        assert(out@ =~= Set::new(
            |x: Option<Seq<char>>|
                pred(x) && exists|j: int| 0 <= j < i + 1 && #[trigger] required.spec_get(j) == x,
        )) by {
            assert forall|x: Option<Seq<char>>|
                pred(x) && (exists|j: int| 0 <= j < i + 1 && #[trigger] required.spec_get(j) == x)
                    implies out@.contains(x) by {
                let j = choose|j: int| 0 <= j < i + 1 && #[trigger] required.spec_get(j) == x;
                if j < i {
                    assert(before.contains(x));
                }
            }
            assert forall|x: Option<Seq<char>>| out@.contains(x) implies pred(x) && exists|j: int|
                0 <= j < i + 1 && #[trigger] required.spec_get(j) == x by {
                if before.contains(x) {
                    let j = choose|j: int| 0 <= j < i && #[trigger] required.spec_get(j) == x;
                    assert(0 <= j < i + 1);
                } else {
                    assert(required.spec_get(i as int) == x);
                }
            }
        }
        i = i + 1;
    }
    assert(out@ =~= required@.filter(pred)) by {
        assert forall|x: Option<Seq<char>>| #[trigger] required@.contains(x) && pred(x) implies out@.contains(
            x,
        ) by {
            let j = choose|j: int| 0 <= j < required.spec_len() && required.spec_get(j) == x;
        }
        assert forall|x: Option<Seq<char>>| out@.contains(x) implies #[trigger] required@.contains(x)
            && pred(x) by {
            let j = choose|j: int| 0 <= j < i && #[trigger] required.spec_get(j) == x;
        }
    }
    out
}

impl TaintContexts {
    /// A copy of the set.
    pub fn clone_set(&self) -> (res: TaintContexts)
        ensures
            res@ == self@,
    {
        let mut out = TaintContexts::new();
        out.extend(self);
        assert(out@ =~= self@);
        out
    }
}

} // verus!
