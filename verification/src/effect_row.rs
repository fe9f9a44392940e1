//! Effect kinds and effect rows: ordered sets of effects with a deterministic rendering.
use vstd::prelude::*;
use crate::text::{chars_lt, lemma_chars_lt_irreflexive, lemma_chars_lt_transitive, lemma_chars_lt_total, lemma_chars_lt_asymmetric, owned, str_eq, str_lt};

verus! {

/// An effect a callable may have.
#[derive(Debug, Clone)]
pub enum EffectKind {
    Unsafe,
    IoFs,
    IoNet,
    IoProc,
    Time,
    Random,
    RuntimeValidation,
    TaintSanitize,
    Declared(String),
}

/// The plain-value view of an effect kind.
pub enum SpecEffectKind {
    Unsafe,
    IoFs,
    IoNet,
    IoProc,
    Time,
    Random,
    RuntimeValidation,
    TaintSanitize,
    Declared(Seq<char>),
}

impl View for EffectKind {
    type V = SpecEffectKind;

    open spec fn view(&self) -> SpecEffectKind {
        match self {
            EffectKind::Unsafe => SpecEffectKind::Unsafe,
            EffectKind::IoFs => SpecEffectKind::IoFs,
            EffectKind::IoNet => SpecEffectKind::IoNet,
            EffectKind::IoProc => SpecEffectKind::IoProc,
            EffectKind::Time => SpecEffectKind::Time,
            EffectKind::Random => SpecEffectKind::Random,
            EffectKind::RuntimeValidation => SpecEffectKind::RuntimeValidation,
            EffectKind::TaintSanitize => SpecEffectKind::TaintSanitize,
            EffectKind::Declared(name) => SpecEffectKind::Declared(name@),
        }
    }
}

/// Position of a kind's variant in declaration order.
pub open spec fn kind_rank(k: SpecEffectKind) -> int {
    match k {
        SpecEffectKind::Unsafe => 0,
        SpecEffectKind::IoFs => 1,
        SpecEffectKind::IoNet => 2,
        SpecEffectKind::IoProc => 3,
        SpecEffectKind::Time => 4,
        SpecEffectKind::Random => 5,
        SpecEffectKind::RuntimeValidation => 6,
        SpecEffectKind::TaintSanitize => 7,
        SpecEffectKind::Declared(_) => 8,
    }
}

/// The order of effect kinds: by variant, then declared names lexicographically.
pub open spec fn kind_lt(a: SpecEffectKind, b: SpecEffectKind) -> bool {
    if kind_rank(a) != kind_rank(b) {
        kind_rank(a) < kind_rank(b)
    } else {
        match (a, b) {
            (SpecEffectKind::Declared(x), SpecEffectKind::Declared(y)) => chars_lt(x, y),
            _ => false,
        }
    }
}

/// `s` is strictly increasing in the kind order (so it holds no effect twice).
pub open spec fn sorted_kinds(s: Seq<SpecEffectKind>) -> bool {
    forall|i: int, j: int| 0 <= i < j < s.len() ==> kind_lt(s[i], s[j])
}

/// The label under which an effect is rendered.
pub open spec fn spec_label(k: SpecEffectKind) -> Seq<char> {
    match k {
        SpecEffectKind::Unsafe => "unsafe"@,
        SpecEffectKind::IoFs => "io.fs"@,
        SpecEffectKind::IoNet => "io.net"@,
        SpecEffectKind::IoProc => "io.proc"@,
        SpecEffectKind::Time => "time"@,
        SpecEffectKind::Random => "random"@,
        SpecEffectKind::RuntimeValidation => "runtime.validation"@,
        SpecEffectKind::TaintSanitize => "taint.sanitize"@,
        SpecEffectKind::Declared(name) => name,
    }
}

/// The effect a label names; any label that names no built-in effect is a declared effect.
pub open spec fn spec_kind_from_label(label: Seq<char>) -> SpecEffectKind {
    if label == "unsafe"@ {
        SpecEffectKind::Unsafe
    } else if label == "io.fs"@ {
        SpecEffectKind::IoFs
    } else if label == "io.net"@ {
        SpecEffectKind::IoNet
    } else if label == "io.proc"@ {
        SpecEffectKind::IoProc
    } else if label == "time"@ {
        SpecEffectKind::Time
    } else if label == "random"@ {
        SpecEffectKind::Random
    } else if label == "runtime.validation"@ {
        SpecEffectKind::RuntimeValidation
    } else if label == "taint.sanitize"@ {
        SpecEffectKind::TaintSanitize
    } else {
        SpecEffectKind::Declared(label)
    }
}

/// Whether `label` is the label of one of the built-in effects.
pub open spec fn is_builtin_label(label: Seq<char>) -> bool {
    spec_kind_from_label(label) !is Declared
}

pub proof fn lemma_kind_lt_irreflexive(a: SpecEffectKind)
    ensures
        !kind_lt(a, a),
{
    if let SpecEffectKind::Declared(x) = a {
        lemma_chars_lt_irreflexive(x);
    }
}

pub proof fn lemma_kind_lt_transitive(a: SpecEffectKind, b: SpecEffectKind, c: SpecEffectKind)
    requires
        kind_lt(a, b),
        kind_lt(b, c),
    ensures
        kind_lt(a, c),
{
    if let (SpecEffectKind::Declared(x), SpecEffectKind::Declared(y), SpecEffectKind::Declared(z)) =
        (a, b, c) {
        lemma_chars_lt_transitive(x, y, z);
    }
}

pub proof fn lemma_kind_lt_total(a: SpecEffectKind, b: SpecEffectKind)
    ensures
        a == b || kind_lt(a, b) || kind_lt(b, a),
{
    if let (SpecEffectKind::Declared(x), SpecEffectKind::Declared(y)) = (a, b) {
        lemma_chars_lt_total(x, y);
    }
}

pub proof fn lemma_kind_lt_asymmetric(a: SpecEffectKind, b: SpecEffectKind)
    requires
        kind_lt(a, b),
    ensures
        !kind_lt(b, a),
{
    if let (SpecEffectKind::Declared(x), SpecEffectKind::Declared(y)) = (a, b) {
        lemma_chars_lt_asymmetric(x, y);
    }
}

/// Two strictly increasing sequences with the same elements are the same sequence.
pub proof fn lemma_sorted_kinds_unique(s: Seq<SpecEffectKind>, t: Seq<SpecEffectKind>)
    requires
        sorted_kinds(s),
        sorted_kinds(t),
        s.to_set() == t.to_set(),
    ensures
        s == t,
    decreases s.len(),
{
    if s.len() == 0 {
        if t.len() > 0 {
            assert(t.to_set().contains(t[0]));
        }
        assert(s =~= t);
    } else if t.len() == 0 {
        assert(s.to_set().contains(s[0]));
    } else {
        // The first elements are the minima of the same set.
        assert(s.to_set().contains(s[0]));
        assert(t.to_set().contains(t[0]));
        assert(t.contains(s[0]));
        assert(s.contains(t[0]));
        let i = choose|i: int| 0 <= i < t.len() && t[i] == s[0];
        let j = choose|j: int| 0 <= j < s.len() && s[j] == t[0];
        if i > 0 {
            assert(kind_lt(t[0], s[0]));
            if j > 0 {
                assert(kind_lt(s[0], t[0]));
                lemma_kind_lt_asymmetric(s[0], t[0]);
            } else {
                lemma_kind_lt_irreflexive(s[0]);
            }
        }
        assert(s[0] == t[0]);
        let s1 = s.drop_first();
        let t1 = t.drop_first();
        assert forall|x: SpecEffectKind| s1.to_set().contains(x) <==> t1.to_set().contains(x) by {
            if s1.contains(x) {
                let k = choose|k: int| 0 <= k < s1.len() && s1[k] == x;
                assert(kind_lt(s[0], s[k + 1]));
                assert(t.to_set().contains(x)) by {
                    assert(s.to_set().contains(s[k + 1]));
                }
                let m = choose|m: int| 0 <= m < t.len() && t[m] == x;
                if m == 0 {
                    lemma_kind_lt_irreflexive(x);
                }
                assert(t1[m - 1] == x);
            }
            if t1.contains(x) {
                let k = choose|k: int| 0 <= k < t1.len() && t1[k] == x;
                assert(kind_lt(t[0], t[k + 1]));
                assert(s.to_set().contains(x)) by {
                    assert(t.to_set().contains(t[k + 1]));
                }
                let m = choose|m: int| 0 <= m < s.len() && s[m] == x;
                if m == 0 {
                    lemma_kind_lt_irreflexive(x);
                }
                assert(s1[m - 1] == x);
            }
        }
        assert(s1.to_set() =~= t1.to_set());
        lemma_sorted_kinds_unique(s1, t1);
        assert(s =~= t) by {
            assert forall|k: int| 0 <= k < s.len() implies s[k] == t[k] by {
                if k > 0 {
                    assert(s[k] == s1[k - 1]);
                    assert(t[k] == t1[k - 1]);
                }
            }
        }
    }
}

impl EffectKind {
    /// The label under which this effect is rendered.
    pub fn label(&self) -> (res: String)
        ensures
            res@ == spec_label(self@),
    {
        match self {
            EffectKind::Unsafe => owned("unsafe"),
            EffectKind::IoFs => owned("io.fs"),
            EffectKind::IoNet => owned("io.net"),
            EffectKind::IoProc => owned("io.proc"),
            EffectKind::Time => owned("time"),
            EffectKind::Random => owned("random"),
            EffectKind::RuntimeValidation => owned("runtime.validation"),
            EffectKind::TaintSanitize => owned("taint.sanitize"),
            EffectKind::Declared(name) => name.clone(),
        }
    }

    /// A copy of this effect.
    pub fn duplicate(&self) -> (res: EffectKind)
        ensures
            res@ == self@,
    {
        match self {
            EffectKind::Unsafe => EffectKind::Unsafe,
            EffectKind::IoFs => EffectKind::IoFs,
            EffectKind::IoNet => EffectKind::IoNet,
            EffectKind::IoProc => EffectKind::IoProc,
            EffectKind::Time => EffectKind::Time,
            EffectKind::Random => EffectKind::Random,
            EffectKind::RuntimeValidation => EffectKind::RuntimeValidation,
            EffectKind::TaintSanitize => EffectKind::TaintSanitize,
            EffectKind::Declared(name) => EffectKind::Declared(name.clone()),
        }
    }

    fn rank(&self) -> (res: u8)
        ensures
            res as int == kind_rank(self@),
    {
        match self {
            EffectKind::Unsafe => 0,
            EffectKind::IoFs => 1,
            EffectKind::IoNet => 2,
            EffectKind::IoProc => 3,
            EffectKind::Time => 4,
            EffectKind::Random => 5,
            EffectKind::RuntimeValidation => 6,
            EffectKind::TaintSanitize => 7,
            EffectKind::Declared(_) => 8,
        }
    }

    /// Whether this is the same effect as `other`.
    pub fn same(&self, other: &EffectKind) -> (res: bool)
        ensures
            res == (self@ == other@),
    {
        match (self, other) {
            (EffectKind::Declared(a), EffectKind::Declared(b)) => str_eq(a.as_str(), b.as_str()),
            _ => self.rank() == other.rank(),
        }
    }

    /// Whether this effect sorts strictly before `other`.
    pub fn precedes(&self, other: &EffectKind) -> (res: bool)
        ensures
            res == kind_lt(self@, other@),
    {
        match (self, other) {
            (EffectKind::Declared(a), EffectKind::Declared(b)) => str_lt(a.as_str(), b.as_str()),
            _ => self.rank() < other.rank(),
        }
    }
}

/// The effect that `label` names.
pub fn effect_kind_from_label(label: &str) -> (res: EffectKind)
    ensures
        res@ == spec_kind_from_label(label@),
{
    if str_eq(label, "unsafe") {
        EffectKind::Unsafe
    } else if str_eq(label, "io.fs") {
        EffectKind::IoFs
    } else if str_eq(label, "io.net") {
        EffectKind::IoNet
    } else if str_eq(label, "io.proc") {
        EffectKind::IoProc
    } else if str_eq(label, "time") {
        EffectKind::Time
    } else if str_eq(label, "random") {
        EffectKind::Random
    } else if str_eq(label, "runtime.validation") {
        EffectKind::RuntimeValidation
    } else if str_eq(label, "taint.sanitize") {
        EffectKind::TaintSanitize
    } else {
        EffectKind::Declared(owned(label))
    }
}

/// A set of effects, kept in increasing kind order.
#[derive(Debug, Clone)]
pub struct EffectRow {
    effects: Vec<EffectKind>,
}

impl View for EffectRow {
    type V = Seq<SpecEffectKind>;

    closed spec fn view(&self) -> Seq<SpecEffectKind> {
        self.effects@.map_values(|k: EffectKind| k@)
    }
}

/// The labels of the effects in `row`, in row order.
pub open spec fn spec_labels(row: Seq<SpecEffectKind>) -> Seq<Seq<char>> {
    row.map_values(|k: SpecEffectKind| spec_label(k))
}

impl EffectRow {
    /// The row's effects are held in strictly increasing order.
    pub open spec fn wf(&self) -> bool {
        sorted_kinds(self@)
    }

    /// The row with no effects.
    pub fn empty() -> (res: EffectRow)
        ensures
            res.wf(),
            res@ == Seq::<SpecEffectKind>::empty(),
    {
        let r = EffectRow { effects: Vec::new() };
        assert(r@ =~= Seq::<SpecEffectKind>::empty());
        r
    }

    /// Adds `effect` to the row.
    pub fn insert(&mut self, effect: EffectKind)
        requires
            old(self).wf(),
        ensures
            final(self).wf(),
            final(self)@.to_set() == old(self)@.to_set().insert(effect@),
    {
        let ghost old_view = self@;
        let n = self.effects.len();
        let mut i: usize = 0;
        while i < n && self.effects[i].precedes(&effect)
            invariant
                n == self.effects.len(),
                i <= n,
                self@ == old_view,
                sorted_kinds(old_view),
                forall|j: int| 0 <= j < i ==> kind_lt(old_view[j], effect@),
            decreases n - i,
        {
            i = i + 1;
        }
        if i < n && self.effects[i].same(&effect) {
            assert(old_view[i as int] == effect@);
            assert(old_view.to_set().insert(effect@) =~= old_view.to_set());
            return;
        }
        proof {
            if i < n {
                lemma_kind_lt_total(old_view[i as int], effect@);
            }
        }
        self.effects.insert(i, effect);
        assert(self@ =~= old_view.insert(i as int, effect@));
        assert forall|a: int, b: int| 0 <= a < b < self@.len() implies kind_lt(self@[a], self@[b]) by {
            if b < i {
            } else if b == i {
            } else if a < i {
                assert(kind_lt(old_view[a], effect@));
                assert(kind_lt(effect@, old_view[i as int]));
                lemma_kind_lt_transitive(old_view[a], effect@, old_view[i as int]);
                if b - 1 > i {
                    lemma_kind_lt_transitive(old_view[a], old_view[i as int], old_view[b - 1]);
                }
            } else if a == i {
                if b - 1 > i {
                    lemma_kind_lt_transitive(effect@, old_view[i as int], old_view[b - 1]);
                }
            } else {
            }
        }
        assert(self@.to_set() =~= old_view.to_set().insert(effect@)) by {
            assert forall|x: SpecEffectKind| self@.to_set().contains(x) implies old_view.to_set().insert(
                effect@,
            ).contains(x) by {
                let k = choose|k: int| 0 <= k < self@.len() && self@[k] == x;
                if k < i {
                    assert(old_view[k] == x);
                } else if k > i {
                    assert(old_view[k - 1] == x);
                }
            }
            assert forall|x: SpecEffectKind| old_view.to_set().insert(effect@).contains(
                x,
            ) implies self@.to_set().contains(x) by {
                if x == effect@ {
                    assert(self@[i as int] == x);
                } else {
                    let k = choose|k: int| 0 <= k < old_view.len() && old_view[k] == x;
                    if k < i {
                        assert(self@[k] == x);
                    } else {
                        assert(self@[k + 1] == x);
                    }
                }
            }
        }
    }

    /// Adds every effect of `other` to the row.
    pub fn extend(&mut self, other: &EffectRow)
        requires
            old(self).wf(),
        ensures
            final(self).wf(),
            final(self)@.to_set() == old(self)@.to_set().union(other@.to_set()),
    {
        let ghost old_set = self@.to_set();
        let n = other.effects.len();
        let mut i: usize = 0;
        assert(other@.take(0).to_set() =~= Set::<SpecEffectKind>::empty());
        assert(old_set.union(Set::empty()) =~= old_set);
        while i < n
            invariant
                n == other.effects.len(),
                i <= n,
                self.wf(),
                self@.to_set() == old_set.union(other@.take(i as int).to_set()),
            decreases n - i,
        {
            self.insert(other.effects[i].duplicate());
            assert(other@.take(i + 1) =~= other@.take(i as int).push(other@[i as int]));
            proof {
                other@.take(i as int).lemma_push_to_set_commute(other@[i as int]);
            }
            assert(other@.take(i + 1).to_set() =~= other@.take(i as int).to_set().insert(
                other@[i as int],
            ));
            assert(self@.to_set() =~= old_set.union(other@.take(i + 1).to_set()));
            i = i + 1;
        }
        assert(other@.take(n as int) =~= other@);
    }

    /// Whether the row holds no effect.
    pub fn is_empty(&self) -> (res: bool)
        ensures
            res == (self@.len() == 0),
    {
        self.effects.len() == 0
    }

    /// The labels of the row's effects, in row order.
    pub fn labels(&self) -> (res: Vec<String>)
        ensures
            res@.map_values(|s: String| s@) == spec_labels(self@),
    {
        let mut out: Vec<String> = Vec::new();
        let n = self.effects.len();
        let mut i: usize = 0;
        while i < n
            invariant
                n == self.effects.len(),
                i <= n,
                out@.len() == i,
                forall|j: int| 0 <= j < i ==> out@[j]@ == spec_label(self@[j]),
            decreases n - i,
        {
            out.push(self.effects[i].label());
            i = i + 1;
        }
        assert(out@.map_values(|s: String| s@) =~= spec_labels(self@));
        out
    }

    /// The row holding the effect each label names.
    pub fn from_labels(labels: Vec<String>) -> (res: EffectRow)
        ensures
            res.wf(),
            res@.to_set() == labels@.map_values(|l: String| spec_kind_from_label(l@)).to_set(),
    {
        let ghost kinds = labels@.map_values(|l: String| spec_kind_from_label(l@));
        let mut row = EffectRow::empty();
        let n = labels.len();
        let mut i: usize = 0;
        assert(kinds.take(0).to_set() =~= row@.to_set());
        while i < n
            invariant
                n == labels.len(),
                i <= n,
                row.wf(),
                kinds == labels@.map_values(|l: String| spec_kind_from_label(l@)),
                row@.to_set() == kinds.take(i as int).to_set(),
            decreases n - i,
        {
            row.insert(effect_kind_from_label(labels[i].as_str()));
            assert(kinds.take(i + 1) =~= kinds.take(i as int).push(kinds[i as int]));
            proof {
                kinds.take(i as int).lemma_push_to_set_commute(kinds[i as int]);
            }
            assert(kinds.take(i + 1).to_set() =~= kinds.take(i as int).to_set().insert(
                kinds[i as int],
            ));
            i = i + 1;
        }
        assert(kinds.take(n as int) =~= kinds);
        row
    }

    /// Whether the row holds `effect`.
    pub fn contains(&self, effect: &EffectKind) -> (res: bool)
        ensures
            res == self@.contains(effect@),
    {
        let n = self.effects.len();
        let mut i: usize = 0;
        while i < n
            invariant
                n == self.effects.len(),
                i <= n,
                forall|j: int| 0 <= j < i ==> self@[j] != effect@,
            decreases n - i,
        {
            if self.effects[i].same(effect) {
                assert(self@[i as int] == effect@);
                return true;
            }
            i = i + 1;
        }
        false
    }

    /// Whether every effect of `required` is in this row.
    pub fn covers(&self, required: &EffectRow) -> (res: bool)
        ensures
            res == required@.to_set().subset_of(self@.to_set()),
    {
        let n = required.effects.len();
        let mut i: usize = 0;
        while i < n
            invariant
                n == required.effects.len(),
                i <= n,
                forall|j: int| 0 <= j < i ==> self@.contains(required@[j]),
            decreases n - i,
        {
            if !self.contains(&required.effects[i]) {
                assert(required@.to_set().contains(required@[i as int]));
                return false;
            }
            i = i + 1;
        }
        assert forall|x: SpecEffectKind| required@.to_set().contains(x) implies self@.to_set().contains(
            x,
        ) by {
            let k = choose|k: int| 0 <= k < required@.len() && required@[k] == x;
        }
        true
    }
}

impl EffectRow {
    /// A copy of the row.
    pub fn duplicate(&self) -> (res: EffectRow)
        ensures
            res@ == self@,
    {
        let mut out: Vec<EffectKind> = Vec::new();
        let n = self.effects.len();
        let mut i: usize = 0;
        while i < n
            invariant
                n == self.effects.len(),
                i <= n,
                out@.len() == i,
                forall|j: int| 0 <= j < i ==> out@[j]@ == self@[j],
            decreases n - i,
        {
            out.push(self.effects[i].duplicate());
            i = i + 1;
        }
        let r = EffectRow { effects: out };
        assert(r@ =~= self@);
        r
    }

    /// Whether the two rows hold the same effects in the same order.
    pub fn same_row(&self, other: &EffectRow) -> (res: bool)
        ensures
            res == (self@ == other@),
    {
        let n = self.effects.len();
        if n != other.effects.len() {
            assert(self@.len() != other@.len());
            return false;
        }
        let mut i: usize = 0;
        while i < n
            invariant
                n == self.effects.len(),
                n == other.effects.len(),
                i <= n,
                forall|j: int| 0 <= j < i ==> self@[j] == other@[j],
            decreases n - i,
        {
            if !self.effects[i].same(&other.effects[i]) {
                assert(self@[i as int] != other@[i as int]);
                return false;
            }
            i = i + 1;
        }
        assert(self@ =~= other@);
        true
    }
}

/// Rows in increasing order hold the same effects exactly when they are the same sequence.
pub proof fn lemma_row_set_eq(a: Seq<SpecEffectKind>, b: Seq<SpecEffectKind>)
    requires
        sorted_kinds(a),
        sorted_kinds(b),
    ensures
        (a.to_set() == b.to_set()) == (a == b),
{
    if a.to_set() == b.to_set() {
        lemma_sorted_kinds_unique(a, b);
    }
}

} // verus!
