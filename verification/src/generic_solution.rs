//! What generic inference binds: types to type variables, parameter lists to parameter
//! specifications and type lists to type packs, kept as tables keyed by the parameter's name.
use vstd::prelude::*;
use crate::declarations::{
    Declaration, GenericTypeParam, GenericTypeParamKind, insert_sorted_name, name_order, rising, string_views,
};
use crate::effect_summary::{clone_opt, opt_view};
use crate::semantic_types::{SemanticType, TypeView, clone_types, same_types, types_view};
use crate::text::{decimal, decimal_string, owned};
use crate::text::str_eq;

verus! {

/// A value that can be copied and compared by its view.
pub trait TableValue: View + Sized {
    fn duplicate(&self) -> (res: Self)
        ensures
            res@ == self@,
    ;

    fn same(&self, other: &Self) -> (res: bool)
        ensures
            res == (self@ == other@),
    ;
}

/// Values keyed by name, each name at most once.
#[derive(Debug)]
pub struct NameTable<V> {
    entries: Vec<(String, V)>,
}

/// The map that a list of entries denotes, later entries replacing earlier ones.
pub open spec fn entries_map<V: View>(s: Seq<(String, V)>) -> Map<Seq<char>, V::V>
    decreases s.len(),
{
    if s.len() == 0 {
        Map::empty()
    } else {
        entries_map(s.drop_last()).insert(s.last().0@, s.last().1@)
    }
}

/// No name occurs twice among the entries.
pub open spec fn unique_names<V>(s: Seq<(String, V)>) -> bool {
    forall|i: int, j: int| 0 <= i < j < s.len() ==> s[i].0@ != s[j].0@
}

/// The names of the entries, in order.
pub open spec fn entry_names<V>(s: Seq<(String, V)>) -> Seq<Seq<char>> {
    s.map_values(|e: (String, V)| e.0@)
}

proof fn lemma_entries_keys<V: View>(s: Seq<(String, V)>)
    ensures
        forall|k: Seq<char>|
            #[trigger] entries_map(s).contains_key(k) <==> exists|i: int| 0 <= i < s.len() && s[i].0@ == k,
    decreases s.len(),
{
    if s.len() > 0 {
        lemma_entries_keys(s.drop_last());
        assert forall|k: Seq<char>| #[trigger] entries_map(s).contains_key(k) <==> exists|i: int|
            0 <= i < s.len() && s[i].0@ == k by {
            if entries_map(s).contains_key(k) && k != s.last().0@ {
                assert(entries_map(s.drop_last()).contains_key(k));
                let i = choose|i: int| 0 <= i < s.len() - 1 && s.drop_last()[i].0@ == k;
                assert(s[i] == s.drop_last()[i]);
            }
            if exists|i: int| 0 <= i < s.len() && s[i].0@ == k {
                let i = choose|i: int| 0 <= i < s.len() && s[i].0@ == k;
                if i < s.len() - 1 {
                    assert(s.drop_last()[i] == s[i]);
                    assert(entries_map(s.drop_last()).contains_key(k));
                }
            }
        }
    }
}

proof fn lemma_entries_value<V: View>(s: Seq<(String, V)>, i: int)
    requires
        unique_names(s),
        0 <= i < s.len(),
    ensures
        entries_map(s).contains_key(s[i].0@),
        entries_map(s)[s[i].0@] == s[i].1@,
    decreases s.len(),
{
    if i < s.len() - 1 {
        assert(s.drop_last()[i] == s[i]);
        lemma_entries_value(s.drop_last(), i);
    }
}

proof fn lemma_entries_update<V: View>(s: Seq<(String, V)>, i: int, e: (String, V))
    requires
        unique_names(s),
        0 <= i < s.len(),
        e.0@ == s[i].0@,
    ensures
        entries_map(s.update(i, e)) == entries_map(s).insert(e.0@, e.1@),
    decreases s.len(),
{
    let u = s.update(i, e);
    if i == s.len() - 1 {
        assert(u.drop_last() =~= s.drop_last());
        assert(entries_map(s).insert(e.0@, e.1@) =~= entries_map(s.drop_last()).insert(e.0@, e.1@));
    } else {
        assert(u.drop_last() =~= s.drop_last().update(i, e));
        lemma_entries_update(s.drop_last(), i, e);
        assert(s.last().0@ != e.0@);
        assert(entries_map(u) =~= entries_map(s).insert(e.0@, e.1@));
    }
}

proof fn lemma_entries_remove<V: View>(s: Seq<(String, V)>, i: int)
    requires
        unique_names(s),
        0 <= i < s.len(),
    ensures
        entries_map(s.remove(i)) == entries_map(s).remove(s[i].0@),
        unique_names(s.remove(i)),
    decreases s.len(),
{
    let r = s.remove(i);
    assert forall|a: int, b: int| 0 <= a < b < r.len() implies r[a].0@ != r[b].0@ by {
        let a2 = if a < i { a } else { a + 1 };
        let b2 = if b < i { b } else { b + 1 };
        assert(r[a] == s[a2] && r[b] == s[b2]);
    }
    if i == s.len() - 1 {
        assert(r =~= s.drop_last());
        lemma_entries_keys(s.drop_last());
        assert(!entries_map(s.drop_last()).contains_key(s.last().0@)) by {
            if entries_map(s.drop_last()).contains_key(s.last().0@) {
                let j = choose|j: int| 0 <= j < s.len() - 1 && s.drop_last()[j].0@ == s.last().0@;
                assert(s[j].0@ == s[s.len() - 1].0@);
            }
        }
        assert(entries_map(s).remove(s[i].0@) =~= entries_map(s.drop_last()));
    } else {
        assert(r.drop_last() =~= s.drop_last().remove(i));
        assert(r.last() == s.last());
        lemma_entries_remove(s.drop_last(), i);
        assert(s.drop_last()[i] == s[i]);
        assert(s.last().0@ != s[i].0@);
        assert(entries_map(r) =~= entries_map(s).remove(s[i].0@));
    }
}

proof fn lemma_entries_len<V: View>(s: Seq<(String, V)>)
    requires
        unique_names(s),
    ensures
        entries_map(s).dom().len() == s.len(),
        entries_map(s).dom().finite(),
{
    let names = entry_names(s);
    lemma_entries_keys(s);
    assert(names.no_duplicates());
    names.unique_seq_to_set();
    assert forall|k: Seq<char>| entries_map(s).dom().contains(k) == names.to_set().contains(k) by {
        if names.to_set().contains(k) {
            let i = choose|i: int| 0 <= i < names.len() && names[i] == k;
            assert(s[i].0@ == k);
        }
        if entries_map(s).dom().contains(k) {
            let i = choose|i: int| 0 <= i < s.len() && s[i].0@ == k;
            assert(names[i] == k);
        }
    }
    assert(entries_map(s).dom() =~= names.to_set());
}

impl<V: View> View for NameTable<V> {
    type V = Map<Seq<char>, V::V>;

    closed spec fn view(&self) -> Map<Seq<char>, V::V> {
        entries_map(self.entries@)
    }
}

impl<V: View> NameTable<V> {
    /// Names are unique.
    pub closed spec fn wf(&self) -> bool {
        unique_names(self.entries@)
    }

    /// The number of entries.
    pub closed spec fn spec_len(&self) -> nat {
        self.entries@.len()
    }

    /// The name of the entry at a position.
    pub closed spec fn spec_name(&self, i: int) -> Seq<char> {
        self.entries@[i].0@
    }

    /// The value of the entry at a position.
    pub closed spec fn spec_value(&self, i: int) -> V::V {
        self.entries@[i].1@
    }

    /// The entries are the table: their names are its keys, each with its value.
    pub proof fn lemma_entries(&self)
        requires
            self.wf(),
        ensures
            self@.dom().finite(),
            self@.dom().len() == self.spec_len(),
            forall|k: Seq<char>|
                #[trigger] self@.contains_key(k) <==> exists|i: int| 0 <= i < self.spec_len() && self.spec_name(i) == k,
            forall|i: int|
                0 <= i < self.spec_len() ==> #[trigger] self@[self.spec_name(i)] == self.spec_value(i)
                    && self@.contains_key(self.spec_name(i)),
    {
        lemma_entries_keys(self.entries@);
        lemma_entries_len(self.entries@);
        assert forall|k: Seq<char>| #[trigger] self@.contains_key(k) implies exists|i: int|
            0 <= i < self.spec_len() && self.spec_name(i) == k by {
            let i = choose|i: int| 0 <= i < self.entries@.len() && self.entries@[i].0@ == k;
            assert(self.spec_name(i) == k);
        }
        assert forall|k: Seq<char>| (exists|i: int| 0 <= i < self.spec_len() && self.spec_name(i) == k) implies
            #[trigger] self@.contains_key(k) by {
            let i = choose|i: int| 0 <= i < self.spec_len() && self.spec_name(i) == k;
            assert(self.entries@[i].0@ == k);
        }
        assert forall|i: int| 0 <= i < self.spec_len() implies #[trigger] self@[self.spec_name(i)]
            == self.spec_value(i) && self@.contains_key(self.spec_name(i)) by {
            lemma_entries_value(self.entries@, i);
        }
    }

    /// The empty table.
    pub fn new() -> (res: NameTable<V>)
        ensures
            res.wf(),
            res@ == Map::<Seq<char>, V::V>::empty(),
    {
        NameTable { entries: Vec::new() }
    }

    /// The number of names in the table.
    pub fn len(&self) -> (res: usize)
        requires
            self.wf(),
        ensures
            res == self@.dom().len(),
            res == self.spec_len(),
    {
        proof {
            lemma_entries_len(self.entries@);
        }
        self.entries.len()
    }

    /// The name of the entry at a position.
    pub fn name_at(&self, i: usize) -> (res: &String)
        requires
            i < self.spec_len(),
        ensures
            res@ == self.spec_name(i as int),
    {
        &self.entries[i].0
    }

    /// The value of the entry at a position.
    pub fn value_at(&self, i: usize) -> (res: &V)
        requires
            i < self.spec_len(),
        ensures
            res@ == self.spec_value(i as int),
    {
        &self.entries[i].1
    }

    fn find(&self, name: &str) -> (res: Option<usize>)
        requires
            self.wf(),
        ensures
            match res {
                Some(i) => i < self.entries@.len() && self.entries@[i as int].0@ == name@ && self@.contains_key(name@)
                    && self@[name@] == self.entries@[i as int].1@,
                None => !self@.contains_key(name@),
            },
    {
        proof {
            lemma_entries_keys(self.entries@);
        }
        let n = self.entries.len();
        let mut i: usize = 0;
        while i < n
            invariant
                n == self.entries@.len(),
                i <= n,
                self.wf(),
                forall|k: Seq<char>|
                    #[trigger] entries_map(self.entries@).contains_key(k) <==> exists|j: int|
                        0 <= j < self.entries@.len() && self.entries@[j].0@ == k,
                forall|j: int| 0 <= j < i ==> self.entries@[j].0@ != name@,
            decreases n - i,
        {
            if str_eq(&self.entries[i].0, name) {
                proof {
                    lemma_entries_value(self.entries@, i as int);
                }
                return Some(i);
            }
            i = i + 1;
        }
        None
    }

    /// The value under a name, if there is one.
    pub fn get(&self, name: &str) -> (res: Option<&V>)
        requires
            self.wf(),
        ensures
            match res {
                Some(v) => self@.contains_key(name@) && self@[name@] == v@,
                None => !self@.contains_key(name@),
            },
    {
        match self.find(name) {
            Some(i) => Some(&self.entries[i].1),
            None => None,
        }
    }

    /// Sets the value under a name.
    pub fn set(&mut self, name: String, value: V)
        requires
            old(self).wf(),
        ensures
            final(self).wf(),
            final(self)@ == old(self)@.insert(name@, value@),
    {
        let ghost old_entries = self.entries@;
        let ghost e = (name, value);
        match self.find(&name) {
            Some(i) => {
                self.entries.set(i, (name, value));
                proof {
                    lemma_entries_update(old_entries, i as int, e);
                    assert(self.entries@ == old_entries.update(i as int, e));
                    assert forall|a: int, b: int| 0 <= a < b < self.entries@.len() implies self.entries@[a].0@
                        != self.entries@[b].0@ by {
                        assert(self.entries@[a].0@ == old_entries[a].0@);
                        assert(self.entries@[b].0@ == old_entries[b].0@);
                    }
                }
            },
            None => {
                proof {
                    lemma_entries_keys(old_entries);
                }
                self.entries.push((name, value));
                proof {
                    assert(self.entries@ == old_entries.push(e));
                    assert(self.entries@.drop_last() =~= old_entries);
                    assert forall|a: int, b: int| 0 <= a < b < self.entries@.len() implies self.entries@[a].0@
                        != self.entries@[b].0@ by {
                        assert(self.entries@[a] == old_entries[a]);
                        if b < old_entries.len() {
                            assert(self.entries@[b] == old_entries[b]);
                        } else {
                            assert(entries_map(old_entries).contains_key(old_entries[a].0@) ==> old_entries[a].0@
                                != e.0@);
                        }
                    }
                }
            },
        }
    }
}

impl<V: View> NameTable<V> {
    /// Removes the value under a name.
    pub fn remove(&mut self, name: &str)
        requires
            old(self).wf(),
        ensures
            final(self).wf(),
            final(self)@ == old(self)@.remove(name@),
    {
        let ghost old_entries = self.entries@;
        match self.find(name) {
            Some(i) => {
                self.entries.remove(i);
                proof {
                    lemma_entries_remove(old_entries, i as int);
                }
            },
            None => {
                assert(self@.remove(name@) =~= self@);
            },
        }
    }
}

impl<V: TableValue> NameTable<V> {
    /// A copy of the table.
    pub fn duplicate(&self) -> (res: NameTable<V>)
        requires
            self.wf(),
        ensures
            res.wf(),
            res@ == self@,
    {
        let mut out: Vec<(String, V)> = Vec::new();
        let n = self.entries.len();
        let mut i: usize = 0;
        while i < n
            invariant
                n == self.entries@.len(),
                i <= n,
                out@.len() == i,
                forall|j: int| 0 <= j < i ==> #[trigger] out@[j].0@ == self.entries@[j].0@ && out@[j].1@
                    == self.entries@[j].1@,
            decreases n - i,
        {
            out.push((self.entries[i].0.clone(), self.entries[i].1.duplicate()));
            i = i + 1;
        }
        proof {
            lemma_entries_same(out@, self.entries@);
        }
        NameTable { entries: out }
    }

    /// Adds the entries of `other`, replacing values under names that both tables hold.
    pub fn extend(&mut self, other: &NameTable<V>)
        requires
            old(self).wf(),
            other.wf(),
        ensures
            final(self).wf(),
            final(self)@ == old(self)@.union_prefer_right(other@),
    {
        let ghost start = self@;
        let n = other.entries.len();
        let mut i: usize = 0;
        assert(start.union_prefer_right(entries_map(other.entries@.take(0))) =~= start);
        while i < n
            invariant
                n == other.entries@.len(),
                i <= n,
                self.wf(),
                other.wf(),
                self@ == start.union_prefer_right(entries_map(other.entries@.take(i as int))),
            decreases n - i,
        {
            let name = other.entries[i].0.clone();
            let value = other.entries[i].1.duplicate();
            self.set(name, value);
            proof {
                let t = other.entries@.take(i + 1);
                assert(t.drop_last() =~= other.entries@.take(i as int));
                assert(t.last() == other.entries@[i as int]);
                assert(self@ =~= start.union_prefer_right(entries_map(t)));
            }
            i = i + 1;
        }
        assert(other.entries@.take(n as int) =~= other.entries@);
    }

    /// Whether two tables hold the same names with the same values.
    pub fn same_table(&self, other: &NameTable<V>) -> (res: bool)
        requires
            self.wf(),
            other.wf(),
        ensures
            res == (self@ == other@),
    {
        proof {
            self.lemma_entries();
            other.lemma_entries();
        }
        if self.entries.len() != other.entries.len() {
            return false;
        }
        let n = self.entries.len();
        let mut i: usize = 0;
        while i < n
            invariant
                n == self.entries@.len(),
                i <= n,
                self.wf(),
                other.wf(),
                forall|j: int|
                    0 <= j < i ==> other@.contains_key(#[trigger] self.spec_name(j)) && other@[self.spec_name(j)]
                        == self.spec_value(j),
            decreases n - i,
        {
            match other.get(&self.entries[i].0) {
                Some(v) => {
                    if !self.entries[i].1.same(v) {
                        proof {
                            self.lemma_entries();
                            assert(self@[self.spec_name(i as int)] == self.spec_value(i as int));
                        }
                        return false;
                    }
                },
                None => {
                    proof {
                        self.lemma_entries();
                        assert(self@[self.spec_name(i as int)] == self.spec_value(i as int));
                    }
                    return false;
                },
            }
            i = i + 1;
        }
        proof {
            self.lemma_entries();
            other.lemma_entries();
            assert(self@.dom().subset_of(other@.dom()));
            vstd::set_lib::lemma_subset_equality(self@.dom(), other@.dom());
            assert forall|k: Seq<char>| self@.contains_key(k) implies self@[k] == other@[k] by {
                let j = choose|j: int| 0 <= j < self.spec_len() && self.spec_name(j) == k;
            }
            assert(self@ =~= other@);
        }
        true
    }
}

proof fn lemma_entries_same<V: View>(a: Seq<(String, V)>, b: Seq<(String, V)>)
    requires
        a.len() == b.len(),
        forall|j: int| 0 <= j < a.len() ==> #[trigger] a[j].0@ == b[j].0@ && a[j].1@ == b[j].1@,
    ensures
        entries_map(a) == entries_map(b),
        unique_names(b) ==> unique_names(a),
    decreases a.len(),
{
    if a.len() > 0 {
        lemma_entries_same(a.drop_last(), b.drop_last());
        assert(a.last().0@ == b.last().0@);
    }
    if unique_names(b) {
        assert forall|i: int, j: int| 0 <= i < j < a.len() implies a[i].0@ != a[j].0@ by {
            assert(a[i].0@ == b[i].0@ && a[j].0@ == b[j].0@);
        }
    }
}

impl TableValue for SemanticType {
    fn duplicate(&self) -> (res: SemanticType) {
        self.deep_clone()
    }

    fn same(&self, other: &SemanticType) -> (res: bool) {
        SemanticType::same(self, other)
    }
}

/// A parameter of a function as its definition writes it.
#[derive(Debug)]
pub struct FunctionParamSite {
    pub name: String,
    pub annotation: Option<String>,
    pub has_default: bool,
    pub positional_only: bool,
    pub keyword_only: bool,
    pub variadic: bool,
    pub keyword_variadic: bool,
}

/// The plain-value view of a parameter site.
pub struct ParamSiteView {
    pub name: Seq<char>,
    pub annotation: Option<Seq<char>>,
    pub has_default: bool,
    pub positional_only: bool,
    pub keyword_only: bool,
    pub variadic: bool,
    pub keyword_variadic: bool,
}

impl View for FunctionParamSite {
    type V = ParamSiteView;

    open spec fn view(&self) -> ParamSiteView {
        ParamSiteView {
            name: self.name@,
            annotation: opt_view(self.annotation),
            has_default: self.has_default,
            positional_only: self.positional_only,
            keyword_only: self.keyword_only,
            variadic: self.variadic,
            keyword_variadic: self.keyword_variadic,
        }
    }
}

impl FunctionParamSite {
    /// A copy of the parameter.
    pub fn duplicate(&self) -> (res: FunctionParamSite)
        ensures
            res@ == self@,
    {
        FunctionParamSite {
            name: self.name.clone(),
            annotation: clone_opt(&self.annotation),
            has_default: self.has_default,
            positional_only: self.positional_only,
            keyword_only: self.keyword_only,
            variadic: self.variadic,
            keyword_variadic: self.keyword_variadic,
        }
    }

    /// Whether two parameters are written alike.
    pub fn same(&self, other: &FunctionParamSite) -> (res: bool)
        ensures
            res == (self@ == other@),
    {
        str_eq(&self.name, &other.name) && crate::effect_summary::opt_str_eq(&self.annotation, &other.annotation)
            && self.has_default == other.has_default && self.positional_only == other.positional_only
            && self.keyword_only == other.keyword_only && self.variadic == other.variadic
            && self.keyword_variadic == other.keyword_variadic
    }
}

/// The parameter list bound to a parameter specification.
#[derive(Debug)]
pub struct ParamListBinding {
    pub params: Vec<FunctionParamSite>,
}

impl View for ParamListBinding {
    type V = Seq<ParamSiteView>;

    open spec fn view(&self) -> Seq<ParamSiteView> {
        self.params@.map_values(|p: FunctionParamSite| p@)
    }
}

impl TableValue for ParamListBinding {
    fn duplicate(&self) -> (res: ParamListBinding) {
        let mut out: Vec<FunctionParamSite> = Vec::new();
        let n = self.params.len();
        let mut i: usize = 0;
        while i < n
            invariant
                n == self.params@.len(),
                i <= n,
                out@.len() == i,
                forall|j: int| 0 <= j < i ==> #[trigger] out@[j]@ == self.params@[j]@,
            decreases n - i,
        {
            out.push(self.params[i].duplicate());
            i = i + 1;
        }
        let res = ParamListBinding { params: out };
        assert(res@ =~= self@);
        res
    }

    fn same(&self, other: &ParamListBinding) -> (res: bool) {
        if self.params.len() != other.params.len() {
            assert(self@.len() != other@.len());
            return false;
        }
        let n = self.params.len();
        let mut i: usize = 0;
        while i < n
            invariant
                n == self.params@.len(),
                n == other.params@.len(),
                i <= n,
                forall|j: int| 0 <= j < i ==> #[trigger] self.params@[j]@ == other.params@[j]@,
            decreases n - i,
        {
            if !self.params[i].same(&other.params[i]) {
                assert(self@[i as int] != other@[i as int]);
                return false;
            }
            i = i + 1;
        }
        assert(self@ =~= other@);
        true
    }
}

/// The parameter site synthesized for the `index`-th type of a parameter list: positional,
/// named `arg` and its index, with that type as its annotation.
pub open spec fn spec_synthesized_param(index: nat, annotation: Seq<char>) -> ParamSiteView {
    ParamSiteView {
        name: "arg"@ + decimal(index),
        annotation: Some(annotation),
        has_default: false,
        positional_only: false,
        keyword_only: false,
        variadic: false,
        keyword_variadic: false,
    }
}

/// The parameter sites of a parameter list given by its types, one per type in order.
pub fn synthesize_param_list_binding(param_types: Vec<String>) -> (res: Vec<FunctionParamSite>)
    ensures
        res@.len() == param_types@.len(),
        forall|i: int| 0 <= i < res@.len() ==> #[trigger] res@[i]@ == spec_synthesized_param(i as nat, param_types@[i]@),
{
    let mut out: Vec<FunctionParamSite> = Vec::new();
    let n = param_types.len();
    let mut i: usize = 0;
    proof {
        reveal_strlit("arg");
    }
    while i < n
        invariant
            n == param_types@.len(),
            i <= n,
            out@.len() == i,
            forall|j: int| 0 <= j < i ==> #[trigger] out@[j]@ == spec_synthesized_param(j as nat, param_types@[j]@),
        decreases n - i,
    {
        let mut name = owned("arg");
        name.append(&decimal_string(i));
        out.push(
            FunctionParamSite {
                name,
                annotation: Some(param_types[i].clone()),
                has_default: false,
                positional_only: false,
                keyword_only: false,
                variadic: false,
                keyword_variadic: false,
            },
        );
        i = i + 1;
    }
    out
}

/// The types bound to a type pack.
#[derive(Debug)]
pub struct TypePackBinding {
    pub types: Vec<SemanticType>,
}

impl View for TypePackBinding {
    type V = Seq<TypeView>;

    open spec fn view(&self) -> Seq<TypeView> {
        types_view(self.types@)
    }
}

impl TableValue for TypePackBinding {
    fn duplicate(&self) -> (res: TypePackBinding) {
        TypePackBinding { types: clone_types(&self.types) }
    }

    fn same(&self, other: &TypePackBinding) -> (res: bool) {
        same_types(&self.types, &other.types)
    }
}

/// What generic inference has bound so far: types by type variable, parameter lists by
/// parameter specification, and type lists by type pack.
#[derive(Debug)]
pub struct GenericSolution {
    pub types: NameTable<SemanticType>,
    pub param_lists: NameTable<ParamListBinding>,
    pub type_packs: NameTable<TypePackBinding>,
}

/// The plain-value view of a generic solution.
pub struct SolutionView {
    pub types: Map<Seq<char>, TypeView>,
    pub param_lists: Map<Seq<char>, Seq<ParamSiteView>>,
    pub type_packs: Map<Seq<char>, Seq<TypeView>>,
}

impl View for GenericSolution {
    type V = SolutionView;

    open spec fn view(&self) -> SolutionView {
        SolutionView { types: self.types@, param_lists: self.param_lists@, type_packs: self.type_packs@ }
    }
}

/// How many bindings a solution holds.
pub open spec fn binding_count(s: SolutionView) -> nat {
    s.types.dom().len() + s.param_lists.dom().len() + s.type_packs.dom().len()
}

impl GenericSolution {
    /// Each table holds each name at most once.
    pub open spec fn wf(&self) -> bool {
        self.types.wf() && self.param_lists.wf() && self.type_packs.wf()
    }

    /// The solution that binds nothing.
    pub fn empty() -> (res: GenericSolution)
        ensures
            res.wf(),
            res@ == (SolutionView { types: Map::empty(), param_lists: Map::empty(), type_packs: Map::empty() }),
    {
        GenericSolution { types: NameTable::new(), param_lists: NameTable::new(), type_packs: NameTable::new() }
    }

    /// A copy of the solution.
    pub fn duplicate(&self) -> (res: GenericSolution)
        requires
            self.wf(),
        ensures
            res.wf(),
            res@ == self@,
    {
        GenericSolution {
            types: self.types.duplicate(),
            param_lists: self.param_lists.duplicate(),
            type_packs: self.type_packs.duplicate(),
        }
    }

    /// Whether two solutions bind the same things.
    pub fn same(&self, other: &GenericSolution) -> (res: bool)
        requires
            self.wf(),
            other.wf(),
        ensures
            res == (self@ == other@),
    {
        self.types.same_table(&other.types) && self.param_lists.same_table(&other.param_lists)
            && self.type_packs.same_table(&other.type_packs)
    }
}

/// How many bindings a solution holds.
pub fn generic_binding_count(solution: &GenericSolution) -> (res: usize)
    requires
        solution.wf(),
        binding_count(solution@) <= usize::MAX,
    ensures
        res == binding_count(solution@),
{
    solution.types.len() + solution.param_lists.len() + solution.type_packs.len()
}

/// The bindings of `existing` with those of `inferred` added, `inferred` winning where both
/// bind a name.
pub fn combine_generic_substitutions(existing: &GenericSolution, inferred: &GenericSolution) -> (res: GenericSolution)
    requires
        existing.wf(),
        inferred.wf(),
    ensures
        res.wf(),
        res@ == (SolutionView {
            types: existing@.types.union_prefer_right(inferred@.types),
            param_lists: existing@.param_lists.union_prefer_right(inferred@.param_lists),
            type_packs: existing@.type_packs.union_prefer_right(inferred@.type_packs),
        }),
{
    let mut combined = existing.duplicate();
    combined.types.extend(&inferred.types);
    combined.param_lists.extend(&inferred.param_lists);
    combined.type_packs.extend(&inferred.type_packs);
    combined
}

/// Binds a parameter list to a parameter specification: refused when the specification is
/// already bound to a different list, and a no-op when it is bound to the same one.
pub fn insert_param_spec_binding(
    substitutions: &mut GenericSolution,
    name: &str,
    binding: ParamListBinding,
) -> (res: Option<()>)
    requires
        old(substitutions).wf(),
    ensures
        final(substitutions).wf(),
        old(substitutions)@.param_lists.contains_key(name@) ==> final(substitutions)@ == old(substitutions)@ && (
        res is Some <==> old(substitutions)@.param_lists[name@] == binding@),
        !old(substitutions)@.param_lists.contains_key(name@) ==> res is Some && final(substitutions)@ == (
        SolutionView {
            param_lists: old(substitutions)@.param_lists.insert(name@, binding@),
            ..old(substitutions)@
        }),
{
    match substitutions.param_lists.get(name) {
        Some(existing) => {
            if existing.same(&binding) {
                Some(())
            } else {
                None
            }
        },
        None => {
            substitutions.param_lists.set(owned(name), binding);
            Some(())
        },
    }
}

/// The smallest binding count among the solutions.
pub open spec fn spec_min_count(cs: Seq<SolutionView>) -> nat
    decreases cs.len(),
{
    if cs.len() <= 1 {
        if cs.len() == 1 {
            binding_count(cs[0])
        } else {
            0
        }
    } else {
        let m = spec_min_count(cs.drop_last());
        let c = binding_count(cs.last());
        if c < m {
            c
        } else {
            m
        }
    }
}

proof fn lemma_min_count(cs: Seq<SolutionView>)
    requires
        cs.len() > 0,
    ensures
        forall|i: int| 0 <= i < cs.len() ==> spec_min_count(cs) <= binding_count(#[trigger] cs[i]),
        exists|i: int| 0 <= i < cs.len() && binding_count(#[trigger] cs[i]) == spec_min_count(cs),
    decreases cs.len(),
{
    if cs.len() > 1 {
        lemma_min_count(cs.drop_last());
        assert forall|i: int| 0 <= i < cs.len() implies spec_min_count(cs) <= binding_count(#[trigger] cs[i]) by {
            if i < cs.len() - 1 {
                assert(cs.drop_last()[i] == cs[i]);
            }
        }
        let w = choose|i: int| 0 <= i < cs.len() - 1 && binding_count(#[trigger] cs.drop_last()[i]) == spec_min_count(
            cs.drop_last(),
        );
        assert(cs.drop_last()[w] == cs[w]);
        if binding_count(cs.last()) < spec_min_count(cs.drop_last()) {
            assert(binding_count(cs[cs.len() - 1]) == spec_min_count(cs));
        } else {
            assert(binding_count(cs[w]) == spec_min_count(cs));
        }
    } else {
        assert(binding_count(cs[0]) == spec_min_count(cs));
    }
}

/// The solutions taken by their views.
pub open spec fn solution_views(cs: Seq<GenericSolution>) -> Seq<SolutionView> {
    cs.map_values(|c: GenericSolution| c@)
}

/// The solution with the fewest bindings, when all solutions with that few bindings agree.
pub fn select_best_union_branch_binding(candidates: Vec<GenericSolution>) -> (res: Option<GenericSolution>)
    requires
        forall|i: int| 0 <= i < candidates@.len() ==> (#[trigger] candidates@[i]).wf() && binding_count(
            candidates@[i]@,
        ) <= usize::MAX,
    ensures
        ({
            let cs = solution_views(candidates@);
            let m = spec_min_count(cs);
            &&& cs.len() == 0 ==> res is None
            &&& cs.len() > 0 ==> (res is Some <==> forall|i: int, j: int|
                0 <= i < cs.len() && 0 <= j < cs.len() && binding_count(#[trigger] cs[i]) == m && binding_count(
                    #[trigger] cs[j],
                ) == m ==> cs[i] == cs[j])
            &&& res matches Some(r) ==> r.wf() && forall|i: int|
                0 <= i < cs.len() && binding_count(#[trigger] cs[i]) == m ==> r@ == cs[i]
        }),
{
    let ghost cs = solution_views(candidates@);
    let n = candidates.len();
    if n == 0 {
        return None;
    }
    proof {
        lemma_min_count(cs);
    }
    let mut min_len = generic_binding_count(&candidates[0]);
    let mut i: usize = 1;
    assert(cs.take(1) =~= seq![cs[0]]);
    while i < n
        invariant
            n == candidates@.len(),
            1 <= i <= n,
            cs == solution_views(candidates@),
            forall|k: int| 0 <= k < candidates@.len() ==> (#[trigger] candidates@[k]).wf() && binding_count(
                candidates@[k]@,
            ) <= usize::MAX,
            min_len == spec_min_count(cs.take(i as int)),
        decreases n - i,
    {
        let c = generic_binding_count(&candidates[i]);
        assert(cs.take(i + 1).drop_last() =~= cs.take(i as int));
        assert(cs.take(i + 1).last() == cs[i as int]);
        if c < min_len {
            min_len = c;
        }
        i = i + 1;
    }
    assert(cs.take(n as int) =~= cs);
    let mut first: usize = 0;
    while first < n && generic_binding_count(&candidates[first]) != min_len
        invariant
            n == candidates@.len(),
            first <= n,
            cs == solution_views(candidates@),
            forall|k: int| 0 <= k < candidates@.len() ==> (#[trigger] candidates@[k]).wf() && binding_count(
                candidates@[k]@,
            ) <= usize::MAX,
            min_len == spec_min_count(cs),
            exists|k: int| first <= k < cs.len() && binding_count(#[trigger] cs[k]) == min_len,
        decreases n - first,
    {
        first = first + 1;
    }
    let mut j: usize = 0;
    while j < n
        invariant
            n == candidates@.len(),
            first < n,
            j <= n,
            cs == solution_views(candidates@),
            forall|k: int| 0 <= k < candidates@.len() ==> (#[trigger] candidates@[k]).wf() && binding_count(
                candidates@[k]@,
            ) <= usize::MAX,
            min_len == spec_min_count(cs),
            binding_count(cs[first as int]) == min_len,
            forall|k: int| 0 <= k < j && binding_count(#[trigger] cs[k]) == min_len ==> cs[k] == cs[first as int],
        decreases n - j,
    {
        if generic_binding_count(&candidates[j]) == min_len && !candidates[j].same(&candidates[first]) {
            assert(binding_count(cs[j as int]) == min_len && cs[j as int] != cs[first as int]);
            return None;
        }
        j = j + 1;
    }
    Some(candidates[first].duplicate())
}

/// The names of the type parameters of one kind.
pub open spec fn spec_param_names_of_kind(params: Seq<GenericTypeParam>, kind: GenericTypeParamKind) -> Set<
    Seq<char>,
> {
    Set::new(|n: Seq<char>| exists|i: int| 0 <= i < params.len() && params[i].kind == kind && #[trigger] params[i].name@ == n)
}

fn param_names_of_kind(params: &Vec<GenericTypeParam>, kind: GenericTypeParamKind) -> (res: Vec<String>)
    ensures
        rising(string_views(res@), name_order()),
        forall|n: Seq<char>| #[trigger] string_views(res@).contains(n) <==> spec_param_names_of_kind(params@, kind).contains(n),
{
    let mut names: Vec<String> = Vec::new();
    let mut i: usize = 0;
    while i < params.len()
        invariant
            i <= params@.len(),
            rising(string_views(names@), name_order()),
            forall|n: Seq<char>| #[trigger] string_views(names@).contains(n) <==> exists|j: int|
                0 <= j < i && params@[j].kind == kind && params@[j].name@ == n,
        decreases params@.len() - i,
    {
        if params[i].kind == kind {
            insert_sorted_name(&mut names, &params[i].name);
        }
        proof {
            assert forall|n: Seq<char>| #[trigger] string_views(names@).contains(n) <==> exists|j: int|
                0 <= j < i + 1 && params@[j].kind == kind && params@[j].name@ == n by {
                if exists|j: int| 0 <= j < i + 1 && params@[j].kind == kind && params@[j].name@ == n {
                    let j = choose|j: int| 0 <= j < i + 1 && params@[j].kind == kind && params@[j].name@ == n;
                    if j < i {
                        assert(exists|j2: int| 0 <= j2 < i && params@[j2].kind == kind && params@[j2].name@ == n);
                    }
                }
            }
        }
        i = i + 1;
    }
    proof {
        assert forall|n: Seq<char>| #[trigger] string_views(names@).contains(n) <==> spec_param_names_of_kind(
            params@,
            kind,
        ).contains(n) by {
            if spec_param_names_of_kind(params@, kind).contains(n) {
                let j = choose|j: int|
                    0 <= j < params@.len() && params@[j].kind == kind && #[trigger] params@[j].name@ == n;
            }
        }
    }
    names
}

/// The names of a declaration's type variables, parameter specifications and type packs, each
/// in increasing order.
pub fn generic_param_name_sets(declaration: &Declaration) -> (res: (Vec<String>, Vec<String>, Vec<String>))
    ensures
        rising(string_views(res.0@), name_order()),
        rising(string_views(res.1@), name_order()),
        rising(string_views(res.2@), name_order()),
        forall|n: Seq<char>|
            #[trigger] string_views(res.0@).contains(n) <==> spec_param_names_of_kind(
                declaration.type_params@,
                GenericTypeParamKind::TypeVar,
            ).contains(n),
        forall|n: Seq<char>|
            #[trigger] string_views(res.1@).contains(n) <==> spec_param_names_of_kind(
                declaration.type_params@,
                GenericTypeParamKind::ParamSpec,
            ).contains(n),
        forall|n: Seq<char>|
            #[trigger] string_views(res.2@).contains(n) <==> spec_param_names_of_kind(
                declaration.type_params@,
                GenericTypeParamKind::TypeVarTuple,
            ).contains(n),
{
    let types = param_names_of_kind(&declaration.type_params, GenericTypeParamKind::TypeVar);
    let param_specs = param_names_of_kind(&declaration.type_params, GenericTypeParamKind::ParamSpec);
    let packs = param_names_of_kind(&declaration.type_params, GenericTypeParamKind::TypeVarTuple);
    (types, param_specs, packs)
}

/// Whether a declaration has a parameter specification or a type pack among its type
/// parameters.
pub fn declaration_has_runtime_generic_paramlist(declaration: &Declaration) -> (res: bool)
    ensures
        res == exists|i: int|
            0 <= i < declaration.type_params@.len() && (#[trigger] declaration.type_params@[i]).kind
                != GenericTypeParamKind::TypeVar,
{
    let mut i: usize = 0;
    while i < declaration.type_params.len()
        invariant
            i <= declaration.type_params@.len(),
            forall|j: int| 0 <= j < i ==> (#[trigger] declaration.type_params@[j]).kind == GenericTypeParamKind::TypeVar,
        decreases declaration.type_params@.len() - i,
    {
        if declaration.type_params[i].kind != GenericTypeParamKind::TypeVar {
            return true;
        }
        i = i + 1;
    }
    false
}

/// The parameter specifications and type packs of `params` that the solution leaves unbound,
/// in order.
pub open spec fn spec_unresolved_params(params: Seq<GenericTypeParam>, solution: SolutionView) -> Seq<Seq<char>>
    decreases params.len(),
{
    if params.len() == 0 {
        Seq::empty()
    } else {
        let prev = spec_unresolved_params(params.drop_last(), solution);
        let p = params.last();
        let unbound = match p.kind {
            GenericTypeParamKind::ParamSpec => !solution.param_lists.contains_key(p.name@),
            GenericTypeParamKind::TypeVarTuple => !solution.type_packs.contains_key(p.name@),
            GenericTypeParamKind::TypeVar => false,
        };
        if unbound {
            prev.push(p.name@)
        } else {
            prev
        }
    }
}

/// The parameter specifications and type packs of a declaration that a solution leaves unbound.
pub fn unresolved_generic_instantiation_params(declaration: &Declaration, substitutions: &GenericSolution) -> (res:
    Vec<String>)
    requires
        substitutions.wf(),
    ensures
        string_views(res@) == spec_unresolved_params(declaration.type_params@, substitutions@),
{
    let params = &declaration.type_params;
    let mut out: Vec<String> = Vec::new();
    let mut i: usize = 0;
    assert(params@.take(0) =~= Seq::<GenericTypeParam>::empty());
    while i < params.len()
        invariant
            i <= params@.len(),
            substitutions.wf(),
            string_views(out@) == spec_unresolved_params(params@.take(i as int), substitutions@),
        decreases params@.len() - i,
    {
        let p = &params[i];
        assert(params@.take(i + 1).drop_last() =~= params@.take(i as int));
        assert(params@.take(i + 1).last() == *p);
        let unbound = match p.kind {
            GenericTypeParamKind::ParamSpec => substitutions.param_lists.get(&p.name).is_none(),
            GenericTypeParamKind::TypeVarTuple => substitutions.type_packs.get(&p.name).is_none(),
            GenericTypeParamKind::TypeVar => false,
        };
        if unbound {
            let ghost before = string_views(out@);
            out.push(p.name.clone());
            assert(string_views(out@) =~= before.push(p.name@));
        }
        i = i + 1;
    }
    assert(params@.take(params@.len() as int) =~= params@);
    out
}

/// The names of a declaration's type parameters.
pub open spec fn type_param_names(params: Seq<GenericTypeParam>) -> Set<Seq<char>> {
    Set::new(|n: Seq<char>| exists|i: int| 0 <= i < params.len() && #[trigger] params[i].name@ == n)
}

/// The bindings of a solution without those of the declaration's own type parameters, which
/// shadow any outer binding of the same name.
pub fn without_shadowed_generic_params(substitutions: GenericSolution, declaration: &Declaration) -> (res: GenericSolution)
    requires
        substitutions.wf(),
    ensures
        res.wf(),
        res@ == (SolutionView {
            types: substitutions@.types.remove_keys(type_param_names(declaration.type_params@)),
            param_lists: substitutions@.param_lists.remove_keys(type_param_names(declaration.type_params@)),
            type_packs: substitutions@.type_packs.remove_keys(type_param_names(declaration.type_params@)),
        }),
{
    let ghost start = substitutions@;
    let mut substitutions = substitutions;
    let params = &declaration.type_params;
    let mut i: usize = 0;
    proof {
        assert(type_param_names(params@.take(0)) =~= Set::<Seq<char>>::empty());
        assert(start.types.remove_keys(Set::<Seq<char>>::empty()) =~= start.types);
        assert(start.param_lists.remove_keys(Set::<Seq<char>>::empty()) =~= start.param_lists);
        assert(start.type_packs.remove_keys(Set::<Seq<char>>::empty()) =~= start.type_packs);
    }
    while i < params.len()
        invariant
            i <= params@.len(),
            substitutions.wf(),
            substitutions@ == (SolutionView {
                types: start.types.remove_keys(type_param_names(params@.take(i as int))),
                param_lists: start.param_lists.remove_keys(type_param_names(params@.take(i as int))),
                type_packs: start.type_packs.remove_keys(type_param_names(params@.take(i as int))),
            }),
        decreases params@.len() - i,
    {
        let name = &params[i].name;
        substitutions.types.remove(name);
        substitutions.param_lists.remove(name);
        substitutions.type_packs.remove(name);
        proof {
            let before = type_param_names(params@.take(i as int));
            let after = type_param_names(params@.take(i + 1));
            assert(after =~= before.insert(name@)) by {
                assert forall|n: Seq<char>| after.contains(n) <==> before.insert(name@).contains(n) by {
                    if after.contains(n) {
                        let j = choose|j: int| 0 <= j < i + 1 && #[trigger] params@.take(i + 1)[j].name@ == n;
                        if j < i {
                            assert(params@.take(i as int)[j].name@ == n);
                        }
                    }
                    if before.contains(n) {
                        let j = choose|j: int| 0 <= j < i && #[trigger] params@.take(i as int)[j].name@ == n;
                        assert(params@.take(i + 1)[j].name@ == n);
                    }
                    if n == name@ {
                        assert(params@.take(i + 1)[i as int].name@ == n);
                    }
                }
            }
            assert(substitutions@.types =~= start.types.remove_keys(after));
            assert(substitutions@.param_lists =~= start.param_lists.remove_keys(after));
            assert(substitutions@.type_packs =~= start.type_packs.remove_keys(after));
        }
        i = i + 1;
    }
    assert(params@.take(params@.len() as int) =~= params@);
    substitutions
}

} // verus!
