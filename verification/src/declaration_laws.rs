//! Properties of the grouping of declarations into spaces and of the duplicate checks: the
//! spaces hold the declarations exactly once, and names declared once per space raise nothing.
use vstd::prelude::*;
use crate::declarations::{
    DeclarationKind, DeclarationView, MethodKind, SpaceKey, count_where, has_kind, has_method_kind, has_name,
    in_space, select_where, space_key, spec_classvar_diagnostics, spec_duplicate_diagnostics,
    spec_duplicates_diagnostics, spec_invalid_duplicates, spec_invalid_name, spec_is_invalid_duplicate_group,
    spec_space_diagnostics, spec_spaces_diagnostics, spec_space_keys, name_order, rising,
};
use crate::diagnostics::{DiagnosticView, SourceKind};
use vstd::multiset::Multiset;

verus! {

/// Declarations that satisfy `p` or `q`.
pub open spec fn either(p: spec_fn(DeclarationView) -> bool, q: spec_fn(DeclarationView) -> bool) -> spec_fn(
    DeclarationView,
) -> bool {
    |d: DeclarationView| p(d) || q(d)
}

/// Declarations of one of the spaces `ks`.
pub open spec fn in_keys(ks: Seq<SpaceKey>) -> spec_fn(DeclarationView) -> bool {
    |d: DeclarationView| ks.contains(space_key(d))
}

/// The groups put one after the other.
pub open spec fn flatten(gs: Seq<Seq<DeclarationView>>) -> Seq<DeclarationView>
    decreases gs.len(),
{
    if gs.len() == 0 {
        Seq::empty()
    } else {
        flatten(gs.drop_last()) + gs.last()
    }
}

/// The declarations of each of the spaces `ks`, in input order, space by space.
pub open spec fn space_groups(v: Seq<DeclarationView>, ks: Seq<SpaceKey>) -> Seq<Seq<DeclarationView>> {
    Seq::new(ks.len(), |j: int| select_where(v, in_space(ks[j])))
}

/// Selecting by two conditions no declaration meets together takes each declaration once.
pub proof fn lemma_select_split(s: Seq<DeclarationView>, p: spec_fn(DeclarationView) -> bool, q: spec_fn(DeclarationView) -> bool)
    requires
        forall|d: DeclarationView| !(#[trigger] p(d) && q(d)),
    ensures
        select_where(s, either(p, q)).to_multiset() == select_where(s, p).to_multiset().add(
            select_where(s, q).to_multiset(),
        ),
    decreases s.len(),
{
    broadcast use vstd::seq_lib::group_to_multiset_ensures;

    if s.len() == 0 {
        assert(select_where(s, either(p, q)).to_multiset() =~= Multiset::empty());
        assert(select_where(s, p).to_multiset() =~= Multiset::empty());
        assert(select_where(s, q).to_multiset() =~= Multiset::empty());
        assert(Multiset::<DeclarationView>::empty().add(Multiset::empty()) =~= Multiset::empty());
    } else {
        lemma_select_split(s.drop_last(), p, q);
        let x = s.last();
        let a = select_where(s.drop_last(), p).to_multiset();
        let b = select_where(s.drop_last(), q).to_multiset();
        if p(x) {
            assert(a.insert(x).add(b) =~= a.add(b).insert(x));
        } else if q(x) {
            assert(a.add(b.insert(x)) =~= a.add(b).insert(x));
        }
    }
}

/// Selecting by a condition that every declaration meets takes all of them.
pub proof fn lemma_select_all(s: Seq<DeclarationView>, p: spec_fn(DeclarationView) -> bool)
    requires
        forall|i: int| 0 <= i < s.len() ==> #[trigger] p(s[i]),
    ensures
        select_where(s, p) == s,
    decreases s.len(),
{
    if s.len() > 0 {
        lemma_select_all(s.drop_last(), p);
        assert(s.drop_last().push(s.last()) =~= s);
    }
}

/// The groups of distinct spaces hold, together, each declaration of those spaces once.
pub proof fn lemma_groups_multiset(v: Seq<DeclarationView>, ks: Seq<SpaceKey>)
    requires
        forall|i: int, j: int| 0 <= i < j < ks.len() ==> ks[i] != ks[j],
    ensures
        flatten(space_groups(v, ks)).to_multiset() == select_where(v, in_keys(ks)).to_multiset(),
    decreases ks.len(),
{
    broadcast use vstd::seq_lib::lemma_multiset_commutative;

    if ks.len() == 0 {
        assert(flatten(space_groups(v, ks)) =~= Seq::<DeclarationView>::empty());
        assert forall|i: int| 0 <= i < v.len() implies !#[trigger] in_keys(ks)(v[i]) by {}
        lemma_select_none_here(v, in_keys(ks));
    } else {
        let front = ks.drop_last();
        let k = ks.last();
        lemma_groups_multiset(v, front);
        assert(space_groups(v, ks).drop_last() =~= space_groups(v, front));
        assert(space_groups(v, ks).last() == select_where(v, in_space(k)));
        assert(!front.contains(k)) by {
            if front.contains(k) {
                let i = choose|i: int| 0 <= i < front.len() && front[i] == k;
                assert(ks[i] == ks[ks.len() - 1]);
            }
        }
        assert forall|d: DeclarationView| !(#[trigger] in_keys(front)(d) && in_space(k)(d)) by {}
        lemma_select_split(v, in_keys(front), in_space(k));
        assert forall|d: DeclarationView| #[trigger] either(in_keys(front), in_space(k))(d) == in_keys(ks)(d) by {
            if in_keys(ks)(d) {
                let i = choose|i: int| 0 <= i < ks.len() && ks[i] == space_key(d);
                if i < front.len() {
                    assert(front[i] == ks[i]);
                }
            }
            if in_keys(front)(d) {
                let i = choose|i: int| 0 <= i < front.len() && front[i] == space_key(d);
                assert(ks[i] == front[i]);
            }
        }
        assert(either(in_keys(front), in_space(k)) =~= in_keys(ks));
    }
}

proof fn lemma_select_none_here(s: Seq<DeclarationView>, p: spec_fn(DeclarationView) -> bool)
    requires
        forall|i: int| 0 <= i < s.len() ==> !#[trigger] p(s[i]),
    ensures
        select_where(s, p) == Seq::<DeclarationView>::empty(),
    decreases s.len(),
{
    if s.len() > 0 {
        lemma_select_none_here(s.drop_last(), p);
    }
}

/// Grouping declarations by space loses and repeats nothing: for keys that are distinct and
/// cover every declaration's space, the groups put one after the other are a rearrangement of
/// the declarations.
pub proof fn lemma_spaces_are_a_permutation(v: Seq<DeclarationView>, ks: Seq<SpaceKey>)
    requires
        forall|i: int, j: int| 0 <= i < j < ks.len() ==> ks[i] != ks[j],
        forall|i: int| 0 <= i < v.len() ==> ks.contains(space_key(#[trigger] v[i])),
    ensures
        flatten(space_groups(v, ks)).to_multiset() == v.to_multiset(),
{
    lemma_groups_multiset(v, ks);
    assert forall|i: int| 0 <= i < v.len() implies #[trigger] in_keys(ks)(v[i]) by {}
    lemma_select_all(v, in_keys(ks));
}

/// At most one declaration of `s` satisfies `q` exactly when selecting by `q` gives at most one.
pub proof fn lemma_select_at_most_one(s: Seq<DeclarationView>, q: spec_fn(DeclarationView) -> bool)
    ensures
        select_where(s, q).len() <= 1 <==> !exists|i: int, j: int| 0 <= i < j < s.len() && #[trigger] q(s[i]) && #[trigger] q(s[j]),
    decreases s.len(),
{
    if s.len() > 0 {
        let t = s.drop_last();
        lemma_select_at_most_one(t, q);
        lemma_select_count(t, q);
        if q(s.last()) {
            if select_where(t, q).len() >= 1 {
                let i0 = choose|i: int| 0 <= i < t.len() && q(t[i]);
                assert(q(s[i0]) && q(s[s.len() - 1]));
            }
            if exists|i: int, j: int| 0 <= i < j < s.len() && #[trigger] q(s[i]) && #[trigger] q(s[j]) {
                let (i, j) = choose|i: int, j: int| 0 <= i < j < s.len() && #[trigger] q(s[i]) && #[trigger] q(s[j]);
                assert(q(t[i]));
                assert(select_where(t, q).len() >= 1);
            }
        } else {
            if exists|i: int, j: int| 0 <= i < j < s.len() && #[trigger] q(s[i]) && #[trigger] q(s[j]) {
                let (i, j) = choose|i: int, j: int| 0 <= i < j < s.len() && #[trigger] q(s[i]) && #[trigger] q(s[j]);
                assert(j < t.len());
                assert(q(t[i]) && q(t[j]));
            }
            if exists|i: int, j: int| 0 <= i < j < t.len() && #[trigger] q(t[i]) && #[trigger] q(t[j]) {
                let (i, j) = choose|i: int, j: int| 0 <= i < j < t.len() && #[trigger] q(t[i]) && #[trigger] q(t[j]);
                assert(q(s[i]) && q(s[j]));
            }
        }
    }
}

/// Selecting by `q` gives something exactly when some declaration satisfies `q`.
pub proof fn lemma_select_count(s: Seq<DeclarationView>, q: spec_fn(DeclarationView) -> bool)
    ensures
        select_where(s, q).len() >= 1 <==> exists|i: int| 0 <= i < s.len() && q(s[i]),
    decreases s.len(),
{
    if s.len() > 0 {
        let t = s.drop_last();
        lemma_select_count(t, q);
        if exists|i: int| 0 <= i < t.len() && q(t[i]) {
            let i = choose|i: int| 0 <= i < t.len() && q(t[i]);
            assert(q(s[i]));
        }
        if exists|i: int| 0 <= i < s.len() && q(s[i]) {
            let i = choose|i: int| 0 <= i < s.len() && q(s[i]);
            if i < t.len() {
                assert(q(t[i]));
            }
        }
    }
}

/// No name is an invalid duplicate of `s` when no two declarations of `s` share a name; the
/// invalid duplicates are then none.
pub proof fn lemma_no_invalid_duplicates(s: Seq<DeclarationView>)
    requires
        forall|i: int, j: int| 0 <= i < j < s.len() ==> #[trigger] s[i].name != #[trigger] s[j].name,
    ensures
        forall|n: Seq<char>| !#[trigger] spec_invalid_name(s, n),
        spec_invalid_duplicates(s) == Seq::<Seq<char>>::empty(),
{
    assert forall|n: Seq<char>| !#[trigger] spec_invalid_name(s, n) by {
        lemma_select_at_most_one(s, has_name(n));
        if exists|i: int, j: int| 0 <= i < j < s.len() && #[trigger] has_name(n)(s[i]) && #[trigger] has_name(n)(s[j]) {
            let (i, j) = choose|i: int, j: int| 0 <= i < j < s.len() && #[trigger] has_name(n)(s[i]) && #[trigger] has_name(n)(s[j]);
            assert(s[i].name != s[j].name);
        }
    }
    let e = Seq::<Seq<char>>::empty();
    assert(rising(e, name_order()) && forall|n: Seq<char>| #[trigger] e.contains(n) <==> spec_invalid_name(s, n));
    let ns = spec_invalid_duplicates(s);
    if ns.len() > 0 {
        assert(ns.contains(ns[0]));
    }
    assert(ns =~= e);
}

/// With no names to report, a space reports no duplicates.
proof fn lemma_no_duplicates_reported(
    path: Seq<char>,
    kind: SourceKind,
    owner_name: Option<Seq<char>>,
    owner_kind: Option<crate::declarations::DeclarationOwnerKind>,
    members: Seq<DeclarationView>,
)
    requires
        spec_invalid_duplicates(members) == Seq::<Seq<char>>::empty(),
    ensures
        spec_duplicates_diagnostics(path, kind, owner_name, owner_kind, spec_invalid_duplicates(members), members)
            == Seq::<DiagnosticView>::empty(),
{
}

/// No `ClassVar` placement error arises in a space whose members are no module-level `ClassVar`.
proof fn lemma_no_classvar_errors(path: Seq<char>, owner_name: Option<Seq<char>>, members: Seq<DeclarationView>)
    requires
        forall|i: int| 0 <= i < members.len() ==> !((#[trigger] members[i]).is_class_var && owner_name is None),
    ensures
        spec_classvar_diagnostics(path, owner_name, members) == Seq::<DiagnosticView>::empty(),
    decreases members.len(),
{
    if members.len() > 0 {
        lemma_no_classvar_errors(path, owner_name, members.drop_last());
        assert(!(members[members.len() - 1].is_class_var && owner_name is None));
    }
}

proof fn lemma_select_members_here(s: Seq<DeclarationView>, p: spec_fn(DeclarationView) -> bool, i: int)
    requires
        0 <= i < select_where(s, p).len(),
    ensures
        p(select_where(s, p)[i]),
        exists|t: int| 0 <= t < s.len() && s[t] == select_where(s, p)[i],
    decreases s.len(),
{
    if s.len() > 0 {
        let r = select_where(s.drop_last(), p);
        if i < r.len() {
            lemma_select_members_here(s.drop_last(), p, i);
            let t = choose|t: int| 0 <= t < s.drop_last().len() && s.drop_last()[t] == r[i];
            assert(s[t] == r[i]);
        } else {
            assert(s[s.len() - 1] == select_where(s, p)[i]);
        }
    }
}

/// The duplicate checks report nothing for a module whose names are distinct within each
/// declaration space and that has no module-level `ClassVar`: all that the declaration-space
/// pass reports there is the property setter errors.
pub proof fn law_distinct_names_raise_no_duplicates(
    path: Seq<char>,
    kind: SourceKind,
    decls: Seq<DeclarationView>,
    renderings: Seq<(String, String)>,
)
    requires
        forall|i: int, j: int|
            0 <= i < j < decls.len() && space_key(decls[i]) == space_key(decls[j]) ==> #[trigger] decls[i].name
                != #[trigger] decls[j].name,
        forall|i: int| 0 <= i < decls.len() ==> !((#[trigger] decls[i]).owner is None && decls[i].is_class_var),
    ensures
        spec_duplicate_diagnostics(path, kind, decls) == Seq::<DiagnosticView>::empty(),
        crate::property_setters::spec_property_setter_diagnostics(path, decls, renderings) + spec_duplicate_diagnostics(
            path,
            kind,
            decls,
        ) == crate::property_setters::spec_property_setter_diagnostics(path, decls, renderings),
{
    let ks = spec_space_keys(decls);
    assert forall|m: int| 0 <= m <= ks.len() implies #[trigger] spec_spaces_diagnostics(path, kind, decls, ks.take(m))
        == Seq::<DiagnosticView>::empty() by {
        lemma_spaces_quiet(path, kind, decls, ks.take(m));
    }
    assert(ks.take(ks.len() as int) =~= ks);
    let p = crate::property_setters::spec_property_setter_diagnostics(path, decls, renderings);
    assert(p + Seq::<DiagnosticView>::empty() =~= p);
}

proof fn lemma_spaces_quiet(path: Seq<char>, kind: SourceKind, decls: Seq<DeclarationView>, ks: Seq<SpaceKey>)
    requires
        forall|i: int, j: int|
            0 <= i < j < decls.len() && space_key(decls[i]) == space_key(decls[j]) ==> #[trigger] decls[i].name
                != #[trigger] decls[j].name,
        forall|i: int| 0 <= i < decls.len() ==> !((#[trigger] decls[i]).owner is None && decls[i].is_class_var),
    ensures
        spec_spaces_diagnostics(path, kind, decls, ks) == Seq::<DiagnosticView>::empty(),
    decreases ks.len(),
{
    if ks.len() > 0 {
        lemma_spaces_quiet(path, kind, decls, ks.drop_last());
        let k = ks.last();
        let members = select_where(decls, in_space(k));
        assert forall|a: int, b: int| 0 <= a < b < members.len() implies #[trigger] members[a].name != #[trigger] members[b].name by {
            lemma_select_order(decls, in_space(k), a, b);
            let (ta, tb) = choose|ta: int, tb: int| 0 <= ta < tb < decls.len() && decls[ta] == members[a] && decls[tb] == members[b];
            lemma_select_members_here(decls, in_space(k), a);
            lemma_select_members_here(decls, in_space(k), b);
        }
        lemma_no_invalid_duplicates(members);
        lemma_no_duplicates_reported(path, kind, k.0, k.1, members);
        assert forall|i: int| 0 <= i < members.len() implies !((#[trigger] members[i]).is_class_var && k.0 is None) by {
            lemma_select_members_here(decls, in_space(k), i);
            let t = choose|t: int| 0 <= t < decls.len() && decls[t] == members[i];
            assert(!(decls[t].owner is None && decls[t].is_class_var));
        }
        lemma_no_classvar_errors(path, k.0, members);
        assert(spec_space_diagnostics(path, kind, k, members) =~= Seq::<DiagnosticView>::empty());
        assert(Seq::<DiagnosticView>::empty() + Seq::<DiagnosticView>::empty() =~= Seq::<DiagnosticView>::empty());
    }
}

/// Selection keeps input order: two selected positions come from two input positions in the
/// same order.
pub proof fn lemma_select_order(s: Seq<DeclarationView>, p: spec_fn(DeclarationView) -> bool, a: int, b: int)
    requires
        0 <= a < b < select_where(s, p).len(),
    ensures
        exists|ta: int, tb: int|
            0 <= ta < tb < s.len() && s[ta] == select_where(s, p)[a] && s[tb] == select_where(s, p)[b],
    decreases s.len(),
{
    let r = select_where(s.drop_last(), p);
    if b < r.len() {
        lemma_select_order(s.drop_last(), p, a, b);
        let (ta, tb) = choose|ta: int, tb: int|
            0 <= ta < tb < s.drop_last().len() && s.drop_last()[ta] == r[a] && s.drop_last()[tb] == r[b];
        assert(s[ta] == r[a] && s[tb] == r[b]);
    } else {
        lemma_select_members_here(s.drop_last(), p, a);
        let ta = choose|t: int| 0 <= t < s.drop_last().len() && s.drop_last()[t] == r[a];
        assert(s[ta] == r[a]);
        assert(s[s.len() - 1] == select_where(s, p)[b]);
    }
}

/// What makes a name an invalid duplicate: it is declared at least twice; it is one exactly
/// when its declarations form an invalid group; a function with its overloads, or a property
/// getter with its setter, is never one; and with all names distinct there is none.
pub proof fn law_invalid_duplicate_names(decls: Seq<DeclarationView>, name: Seq<char>)
    ensures
        spec_invalid_name(decls, name) ==> exists|i: int, j: int|
            0 <= i < j < decls.len() && #[trigger] decls[i].name == name && #[trigger] decls[j].name == name,
        ({
            let group = select_where(decls, has_name(name));
            &&& (spec_invalid_name(decls, name) <==> (group.len() > 0 && spec_is_invalid_duplicate_group(group)))
            &&& (count_where(group, has_kind(DeclarationKind::Function)) == 1 && count_where(
                group,
                has_kind(DeclarationKind::Overload),
            ) >= 1 && (forall|i: int|
                0 <= i < group.len() ==> (#[trigger] group[i]).kind == DeclarationKind::Function || group[i].kind
                    == DeclarationKind::Overload)) ==> !spec_invalid_name(decls, name)
            &&& (group.len() == 2 && group[0].kind == DeclarationKind::Function && group[1].kind
                == DeclarationKind::Function && ((group[0].method_kind == Some(MethodKind::Property)
                && group[1].method_kind == Some(MethodKind::PropertySetter)) || (group[1].method_kind == Some(
                MethodKind::Property,
            ) && group[0].method_kind == Some(MethodKind::PropertySetter)))) ==> !spec_invalid_name(decls, name)
        }),
        (forall|i: int, j: int| 0 <= i < j < decls.len() ==> #[trigger] decls[i].name != #[trigger] decls[j].name)
            ==> !spec_invalid_name(decls, name) && spec_invalid_duplicates(decls) == Seq::<Seq<char>>::empty(),
{
    let group = select_where(decls, has_name(name));
    lemma_select_count(decls, has_name(name));
    lemma_select_at_most_one(decls, has_name(name));
    lemma_kind_counts(group);
    if group.len() == 2 {
        assert(group.len() == 2 ==> (group[0].kind == DeclarationKind::Function && group[1].kind
            == DeclarationKind::Function ==> crate::declarations::all_where(group, has_kind(DeclarationKind::Function))));
        if group[0].method_kind == Some(MethodKind::Property) {
            assert(has_method_kind(MethodKind::Property)(group[0]));
        }
        if group[1].method_kind == Some(MethodKind::Property) {
            assert(has_method_kind(MethodKind::Property)(group[1]));
        }
        if group[0].method_kind == Some(MethodKind::PropertySetter) {
            assert(has_method_kind(MethodKind::PropertySetter)(group[0]));
        }
        if group[1].method_kind == Some(MethodKind::PropertySetter) {
            assert(has_method_kind(MethodKind::PropertySetter)(group[1]));
        }
    }
    if exists|i: int, j: int| 0 <= i < j < decls.len() && #[trigger] has_name(name)(decls[i]) && #[trigger] has_name(name)(decls[j]) {
        let (i, j) = choose|i: int, j: int| 0 <= i < j < decls.len() && #[trigger] has_name(name)(decls[i]) && #[trigger] has_name(name)(decls[j]);
        assert(decls[i].name == name && decls[j].name == name);
    }
    if (forall|i: int, j: int| 0 <= i < j < decls.len() ==> #[trigger] decls[i].name != #[trigger] decls[j].name) {
        lemma_no_invalid_duplicates(decls);
    }
}

proof fn lemma_kind_counts(group: Seq<DeclarationView>)
    ensures
        (forall|i: int|
            0 <= i < group.len() ==> (#[trigger] group[i]).kind == DeclarationKind::Function || group[i].kind
                == DeclarationKind::Overload) ==> count_where(group, has_kind(DeclarationKind::Function))
            + count_where(group, has_kind(DeclarationKind::Overload)) == group.len(),
    decreases group.len(),
{
    if group.len() > 0 {
        lemma_kind_counts(group.drop_last());
        if (forall|i: int|
            0 <= i < group.len() ==> (#[trigger] group[i]).kind == DeclarationKind::Function || group[i].kind
                == DeclarationKind::Overload) {
            assert forall|i: int| 0 <= i < group.drop_last().len() implies (#[trigger] group.drop_last()[i]).kind
                == DeclarationKind::Function || group.drop_last()[i].kind == DeclarationKind::Overload by {
                assert(group.drop_last()[i] == group[i]);
            }
            assert(group[group.len() - 1] == group.last());
        }
    }
}

} // verus!
