//! Properties whose setter accepts another type than the getter returns.
use vstd::prelude::*;
use crate::declarations::{
    Declaration, DeclarationKind, DeclarationView, MethodKind, decl_views, rising, string_views,
};
use crate::diagnostics::{Diagnostic, DiagnosticView, Severity, spec_diagnostic};
use crate::effect_summary::{SummaryKey, opt_view, opt_str_eq};
use crate::inference::{key_lt, lemma_key_lt_irreflexive, lemma_key_lt_total, lemma_key_lt_transitive};
use crate::owners::owner_precedes;
use crate::signatures::{direct_param_types, param_annotations, spec_direct_signature_params};
use crate::source_calls::views_of;
use crate::text::{owned, str_eq, str_lt, str_trim, substring, trim};

verus! {

/// The member a declaration names: its owner's name, if it has an owner, and its own name.
pub open spec fn member_key(d: DeclarationView) -> SummaryKey {
    (
        match d.owner {
            Some(o) => Some(o.name),
            None => None,
        },
        d.name,
    )
}

/// The order of member keys, as a function value.
pub open spec fn key_order() -> spec_fn(SummaryKey, SummaryKey) -> bool {
    |a: SummaryKey, b: SummaryKey| key_lt(a, b)
}

/// The members that `decls` declare, in key order.
pub open spec fn spec_member_keys(decls: Seq<DeclarationView>) -> Seq<SummaryKey> {
    choose|ks: Seq<SummaryKey>|
        rising(ks, key_order()) && forall|k: SummaryKey| #[trigger] ks.contains(k) <==> exists|i: int|
            0 <= i < decls.len() && member_key(decls[i]) == k
}

/// The first declaration from `from` on that declares the member `k` as a function of method
/// kind `mk`.
pub open spec fn first_where(s: Seq<DeclarationView>, k: SummaryKey, mk: MethodKind, from: nat) -> Option<DeclarationView>
    decreases s.len() - from,
{
    if from >= s.len() {
        None
    } else if member_key(s[from as int]) == k && s[from as int].kind == DeclarationKind::Function && s[from as int].method_kind
        == Some(mk) {
        Some(s[from as int])
    } else {
        first_where(s, k, mk, from + 1)
    }
}

/// The first position from `from` on where `->` starts.
pub open spec fn arrow_at(s: Seq<char>, from: nat) -> Option<nat>
    decreases s.len() - from,
{
    if from + 1 >= s.len() {
        None
    } else if s[from as int] == '-' && s[(from + 1) as int] == '>' {
        Some(from)
    } else {
        arrow_at(s, from + 1)
    }
}

/// The return type text of a getter: what follows the first `->` of its signature, trimmed.
pub open spec fn getter_type(detail: Seq<char>) -> Option<Seq<char>> {
    match arrow_at(detail, 0) {
        Some(i) => Some(trim(detail.skip((i + 2) as int))),
        None => None,
    }
}

/// The value type text of a setter: the annotation of its second parameter.
pub open spec fn setter_type(detail: Seq<char>) -> Option<Seq<char>> {
    match spec_direct_signature_params(detail) {
        Some(ps) => if param_annotations(ps).len() > 1 {
            Some(param_annotations(ps)[1])
        } else {
            None
        },
        None => None,
    }
}

/// How a type text renders: the last rendering listed for it, else the text itself.
pub open spec fn rendered(table: Seq<(String, String)>, t: Seq<char>) -> Seq<char>
    decreases table.len(),
{
    if table.len() == 0 {
        t
    } else if table.last().0@ == t {
        table.last().1@
    } else {
        rendered(table.drop_last(), t)
    }
}

/// The error for the member `k`, if any: it has a getter and a setter, both types are known,
/// and they render differently.
pub open spec fn spec_member_check(
    path: Seq<char>,
    decls: Seq<DeclarationView>,
    table: Seq<(String, String)>,
    k: SummaryKey,
) -> Option<DiagnosticView> {
    match (first_where(decls, k, MethodKind::Property, 0), first_where(decls, k, MethodKind::PropertySetter, 0)) {
        (Some(g), Some(s)) => match (getter_type(g.detail), setter_type(s.detail)) {
            (Some(gt), Some(st)) => {
                let gr = rendered(table, gt);
                let sr = rendered(table, st);
                if gr == sr {
                    None
                } else {
                    let head = match k.0 {
                        Some(o) => "type `"@ + o + "` in module `"@ + path + "` "@,
                        None => "module `"@ + path + "` "@,
                    };
                    Some(
                        spec_diagnostic(
                            Severity::Error,
                            "TPY4001"@,
                            head + "declares property `"@ + k.1 + "` with getter type `"@ + gr + "` but setter expects `"@ + sr
                                + "`"@,
                        ),
                    )
                }
            },
            _ => None,
        },
        _ => None,
    }
}

/// The errors for the first `n` of the members `ks`.
pub open spec fn spec_member_checks(
    path: Seq<char>,
    decls: Seq<DeclarationView>,
    table: Seq<(String, String)>,
    ks: Seq<SummaryKey>,
    n: nat,
) -> Seq<DiagnosticView>
    decreases n,
{
    if n == 0 {
        Seq::empty()
    } else {
        let prev = spec_member_checks(path, decls, table, ks, (n - 1) as nat);
        match spec_member_check(path, decls, table, ks[n - 1]) {
            Some(d) => prev.push(d),
            None => prev,
        }
    }
}

/// The property errors of a module: for each member, in key order, a getter and setter whose
/// types render differently.
pub open spec fn spec_property_setter_diagnostics(
    path: Seq<char>,
    decls: Seq<DeclarationView>,
    table: Seq<(String, String)>,
) -> Seq<DiagnosticView> {
    let ks = spec_member_keys(decls);
    spec_member_checks(path, decls, table, ks, ks.len())
}

/// Member keys taken by their views.
pub open spec fn key_views(s: Seq<(Option<String>, String)>) -> Seq<SummaryKey> {
    s.map_values(|k: (Option<String>, String)| (opt_view(k.0), k.1@))
}

proof fn lemma_key_order_facts()
    ensures
        forall|x: SummaryKey| !#[trigger] key_order()(x, x),
        forall|x: SummaryKey, y: SummaryKey, z: SummaryKey| #[trigger] key_order()(x, y) && #[trigger] key_order()(y, z) ==> key_order()(x, z),
{
    assert forall|x: SummaryKey| !#[trigger] key_order()(x, x) by {
        lemma_key_lt_irreflexive(x);
    }
    assert forall|x: SummaryKey, y: SummaryKey, z: SummaryKey| #[trigger] key_order()(x, y) && #[trigger] key_order()(y, z) implies key_order()(x, z) by {
        lemma_key_lt_transitive(x, y, z);
    }
}

fn insert_sorted_key(keys: &mut Vec<(Option<String>, String)>, owner: &Option<String>, name: &str)
    requires
        rising(key_views(old(keys)@), key_order()),
    ensures
        rising(key_views(final(keys)@), key_order()),
        forall|x: SummaryKey| #[trigger] key_views(final(keys)@).contains(x) <==> (key_views(old(keys)@).contains(x) || x
            == (opt_view(*owner), name@)),
{
    let ghost key = (opt_view(*owner), name@);
    let ghost ks = key_views(keys@);
    let mut p: usize = 0;
    while p < keys.len() && (owner_precedes(&keys[p].0, owner) || (opt_str_eq(&keys[p].0, owner) && str_lt(&keys[p].1, name)))
        invariant
            p <= keys@.len(),
            ks == key_views(keys@),
            key == (opt_view(*owner), name@),
            forall|j: int| 0 <= j < p ==> key_lt(#[trigger] ks[j], key),
        decreases keys@.len() - p,
    {
        p = p + 1;
    }
    if p < keys.len() && opt_str_eq(&keys[p].0, owner) && str_eq(&keys[p].1, name) {
        assert(ks[p as int] == key);
        assert(ks.contains(key));
        return;
    }
    proof {
        if p < keys@.len() {
            lemma_key_lt_total(ks[p as int], key);
        }
        lemma_key_lt_irreflexive(key);
        assert(!ks.contains(key)) by {
            if ks.contains(key) {
                let k = choose|k: int| 0 <= k < ks.len() && ks[k] == key;
                if k < p {
                    assert(key_lt(ks[k], key));
                } else if k > p {
                    assert(key_order()(ks[p as int], ks[k]));
                    lemma_key_lt_transitive(key, ks[p as int], ks[k]);
                }
            }
        }
    }
    keys.insert(p, (crate::effect_summary::clone_opt(owner), owned(name)));
    proof {
        let ks2 = key_views(keys@);
        assert(ks2 =~= ks.insert(p as int, key));
        assert forall|j: int, m: int| 0 <= j < m < ks2.len() implies #[trigger] key_order()(ks2[j], ks2[m]) by {
            if m < p {
                assert(key_order()(ks[j], ks[m]));
            } else if m == p {
            } else if j < p {
                assert(ks2[m] == ks[m - 1]);
                if m - 1 > p {
                    assert(key_order()(ks[p as int], ks[m - 1]));
                    lemma_key_lt_transitive(key, ks[p as int], ks[m - 1]);
                }
                lemma_key_lt_transitive(ks[j], key, ks[m - 1]);
            } else if j == p {
                if m - 1 > p {
                    assert(key_order()(ks[p as int], ks[m - 1]));
                    lemma_key_lt_transitive(key, ks[p as int], ks[m - 1]);
                }
            } else {
                assert(key_order()(ks[j - 1], ks[m - 1]));
            }
        }
        assert forall|x: SummaryKey| #[trigger] ks2.contains(x) <==> (ks.contains(x) || x == key) by {
            if ks.contains(x) {
                let k = choose|k: int| 0 <= k < ks.len() && ks[k] == x;
                if k < p {
                    assert(ks2[k] == x);
                } else {
                    assert(ks2[k + 1] == x);
                }
            }
            if x == key {
                assert(ks2[p as int] == x);
            }
            if ks2.contains(x) {
                let k = choose|k: int| 0 <= k < ks2.len() && ks2[k] == x;
                if k < p {
                    assert(ks[k] == x);
                } else if k > p {
                    assert(ks[k - 1] == x);
                }
            }
        }
    }
}

fn owner_name_of(d: &Declaration) -> (res: Option<String>)
    ensures
        opt_view(res) == member_key(d@).0,
{
    match &d.owner {
        Some(o) => Some(o.name.clone()),
        None => None,
    }
}

fn member_keys(declarations: &Vec<Declaration>) -> (res: Vec<(Option<String>, String)>)
    ensures
        key_views(res@) == spec_member_keys(decl_views(declarations@)),
{
    let ghost v = decl_views(declarations@);
    let mut keys: Vec<(Option<String>, String)> = Vec::new();
    let mut i: usize = 0;
    assert(key_views(keys@) =~= Seq::<SummaryKey>::empty());
    while i < declarations.len()
        invariant
            i <= declarations@.len(),
            v == decl_views(declarations@),
            v.len() == declarations@.len(),
            rising(key_views(keys@), key_order()),
            forall|x: SummaryKey| #[trigger] key_views(keys@).contains(x) <==> exists|t: int|
                0 <= t < i && member_key(v[t]) == x,
        decreases declarations@.len() - i,
    {
        let owner = owner_name_of(&declarations[i]);
        insert_sorted_key(&mut keys, &owner, &declarations[i].name);
        proof {
            assert(member_key(v[i as int]) == (opt_view(owner), declarations@[i as int].name@));
            assert forall|x: SummaryKey| #[trigger] key_views(keys@).contains(x) <==> exists|t: int|
                0 <= t < i + 1 && member_key(v[t]) == x by {
                if x == member_key(v[i as int]) {
                    assert(0 <= i < i + 1 && member_key(v[i as int]) == x);
                }
                if exists|t: int| 0 <= t < i + 1 && member_key(v[t]) == x {
                    let t = choose|t: int| 0 <= t < i + 1 && member_key(v[t]) == x;
                    if t < i {
                        assert(exists|t2: int| 0 <= t2 < i && member_key(v[t2]) == x);
                    }
                }
            }
        }
        i = i + 1;
    }
    proof {
        let ks = key_views(keys@);
        assert(rising(ks, key_order()) && forall|k: SummaryKey| #[trigger] ks.contains(k) <==> exists|t: int|
            0 <= t < v.len() && member_key(v[t]) == k);
        let chosen = spec_member_keys(v);
        lemma_key_order_facts();
        crate::declarations::lemma_rising_unique(ks, chosen, key_order());
    }
    keys
}

fn find_member<'a>(
    declarations: &'a Vec<Declaration>,
    owner: &Option<String>,
    name: &str,
    mk: MethodKind,
) -> (res: Option<&'a Declaration>)
    ensures
        match res {
            Some(d) => first_where(decl_views(declarations@), (opt_view(*owner), name@), mk, 0) == Some(d@),
            None => first_where(decl_views(declarations@), (opt_view(*owner), name@), mk, 0) is None,
        },
{
    let ghost v = decl_views(declarations@);
    let ghost k = (opt_view(*owner), name@);
    let mut i: usize = 0;
    while i < declarations.len()
        invariant
            i <= declarations@.len(),
            v == decl_views(declarations@),
            v.len() == declarations@.len(),
            k == (opt_view(*owner), name@),
            first_where(v, k, mk, 0) == first_where(v, k, mk, i as nat),
        decreases declarations@.len() - i,
    {
        let d = &declarations[i];
        assert(v[i as int] == d@);
        let d_owner = owner_name_of(d);
        let is_kind = d.kind == DeclarationKind::Function && match d.method_kind {
            Some(m) => m == mk,
            None => false,
        };
        if opt_str_eq(&d_owner, owner) && str_eq(&d.name, name) && is_kind {
            return Some(d);
        }
        i = i + 1;
    }
    None
}

fn arrow_position(s: &str) -> (res: Option<usize>)
    ensures
        match res {
            Some(i) => arrow_at(s@, 0) == Some(i as nat) && i + 2 <= s@.len(),
            None => arrow_at(s@, 0) is None,
        },
{
    let n = s.unicode_len();
    let mut i: usize = 0;
    while i < n && i + 1 < n
        invariant
            n == s@.len(),
            i <= n,
            arrow_at(s@, 0) == arrow_at(s@, i as nat),
        decreases n - i,
    {
        if s.get_char(i) == '-' && s.get_char(i + 1) == '>' {
            return Some(i);
        }
        i = i + 1;
    }
    None
}

fn getter_type_exec(detail: &str) -> (res: Option<String>)
    ensures
        match res {
            Some(t) => getter_type(detail@) == Some(t@),
            None => getter_type(detail@) is None,
        },
{
    match arrow_position(detail) {
        Some(i) => {
            let n = detail.unicode_len();
            let rest = substring(detail, i + 2, n);
            assert(rest@ == detail@.skip((i + 2) as int));
            Some(str_trim(&rest))
        },
        None => None,
    }
}

fn setter_type_exec(detail: &str) -> (res: Option<String>)
    ensures
        match res {
            Some(t) => setter_type(detail@) == Some(t@),
            None => setter_type(detail@) is None,
        },
{
    match direct_param_types(detail) {
        Some(ts) => {
            if ts.len() > 1 {
                assert(string_views(ts@)[1] == ts@[1]@);
                Some(ts[1].clone())
            } else {
                None
            }
        },
        None => None,
    }
}

fn rendered_exec(table: &Vec<(String, String)>, t: &str) -> (res: String)
    ensures
        res@ == rendered(table@, t@),
{
    let mut out = owned(t);
    let mut i: usize = 0;
    assert(table@.take(0) =~= Seq::<(String, String)>::empty());
    while i < table.len()
        invariant
            i <= table@.len(),
            out@ == rendered(table@.take(i as int), t@),
        decreases table@.len() - i,
    {
        assert(table@.take(i + 1).drop_last() =~= table@.take(i as int));
        assert(table@.take(i + 1).last() == table@[i as int]);
        if str_eq(&table[i].0, t) {
            out = table[i].1.clone();
        }
        i = i + 1;
    }
    assert(table@.take(i as int) =~= table@);
    out
}

fn member_check(
    source_path: &str,
    declarations: &Vec<Declaration>,
    table: &Vec<(String, String)>,
    owner: &Option<String>,
    name: &str,
) -> (res: Option<Diagnostic>)
    ensures
        match res {
            Some(d) => spec_member_check(source_path@, decl_views(declarations@), table@, (opt_view(*owner), name@))
                == Some(d@),
            None => spec_member_check(source_path@, decl_views(declarations@), table@, (opt_view(*owner), name@)) is None,
        },
{
    let getter = match find_member(declarations, owner, name, MethodKind::Property) {
        Some(g) => g,
        None => return None,
    };
    let setter = match find_member(declarations, owner, name, MethodKind::PropertySetter) {
        Some(s) => s,
        None => return None,
    };
    let gt = match getter_type_exec(&getter.detail) {
        Some(t) => t,
        None => return None,
    };
    let st = match setter_type_exec(&setter.detail) {
        Some(t) => t,
        None => return None,
    };
    let gr = rendered_exec(table, &gt);
    let sr = rendered_exec(table, &st);
    if str_eq(&gr, &sr) {
        return None;
    }
    let mut m = match owner {
        Some(o) => {
            let mut m = owned("type `");
            m.append(o);
            m.append("` in module `");
            m
        },
        None => owned("module `"),
    };
    m.append(source_path);
    m.append("` ");
    m.append("declares property `");
    m.append(name);
    m.append("` with getter type `");
    m.append(&gr);
    m.append("` but setter expects `");
    m.append(&sr);
    m.append("`");
    Some(Diagnostic::error("TPY4001", m))
}

/// The errors for properties whose setter expects another type than the getter returns, one
/// per member in key order (no owner first, then by owner name, then by member name). The
/// getter's type is what follows `->` in its signature, the setter's the annotation of its
/// second parameter; each is compared and shown as `renderings` renders it (a type text not
/// listed renders as itself).
pub fn property_setter_compatibility_diagnostics(
    source_path: &str,
    declarations: &Vec<Declaration>,
    renderings: &Vec<(String, String)>,
) -> (res: Vec<Diagnostic>)
    ensures
        views_of(res@) == spec_property_setter_diagnostics(source_path@, decl_views(declarations@), renderings@),
{
    let keys = member_keys(declarations);
    let ghost ks = key_views(keys@);
    let mut out: Vec<Diagnostic> = Vec::new();
    let mut i: usize = 0;
    assert(views_of(out@) =~= Seq::<DiagnosticView>::empty());
    while i < keys.len()
        invariant
            i <= keys@.len(),
            ks == key_views(keys@),
            ks == spec_member_keys(decl_views(declarations@)),
            views_of(out@) == spec_member_checks(source_path@, decl_views(declarations@), renderings@, ks, i as nat),
        decreases keys@.len() - i,
    {
        assert(ks[i as int] == (opt_view(keys@[i as int].0), keys@[i as int].1@));
        let ghost before = views_of(out@);
        match member_check(source_path, declarations, renderings, &keys[i].0, &keys[i].1) {
            Some(d) => {
                out.push(d);
                assert(views_of(out@) =~= before.push(d@));
            },
            None => {},
        }
        i = i + 1;
    }
    out
}

} // verus!
