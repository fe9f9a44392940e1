//! Class hierarchy lookups across modules: which class a base name refers to, and which
//! classes of a module descend from a sealed root.
use vstd::prelude::*;
use crate::declarations::{
    Declaration, DeclarationKind, DeclarationOwnerKind, insert_sorted_name, name_order, rising, string_views,
};
use crate::semantic_types::names_contain;
use crate::text::{rsplit_once, split_once, str_eq, str_rsplit_once, str_split_once, str_trim, trim};

verus! {

/// A module as hierarchy lookups read it: its key and its declarations.
#[derive(Debug)]
pub struct ModuleDeclarations {
    pub module_key: String,
    pub source_path: String,
    pub declarations: Vec<Declaration>,
}

/// The position of the first element that satisfies `p`.
pub open spec fn first_index<T>(s: Seq<T>, p: spec_fn(T) -> bool) -> Option<int>
    decreases s.len(),
{
    if s.len() == 0 {
        None
    } else {
        match first_index(s.drop_last(), p) {
            Some(i) => Some(i),
            None => if p(s.last()) {
                Some(s.len() - 1)
            } else {
                None
            },
        }
    }
}

/// `first_index` is the least position that satisfies `p`.
pub proof fn lemma_first_index<T>(s: Seq<T>, p: spec_fn(T) -> bool)
    ensures
        match first_index(s, p) {
            Some(i) => 0 <= i < s.len() && p(s[i]) && forall|j: int| 0 <= j < i ==> !p(#[trigger] s[j]),
            None => forall|j: int| 0 <= j < s.len() ==> !p(#[trigger] s[j]),
        },
    decreases s.len(),
{
    if s.len() > 0 {
        lemma_first_index(s.drop_last(), p);
        assert forall|j: int| 0 <= j < s.len() - 1 implies #[trigger] s[j] == s.drop_last()[j] by {}
    }
}

/// A top-level class declaration named `name`.
pub open spec fn is_top_class_named(d: Declaration, name: Seq<char>) -> bool {
    d.name@ == name && d.owner is None && d.kind == DeclarationKind::Class
}

/// The class that `name` refers to, searched among the classes of `decls`.
pub open spec fn class_named(name: Seq<char>) -> spec_fn(Declaration) -> bool {
    |d: Declaration| is_top_class_named(d, name)
}

/// The import declaration named `name`.
pub open spec fn import_named(name: Seq<char>) -> spec_fn(Declaration) -> bool {
    |d: Declaration| d.kind == DeclarationKind::Import && d.name@ == name
}

/// The module whose key is `key`.
pub open spec fn module_keyed(key: Seq<char>) -> spec_fn(ModuleDeclarations) -> bool {
    |m: ModuleDeclarations| m.module_key@ == key
}

/// Where a base name of `node` resolves: a class of `node` itself (`None`) or of module
/// `nodes[t]` (`Some(t)`), with the declaration's position. A local top-level class of that
/// name comes first; else an import of that name whose target `module.Symbol` names a
/// top-level class of a module in `nodes`.
pub open spec fn spec_resolve_direct_base(
    nodes: Seq<ModuleDeclarations>,
    node: ModuleDeclarations,
    base_name: Seq<char>,
) -> Option<(Option<int>, int)> {
    match first_index(node.declarations@, class_named(base_name)) {
        Some(j) => Some((None, j)),
        None => match first_index(node.declarations@, import_named(base_name)) {
            None => None,
            Some(k) => match rsplit_once(node.declarations@[k].detail@, '.') {
                None => None,
                Some((module_key, symbol)) => match first_index(nodes, module_keyed(module_key)) {
                    None => None,
                    Some(t) => match first_index(nodes[t].declarations@, class_named(symbol)) {
                        None => None,
                        Some(j) => Some((Some(t), j)),
                    },
                },
            },
        },
    }
}

fn find_declaration(decls: &Vec<Declaration>, name: &str, kind: DeclarationKind, top_level: bool) -> (res: Option<
    usize,
>)
    ensures
        res matches Some(i) ==> i < decls@.len(),
        ({
            let p = if top_level {
                class_named(name@)
            } else {
                import_named(name@)
            };
            kind == (if top_level { DeclarationKind::Class } else { DeclarationKind::Import }) ==> match res {
                Some(i) => first_index(decls@, p) == Some(i as int),
                None => first_index(decls@, p) is None,
            }
        }),
{
    let ghost p = if top_level {
        class_named(name@)
    } else {
        import_named(name@)
    };
    proof {
        lemma_first_index(decls@, p);
    }
    let mut i: usize = 0;
    while i < decls.len()
        invariant
            i <= decls@.len(),
            p == (if top_level { class_named(name@) } else { import_named(name@) }),
            kind == (if top_level { DeclarationKind::Class } else { DeclarationKind::Import }) ==> forall|j: int|
                0 <= j < i ==> !p(#[trigger] decls@[j]),
        decreases decls@.len() - i,
    {
        let d = &decls[i];
        if d.kind == kind && str_eq(&d.name, name) && (!top_level || d.owner.is_none()) {
            proof {
                if kind == (if top_level { DeclarationKind::Class } else { DeclarationKind::Import }) {
                    assert(p(decls@[i as int]));
                    lemma_first_index(decls@, p);
                    if first_index(decls@, p) != Some(i as int) {
                        let f = first_index(decls@, p).unwrap();
                        assert(!p(decls@[f]));
                    }
                }
            }
            return Some(i);
        }
        proof {
            if kind == (if top_level { DeclarationKind::Class } else { DeclarationKind::Import }) {
                assert(!p(decls@[i as int]));
            }
        }
        i = i + 1;
    }
    proof {
        if kind == (if top_level { DeclarationKind::Class } else { DeclarationKind::Import }) {
            if first_index(decls@, p) is Some {
                let f = first_index(decls@, p).unwrap();
                assert(p(decls@[f]));
            }
        }
    }
    None
}

fn find_module(nodes: &Vec<ModuleDeclarations>, key: &str) -> (res: Option<usize>)
    ensures
        res matches Some(i) ==> i < nodes@.len(),
        match res {
            Some(i) => first_index(nodes@, module_keyed(key@)) == Some(i as int),
            None => first_index(nodes@, module_keyed(key@)) is None,
        },
{
    let ghost p = module_keyed(key@);
    proof {
        lemma_first_index(nodes@, p);
    }
    let mut i: usize = 0;
    while i < nodes.len()
        invariant
            i <= nodes@.len(),
            p == module_keyed(key@),
            forall|j: int| 0 <= j < i ==> !p(#[trigger] nodes@[j]),
        decreases nodes@.len() - i,
    {
        if str_eq(&nodes[i].module_key, key) {
            proof {
                assert(p(nodes@[i as int]));
                lemma_first_index(nodes@, p);
                if first_index(nodes@, p) != Some(i as int) {
                    let f = first_index(nodes@, p).unwrap();
                    assert(!p(nodes@[f]));
                }
            }
            return Some(i);
        }
        i = i + 1;
    }
    proof {
        if first_index(nodes@, p) is Some {
            let f = first_index(nodes@, p).unwrap();
            assert(p(nodes@[f]));
        }
    }
    None
}

/// The class a base name of `node` refers to, with the module that declares it.
pub fn resolve_direct_base<'a>(
    nodes: &'a Vec<ModuleDeclarations>,
    node: &'a ModuleDeclarations,
    base_name: &str,
) -> (res: Option<(&'a ModuleDeclarations, &'a Declaration)>)
    ensures
        match res {
            Some((m, d)) => spec_base_of(nodes@, *node, base_name@) == Some((*m, *d)),
            None => spec_base_of(nodes@, *node, base_name@) is None,
        },
        match spec_resolve_direct_base(nodes@, *node, base_name@) {
            None => res is None,
            Some((None, j)) => res matches Some((m, d)) && *m == *node && *d == node.declarations@[j],
            Some((Some(t), j)) => res matches Some((m, d)) && *m == nodes@[t] && *d == nodes@[t].declarations@[j],
        },
{
    if let Some(j) = find_declaration(&node.declarations, base_name, DeclarationKind::Class, true) {
        return Some((node, &node.declarations[j]));
    }
    let k = match find_declaration(&node.declarations, base_name, DeclarationKind::Import, false) {
        Some(k) => k,
        None => return None,
    };
    let (module_key, symbol) = match str_rsplit_once(&node.declarations[k].detail, '.') {
        Some(parts) => parts,
        None => return None,
    };
    let t = match find_module(nodes, &module_key) {
        Some(t) => t,
        None => return None,
    };
    let target = &nodes[t];
    match find_declaration(&target.declarations, &symbol, DeclarationKind::Class, true) {
        Some(j) => Some((target, &target.declarations[j])),
        None => None,
    }
}

/// The module and class declaration a base name of `node` refers to.
pub open spec fn spec_base_of(
    nodes: Seq<ModuleDeclarations>,
    node: ModuleDeclarations,
    base_name: Seq<char>,
) -> Option<(ModuleDeclarations, Declaration)> {
    match spec_resolve_direct_base(nodes, node, base_name) {
        Some((None, j)) => Some((node, node.declarations@[j])),
        Some((Some(t), j)) => Some((nodes[t], nodes[t].declarations@[j])),
        None => None,
    }
}

/// A top-level class of the module that lists `base` among its bases.
pub open spec fn class_extends(d: Declaration, base: Seq<char>) -> bool {
    d.kind == DeclarationKind::Class && d.owner is None && string_views(d.bases@).contains(base)
}

/// The names of the top-level classes of `decls` that list `base` among their bases.
pub open spec fn subclass_names(decls: Seq<Declaration>, base: Seq<char>) -> Set<Seq<char>> {
    Set::new(
        |y: Seq<char>|
            exists|j: int| 0 <= j < decls.len() && class_extends(decls[j], base) && #[trigger] decls[j].name@ == y,
    )
}

/// The classes reached from `root` in at most `k` steps down the bases.
pub open spec fn descendants_within(decls: Seq<Declaration>, root: Seq<char>, k: nat) -> Set<Seq<char>>
    decreases k,
{
    if k == 0 {
        Set::empty()
    } else {
        let r = descendants_within(decls, root, (k - 1) as nat);
        r.union(
            Set::new(
                |y: Seq<char>|
                    exists|x: Seq<char>| (x == root || r.contains(x)) && #[trigger] subclass_names(decls, x).contains(y),
            ),
        )
    }
}

/// The names of the classes of `decls` that descend from `root`, directly or through other
/// classes of `decls`.
pub open spec fn spec_sealed_descendants(decls: Seq<Declaration>, root: Seq<char>) -> Set<Seq<char>> {
    Set::new(|y: Seq<char>| exists|k: nat| #[trigger] descendants_within(decls, root, k).contains(y))
}

proof fn lemma_closed_covers(decls: Seq<Declaration>, root: Seq<char>, d: Set<Seq<char>>, k: nat)
    requires
        forall|x: Seq<char>, y: Seq<char>|
            (x == root || d.contains(x)) && #[trigger] subclass_names(decls, x).contains(y) ==> d.contains(y),
    ensures
        descendants_within(decls, root, k).subset_of(d),
    decreases k,
{
    if k > 0 {
        lemma_closed_covers(decls, root, d, (k - 1) as nat);
    }
}

/// Some declaration of `decls` has the name `n`.
pub open spec fn declares_name(decls: Seq<Declaration>, n: Seq<char>) -> bool {
    exists|j: int| 0 <= j < decls.len() && #[trigger] decls[j].name@ == n
}

proof fn lemma_names_bound(decls: Seq<Declaration>, names: Seq<Seq<char>>)
    requires
        rising(names, name_order()),
        forall|i: int| 0 <= i < names.len() ==> declares_name(decls, #[trigger] names[i]),
    ensures
        names.len() <= decls.len(),
{
    let all = decls.map_values(|d: Declaration| d.name@);
    assert(names.no_duplicates()) by {
        assert forall|a: int, b: int| 0 <= a < names.len() && 0 <= b < names.len() && a != b implies names[a]
            != names[b] by {
            if a < b {
                assert(name_order()(names[a], names[b]));
            } else {
                assert(name_order()(names[b], names[a]));
            }
            crate::text::lemma_chars_lt_irreflexive(names[a]);
        }
    }
    names.unique_seq_to_set();
    all.lemma_cardinality_of_set();
    assert forall|x: Seq<char>| names.to_set().contains(x) implies all.to_set().contains(x) by {
        let i = choose|i: int| 0 <= i < names.len() && names[i] == x;
        assert(declares_name(decls, names[i]));
        let j = choose|j: int| 0 <= j < decls.len() && #[trigger] decls[j].name@ == names[i];
        assert(all[j] == x);
    }
    vstd::set_lib::lemma_len_subset(names.to_set(), all.to_set());
}

proof fn lemma_rising_no_dup(a: Seq<Seq<char>>)
    requires
        rising(a, name_order()),
    ensures
        a.no_duplicates(),
        a.to_set().len() == a.len(),
{
    assert forall|i: int, j: int| 0 <= i < a.len() && 0 <= j < a.len() && i != j implies a[i] != a[j] by {
        if i < j {
            assert(name_order()(a[i], a[j]));
        } else {
            assert(name_order()(a[j], a[i]));
        }
        crate::text::lemma_chars_lt_irreflexive(a[i]);
    }
    a.unique_seq_to_set();
}

proof fn lemma_rising_len(a: Seq<Seq<char>>, b: Seq<Seq<char>>, x: Seq<char>)
    requires
        rising(a, name_order()),
        rising(b, name_order()),
        b.to_set() == a.to_set().insert(x),
        !a.contains(x),
    ensures
        b.len() == a.len() + 1,
{
    lemma_rising_no_dup(a);
    lemma_rising_no_dup(b);
}

proof fn lemma_rising_same(a: Seq<Seq<char>>, b: Seq<Seq<char>>)
    requires
        rising(a, name_order()),
        rising(b, name_order()),
        b.to_set() == a.to_set(),
    ensures
        b.len() == a.len(),
{
    lemma_rising_no_dup(a);
    lemma_rising_no_dup(b);
}

/// The names of the classes of `decls` that descend from `root`, in increasing order.
pub open spec fn sorted_descendants(decls: Seq<Declaration>, root: Seq<char>) -> Seq<Seq<char>> {
    choose|ns: Seq<Seq<char>>|
        rising(ns, name_order()) && forall|n: Seq<char>| #[trigger] ns.contains(n) <==> spec_sealed_descendants(decls, root).contains(n)
}

/// The names of the classes of a module that descend from the class `root_name`, in order.
pub fn collect_sealed_descendants(node: &ModuleDeclarations, root_name: &str) -> (res: Vec<String>)
    ensures
        string_views(res@) == sorted_descendants(node.declarations@, root_name@),
        rising(string_views(res@), name_order()),
        forall|n: Seq<char>|
            #[trigger] string_views(res@).contains(n) <==> spec_sealed_descendants(node.declarations@, root_name@).contains(n),
{
    let decls = &node.declarations;
    let ghost ds = decls@;
    let ghost root = root_name@;
    let mut descendants: Vec<String> = Vec::new();
    let mut stack: Vec<String> = vec![root_name.to_string()];
    proof {
        lemma_names_bound(ds, string_views(descendants@));
        assert(string_views(stack@)[0] == root);
    }
    while stack.len() > 0
        invariant
            ds == decls@,
            root == root_name@,
            rising(string_views(descendants@), name_order()),
            string_views(descendants@).len() <= ds.len(),
            forall|i: int| 0 <= i < descendants@.len() ==> declares_name(ds, #[trigger] descendants@[i]@),
            forall|y: Seq<char>|
                #[trigger] string_views(descendants@).contains(y) ==> spec_sealed_descendants(ds, root).contains(y),
            forall|i: int| 0 <= i < stack@.len() ==> (#[trigger] stack@[i]@ == root || string_views(descendants@).contains(stack@[i]@)),
            forall|x: Seq<char>, y: Seq<char>|
                (x == root || string_views(descendants@).contains(x)) && #[trigger] subclass_names(ds, x).contains(y)
                    ==> string_views(stack@).contains(x) || string_views(descendants@).contains(y),
        decreases ds.len() - descendants@.len(), stack@.len(),
    {
        let ghost st0 = stack@;
        let current = stack.pop().unwrap();
        let ghost cur = current@;
        proof {
            assert(stack@ =~= st0.drop_last());
            assert(st0[st0.len() - 1]@ == cur);
            assert(cur == root || string_views(descendants@).contains(cur));
            assert forall|i: int| 0 <= i < stack@.len() implies (#[trigger] stack@[i]@ == root || string_views(
                descendants@,
            ).contains(stack@[i]@)) by {
                assert(stack@[i] == st0[i]);
            }
            assert forall|x: Seq<char>, y: Seq<char>|
                (x == root || string_views(descendants@).contains(x)) && x != cur && #[trigger] subclass_names(
                    ds,
                    x,
                ).contains(y) implies string_views(stack@).contains(x) || string_views(descendants@).contains(y) by {
                if !string_views(descendants@).contains(y) {
                    assert(string_views(st0).contains(x));
                    let i = choose|i: int| 0 <= i < st0.len() && string_views(st0)[i] == x;
                    assert(st0[i]@ == x);
                    assert(i != st0.len() - 1);
                    assert(string_views(stack@)[i] == x);
                }
            }
        }
        let ghost d0 = descendants@.len();
        let ghost s0 = stack@.len();
        let mut j: usize = 0;
        while j < decls.len()
            invariant
                descendants@.len() >= d0,
                stack@.len() == s0 + (descendants@.len() - d0),
                ds == decls@,
                root == root_name@,
                cur == current@,
                j <= ds.len(),
                cur == root || string_views(descendants@).contains(cur),
                rising(string_views(descendants@), name_order()),
                string_views(descendants@).len() <= ds.len(),
                forall|i: int| 0 <= i < descendants@.len() ==> declares_name(ds, #[trigger] descendants@[i]@),
                forall|y: Seq<char>|
                    #[trigger] string_views(descendants@).contains(y) ==> spec_sealed_descendants(ds, root).contains(y),
                forall|i: int| 0 <= i < stack@.len() ==> (#[trigger] stack@[i]@ == root || string_views(descendants@).contains(stack@[i]@)),
                forall|q: int| 0 <= q < j && class_extends(#[trigger] ds[q], cur) ==> string_views(descendants@).contains(ds[q].name@),
                forall|x: Seq<char>, y: Seq<char>|
                    (x == root || string_views(descendants@).contains(x)) && x != cur && #[trigger] subclass_names(ds, x).contains(y)
                        ==> string_views(stack@).contains(x) || string_views(descendants@).contains(y),
            decreases ds.len() - j,
        {
            let d = &decls[j];
            if d.kind == DeclarationKind::Class && d.owner.is_none() && names_contain(&d.bases, &current) {
                let ghost old_desc = string_views(descendants@);
                let ghost old_stack = string_views(stack@);
                proof {
                    assert(class_extends(ds[j as int], cur));
                    assert(subclass_names(ds, cur).contains(d.name@));
                    if cur == root {
                        assert(descendants_within(ds, root, 1).contains(d.name@));
                    } else {
                        let k = choose|k: nat| #[trigger] descendants_within(ds, root, k).contains(cur);
                        assert(descendants_within(ds, root, k + 1).contains(d.name@));
                    }
                    assert(spec_sealed_descendants(ds, root).contains(d.name@));
                }
                let ghost old_len = descendants@.len();
                if insert_sorted_name(&mut descendants, &d.name) {
                    stack.push(d.name.clone());
                    proof {
                        assert(string_views(stack@) =~= old_stack.push(d.name@));
                        assert(string_views(stack@)[stack@.len() - 1] == d.name@);
                        assert(string_views(descendants@).to_set() =~= old_desc.to_set().insert(d.name@));
                        assert(!old_desc.contains(d.name@));
                        lemma_rising_len(old_desc, string_views(descendants@), d.name@);
                    }
                } else {
                    proof {
                        assert(string_views(descendants@).to_set() =~= old_desc.to_set());
                        lemma_rising_same(old_desc, string_views(descendants@));
                    }
                }
                proof {
                    assert forall|i: int| 0 <= i < descendants@.len() implies declares_name(
                        ds,
                        #[trigger] descendants@[i]@,
                    ) by {
                        let x = descendants@[i]@;
                        assert(string_views(descendants@)[i] == x);
                        assert(string_views(descendants@).contains(x));
                        if x == d.name@ {
                            assert(ds[j as int].name@ == x);
                        } else {
                            assert(old_desc.contains(x));
                        }
                    }
                    lemma_names_bound(ds, string_views(descendants@));
                    assert forall|x: Seq<char>| old_stack.contains(x) implies #[trigger] string_views(stack@).contains(x) by {
                        let i = choose|i: int| 0 <= i < old_stack.len() && old_stack[i] == x;
                        assert(string_views(stack@)[i] == x);
                    }
                }
            }
            j = j + 1;
        }
        proof {
            assert forall|x: Seq<char>, y: Seq<char>|
                (x == root || string_views(descendants@).contains(x)) && #[trigger] subclass_names(ds, x).contains(y)
                    implies string_views(stack@).contains(x) || string_views(descendants@).contains(y) by {
                if x == cur {
                    let q = choose|q: int| 0 <= q < ds.len() && class_extends(ds[q], x) && #[trigger] ds[q].name@ == y;
                }
            }
        }
    }
    proof {
        let d = string_views(descendants@);
        assert(string_views(stack@) =~= Seq::<Seq<char>>::empty());
        assert forall|x: Seq<char>, y: Seq<char>|
            (x == root || d.to_set().contains(x)) && #[trigger] subclass_names(ds, x).contains(y) implies d.to_set().contains(
                y,
            ) by {
            assert(!string_views(stack@).contains(x));
        }
        assert forall|n: Seq<char>| #[trigger] d.contains(n) <==> spec_sealed_descendants(ds, root).contains(n) by {
            if spec_sealed_descendants(ds, root).contains(n) {
                let k = choose|k: nat| #[trigger] descendants_within(ds, root, k).contains(n);
                lemma_closed_covers(ds, root, d.to_set(), k);
                assert(d.to_set().contains(n));
            }
        }
        let target = sorted_descendants(ds, root);
        assert(rising(target, name_order()) && forall|n: Seq<char>| #[trigger] target.contains(n)
            <==> spec_sealed_descendants(ds, root).contains(n)) by {
            assert(rising(d, name_order()) && forall|n: Seq<char>| #[trigger] d.contains(n)
                <==> spec_sealed_descendants(ds, root).contains(n));
        }
        crate::declarations::lemma_name_order_facts();
        crate::declarations::lemma_rising_unique(d, target, name_order());
    }
    descendants
}

/// A class as a visited set records it: the module's key and the class's name.
pub type ClassKey = (Seq<char>, Seq<char>);

/// The keys held by a visited list.
pub open spec fn key_set(v: Seq<(String, String)>) -> Set<ClassKey> {
    v.map_values(|k: (String, String)| (k.0@, k.1@)).to_set()
}

/// The keys of the declarations of a module.
pub open spec fn module_keys(m: ModuleDeclarations) -> Set<ClassKey> {
    m.declarations@.map_values(|d: Declaration| (m.module_key@, d.name@)).to_set()
}

/// The keys of the declarations of all the modules.
pub open spec fn all_module_keys(nodes: Seq<ModuleDeclarations>) -> Set<ClassKey>
    decreases nodes.len(),
{
    if nodes.len() == 0 {
        Set::empty()
    } else {
        all_module_keys(nodes.drop_last()).union(module_keys(nodes.last()))
    }
}

/// The keys a search that starts at class `d` of module `m` can visit.
pub open spec fn key_universe(nodes: Seq<ModuleDeclarations>, m: ModuleDeclarations, d: Declaration) -> Set<ClassKey> {
    all_module_keys(nodes).union(module_keys(m)).insert((m.module_key@, d.name@))
}

/// How many keys a search from class `d` of module `m` has left to visit.
pub open spec fn search_measure(
    nodes: Seq<ModuleDeclarations>,
    m: ModuleDeclarations,
    d: Declaration,
    visited: Set<ClassKey>,
) -> nat {
    key_universe(nodes, m, d).difference(visited).len()
}

proof fn lemma_all_module_keys(nodes: Seq<ModuleDeclarations>)
    ensures
        all_module_keys(nodes).finite(),
        forall|t: int| 0 <= t < nodes.len() ==> module_keys(#[trigger] nodes[t]).subset_of(all_module_keys(nodes)),
    decreases nodes.len(),
{
    if nodes.len() > 0 {
        lemma_all_module_keys(nodes.drop_last());
        assert forall|t: int| 0 <= t < nodes.len() implies module_keys(#[trigger] nodes[t]).subset_of(
            all_module_keys(nodes),
        ) by {
            if t < nodes.len() - 1 {
                assert(nodes.drop_last()[t] == nodes[t]);
            }
        }
        let last = nodes.last();
        last.declarations@.map_values(|d: Declaration| (last.module_key@, d.name@)).lemma_cardinality_of_set();
    }
}

proof fn lemma_universe(nodes: Seq<ModuleDeclarations>, m: ModuleDeclarations, d: Declaration, base: Seq<char>)
    ensures
        key_universe(nodes, m, d).finite(),
        key_universe(nodes, m, d).contains((m.module_key@, d.name@)),
        spec_base_of(nodes, m, base) matches Some((bm, bd)) ==> key_universe(nodes, bm, bd).subset_of(
            key_universe(nodes, m, d),
        ),
{
    lemma_all_module_keys(nodes);
    m.declarations@.map_values(|x: Declaration| (m.module_key@, x.name@)).lemma_cardinality_of_set();
    match spec_resolve_direct_base(nodes, m, base) {
        Some((None, j)) => {
            lemma_resolve_bounds(nodes, m, base);
            let mv = m.declarations@.map_values(|x: Declaration| (m.module_key@, x.name@));
            assert(mv[j] == (m.module_key@, m.declarations@[j].name@));
            assert(module_keys(m).contains((m.module_key@, m.declarations@[j].name@)));
        },
        Some((Some(t), j)) => {
            lemma_resolve_bounds(nodes, m, base);
            let bm = nodes[t];
            let mv = bm.declarations@.map_values(|x: Declaration| (bm.module_key@, x.name@));
            assert(mv[j] == (bm.module_key@, bm.declarations@[j].name@));
            assert(module_keys(bm).contains((bm.module_key@, bm.declarations@[j].name@)));
            assert(module_keys(bm).subset_of(all_module_keys(nodes)));
        },
        None => {},
    }
}

proof fn lemma_resolve_bounds(nodes: Seq<ModuleDeclarations>, m: ModuleDeclarations, base: Seq<char>)
    ensures
        match spec_resolve_direct_base(nodes, m, base) {
            Some((None, j)) => 0 <= j < m.declarations@.len(),
            Some((Some(t), j)) => 0 <= t < nodes.len() && 0 <= j < nodes[t].declarations@.len(),
            None => true,
        },
{
    lemma_first_index(m.declarations@, class_named(base));
    lemma_first_index(m.declarations@, import_named(base));
    match first_index(m.declarations@, import_named(base)) {
        Some(k) => match rsplit_once(m.declarations@[k].detail@, '.') {
            Some((module_key, symbol)) => {
                lemma_first_index(nodes, module_keyed(module_key));
                match first_index(nodes, module_keyed(module_key)) {
                    Some(t) => {
                        lemma_first_index(nodes[t].declarations@, class_named(symbol));
                    },
                    None => {},
                }
            },
            None => {},
        },
        None => {},
    }
}

proof fn lemma_measure_drops(
    nodes: Seq<ModuleDeclarations>,
    m: ModuleDeclarations,
    d: Declaration,
    bm: ModuleDeclarations,
    bd: Declaration,
    entry: Set<ClassKey>,
    now: Set<ClassKey>,
)
    requires
        key_universe(nodes, m, d).finite(),
        key_universe(nodes, bm, bd).subset_of(key_universe(nodes, m, d)),
        !entry.contains((m.module_key@, d.name@)),
        key_universe(nodes, m, d).contains((m.module_key@, d.name@)),
        entry.insert((m.module_key@, d.name@)).subset_of(now),
    ensures
        search_measure(nodes, bm, bd, now) < search_measure(nodes, m, d, entry),
{
    let u = key_universe(nodes, m, d);
    let k = (m.module_key@, d.name@);
    let a = key_universe(nodes, bm, bd).difference(now);
    let b = u.difference(entry);
    assert(a.subset_of(b.remove(k)));
    vstd::set_lib::lemma_len_subset(a, b.remove(k));
    assert(b.contains(k));
}

fn visit(visited: &mut Vec<(String, String)>, module_key: &String, name: &String) -> (res: bool)
    ensures
        key_set(final(visited)@) == key_set(old(visited)@).insert((module_key@, name@)),
        res == !key_set(old(visited)@).contains((module_key@, name@)),
{
    let ghost v = old(visited)@.map_values(|k: (String, String)| (k.0@, k.1@));
    let ghost key = (module_key@, name@);
    let n = visited.len();
    let mut i: usize = 0;
    while i < n
        invariant
            n == visited@.len(),
            i <= n,
            visited@ == old(visited)@,
            v == visited@.map_values(|k: (String, String)| (k.0@, k.1@)),
            key == (module_key@, name@),
            forall|j: int| 0 <= j < i ==> v[j] != key,
        decreases n - i,
    {
        if str_eq(&visited[i].0, module_key) && str_eq(&visited[i].1, name) {
            assert(v[i as int] == key);
            assert(v.to_set().contains(key));
            assert(v.to_set().insert(key) =~= v.to_set());
            return false;
        }
        i = i + 1;
    }
    visited.push((module_key.clone(), name.clone()));
    proof {
        v.lemma_push_to_set_commute(key);
        assert(visited@.map_values(|k: (String, String)| (k.0@, k.1@)) =~= v.push(key));
        assert(!v.to_set().contains(key)) by {
            if v.to_set().contains(key) {
                let j = choose|j: int| 0 <= j < v.len() && v[j] == key;
            }
        }
    }
    true
}

/// A depth-first search up the resolved bases of a class, skipping classes already visited,
/// with the visited keys afterwards. With a target it looks for a class that lists the target
/// among its bases; without one, for an interface. `None` when `fuel` runs out first.
pub open spec fn spec_base_search(
    nodes: Seq<ModuleDeclarations>,
    m: ModuleDeclarations,
    d: Declaration,
    target: Option<Seq<char>>,
    visited: Set<ClassKey>,
    fuel: nat,
) -> Option<(bool, Set<ClassKey>)>
    decreases fuel,
{
    if fuel == 0 {
        None
    } else if target is None && d.class_kind == Some(DeclarationOwnerKind::Interface) {
        Some((true, visited))
    } else if visited.contains((m.module_key@, d.name@)) {
        Some((false, visited))
    } else {
        spec_bases_search(nodes, m, d.bases@, 0, target, visited.insert((m.module_key@, d.name@)), (fuel - 1) as nat)
    }
}

/// The search of `spec_base_search` over the bases from position `i` on.
pub open spec fn spec_bases_search(
    nodes: Seq<ModuleDeclarations>,
    m: ModuleDeclarations,
    bases: Seq<String>,
    i: int,
    target: Option<Seq<char>>,
    visited: Set<ClassKey>,
    fuel: nat,
) -> Option<(bool, Set<ClassKey>)>
    decreases fuel,
{
    if fuel == 0 {
        None
    } else if i < 0 || i >= bases.len() {
        Some((false, visited))
    } else if target == Some(bases[i]@) {
        Some((true, visited))
    } else {
        match spec_base_of(nodes, m, bases[i]@) {
            None => spec_bases_search(nodes, m, bases, i + 1, target, visited, (fuel - 1) as nat),
            Some((bm, bd)) => match spec_base_search(nodes, bm, bd, target, visited, (fuel - 1) as nat) {
                None => None,
                Some((true, v2)) => Some((true, v2)),
                Some((false, v2)) => spec_bases_search(nodes, m, bases, i + 1, target, v2, (fuel - 1) as nat),
            },
        }
    }
}

proof fn lemma_search_fuel(
    nodes: Seq<ModuleDeclarations>,
    m: ModuleDeclarations,
    d: Declaration,
    bases: Seq<String>,
    i: int,
    target: Option<Seq<char>>,
    visited: Set<ClassKey>,
    fuel: nat,
    more: nat,
)
    requires
        fuel <= more,
    ensures
        spec_base_search(nodes, m, d, target, visited, fuel) is Some ==> spec_base_search(
            nodes,
            m,
            d,
            target,
            visited,
            more,
        ) == spec_base_search(nodes, m, d, target, visited, fuel),
        spec_bases_search(nodes, m, bases, i, target, visited, fuel) is Some ==> spec_bases_search(
            nodes,
            m,
            bases,
            i,
            target,
            visited,
            more,
        ) == spec_bases_search(nodes, m, bases, i, target, visited, fuel),
    decreases fuel,
{
    if fuel > 0 {
        let f = (fuel - 1) as nat;
        let g = (more - 1) as nat;
        lemma_search_fuel(nodes, m, d, d.bases@, 0, target, visited.insert((m.module_key@, d.name@)), f, g);
        if 0 <= i < bases.len() && target != Some(bases[i]@) {
            match spec_base_of(nodes, m, bases[i]@) {
                None => {
                    lemma_search_fuel(nodes, m, d, bases, i + 1, target, visited, f, g);
                },
                Some((bm, bd)) => {
                    lemma_search_fuel(nodes, bm, bd, bd.bases@, 0, target, visited, f, g);
                    match spec_base_search(nodes, bm, bd, target, visited, f) {
                        Some((false, v2)) => {
                            lemma_search_fuel(nodes, m, d, bases, i + 1, target, v2, f, g);
                        },
                        _ => {},
                    }
                },
            }
        }
    }
}

/// The search over the bases from position `i` ends with `(r, v)` for some fuel.
pub open spec fn bases_search_gives(
    nodes: Seq<ModuleDeclarations>,
    m: ModuleDeclarations,
    bases: Seq<String>,
    i: int,
    target: Option<Seq<char>>,
    visited: Set<ClassKey>,
    r: bool,
    v: Set<ClassKey>,
) -> bool {
    exists|f: nat| #[trigger] spec_bases_search(nodes, m, bases, i, target, visited, f) == Some((r, v))
}

/// A fuel with which the search over the bases from the start gives `(r, v)`, when there is one.
pub open spec fn choose_fuel(
    nodes: Seq<ModuleDeclarations>,
    m: ModuleDeclarations,
    bases: Seq<String>,
    target: Option<Seq<char>>,
    start: Set<ClassKey>,
    r: bool,
    v: Set<ClassKey>,
) -> nat {
    choose|f: nat| #[trigger] spec_bases_search(nodes, m, bases, 0, target, start, f) == Some((r, v))
}

fn base_search(
    nodes: &Vec<ModuleDeclarations>,
    node: &ModuleDeclarations,
    declaration: &Declaration,
    target: Option<&str>,
    visited: &mut Vec<(String, String)>,
) -> (res: bool)
    ensures
        key_set(old(visited)@).subset_of(key_set(final(visited)@)),
        exists|f: nat|
            spec_base_search(nodes@, *node, *declaration, opt_str_view(target), key_set(old(visited)@), f) == Some(
                (res, key_set(final(visited)@)),
            ),
    decreases search_measure(nodes@, *node, *declaration, key_set(old(visited)@)),
{
    let ghost tv = opt_str_view(target);
    let ghost entry = key_set(visited@);
    let ghost key = (node.module_key@, declaration.name@);
    if target.is_none() && declaration.class_kind == Some(DeclarationOwnerKind::Interface) {
        assert(spec_base_search(nodes@, *node, *declaration, tv, entry, 1) == Some((true, entry)));
        return true;
    }
    if !visit(visited, &node.module_key, &declaration.name) {
        assert(spec_base_search(nodes@, *node, *declaration, tv, entry, 1) == Some((false, entry)));
        return false;
    }
    let ghost start = key_set(visited@);
    let bases = &declaration.bases;
    let mut i: usize = 0;
    while i < bases.len()
        invariant
            i <= bases@.len(),
            bases == declaration.bases,
            tv == opt_str_view(target),
            !(tv is None && declaration.class_kind == Some(DeclarationOwnerKind::Interface)),
            entry == key_set(old(visited)@),
            key == (node.module_key@, declaration.name@),
            !entry.contains(key),
            start == entry.insert(key),
            start.subset_of(key_set(visited@)),
            forall|r: bool, v: Set<ClassKey>|
                #[trigger] bases_search_gives(nodes@, *node, bases@, i as int, tv, key_set(visited@), r, v)
                    ==> bases_search_gives(nodes@, *node, bases@, 0, tv, start, r, v),
        decreases bases@.len() - i,
    {
        let ghost now = key_set(visited@);
        let hit = match target {
            Some(t) => str_eq(&bases[i], t),
            None => false,
        };
        if hit {
            proof {
                assert(spec_bases_search(nodes@, *node, bases@, i as int, tv, now, 1) == Some((true, now)));
                assert(bases_search_gives(nodes@, *node, bases@, i as int, tv, now, true, now));
                let f = choose_fuel(nodes@, *node, bases@, tv, start, true, now);
                assert(spec_base_search(nodes@, *node, *declaration, tv, entry, f + 1) == Some((true, now)));
            }
            return true;
        }
        match resolve_direct_base(nodes, node, &bases[i]) {
            None => {
                proof {
                    assert forall|r: bool, v: Set<ClassKey>|
                        #[trigger] bases_search_gives(nodes@, *node, bases@, i + 1, tv, now, r, v) implies bases_search_gives(
                            nodes@,
                            *node,
                            bases@,
                            0,
                            tv,
                            start,
                            r,
                            v,
                        ) by {
                        let f = choose|f: nat| #[trigger] spec_bases_search(nodes@, *node, bases@, i + 1, tv, now, f)
                            == Some((r, v));
                        assert(spec_bases_search(nodes@, *node, bases@, i as int, tv, now, f + 1) == Some((r, v)));
                        assert(bases_search_gives(nodes@, *node, bases@, i as int, tv, now, r, v));
                    }
                }
            },
            Some((bm, bd)) => {
                proof {
                    lemma_universe(nodes@, *node, *declaration, bases@[i as int]@);
                    lemma_measure_drops(nodes@, *node, *declaration, *bm, *bd, entry, now);
                }
                let found = base_search(nodes, bm, bd, target, visited);
                let ghost after = key_set(visited@);
                let ghost f1 = choose|f: nat| spec_base_search(nodes@, *bm, *bd, tv, now, f) == Some((found, after));
                if found {
                    proof {
                        assert(spec_bases_search(nodes@, *node, bases@, i as int, tv, now, f1 + 1) == Some((true, after)));
                        assert(bases_search_gives(nodes@, *node, bases@, i as int, tv, now, true, after));
                        let f = choose_fuel(nodes@, *node, bases@, tv, start, true, after);
                        assert(spec_base_search(nodes@, *node, *declaration, tv, entry, f + 1) == Some((true, after)));
                    }
                    return true;
                }
                proof {
                    assert forall|r: bool, v: Set<ClassKey>|
                        #[trigger] bases_search_gives(nodes@, *node, bases@, i + 1, tv, after, r, v) implies bases_search_gives(
                            nodes@,
                            *node,
                            bases@,
                            0,
                            tv,
                            start,
                            r,
                            v,
                        ) by {
                        let f2 = choose|f: nat| #[trigger] spec_bases_search(nodes@, *node, bases@, i + 1, tv, after, f)
                            == Some((r, v));
                        let g = if f1 > f2 { f1 } else { f2 };
                        lemma_search_fuel(nodes@, *bm, *bd, bd.bases@, 0, tv, now, f1, g);
                        lemma_search_fuel(nodes@, *node, *declaration, bases@, i + 1, tv, after, f2, g);
                        assert(spec_bases_search(nodes@, *node, bases@, i as int, tv, now, g + 1) == Some((r, v)));
                        assert(bases_search_gives(nodes@, *node, bases@, i as int, tv, now, r, v));
                    }
                }
            },
        }
        i = i + 1;
    }
    let ghost fin = key_set(visited@);
    proof {
        assert(spec_bases_search(nodes@, *node, bases@, i as int, tv, fin, 1) == Some((false, fin)));
        assert(bases_search_gives(nodes@, *node, bases@, i as int, tv, fin, false, fin));
        let f = choose_fuel(nodes@, *node, bases@, tv, start, false, fin);
        assert(spec_base_search(nodes@, *node, *declaration, tv, entry, f + 1) == Some((false, fin)));
    }
    false
}

/// An optional text taken by its characters.
pub open spec fn opt_str_view(o: Option<&str>) -> Option<Seq<char>> {
    match o {
        Some(t) => Some(t@),
        None => None,
    }
}

/// Whether class `declaration` of module `node` descends from `root_name`: some class reached
/// up its resolved bases, itself included, lists `root_name` among its bases. Classes in
/// `visited` are skipped; those visited are added.
pub fn sealed_descends_from_with_visited(
    nodes: &Vec<ModuleDeclarations>,
    node: &ModuleDeclarations,
    declaration: &Declaration,
    root_name: &str,
    visited: &mut Vec<(String, String)>,
) -> (res: bool)
    ensures
        key_set(old(visited)@).subset_of(key_set(final(visited)@)),
        exists|f: nat|
            spec_base_search(nodes@, *node, *declaration, Some(root_name@), key_set(old(visited)@), f) == Some(
                (res, key_set(final(visited)@)),
            ),
{
    base_search(nodes, node, declaration, Some(root_name), visited)
}

/// Whether class `declaration` of module `node` descends from `root_name`.
pub fn sealed_descends_from(
    nodes: &Vec<ModuleDeclarations>,
    node: &ModuleDeclarations,
    declaration: &Declaration,
    root_name: &str,
) -> (res: bool)
    ensures
        res == descends_from(nodes@, *node, *declaration, root_name@),
{
    let mut visited: Vec<(String, String)> = Vec::new();
    assert(key_set(visited@) =~= Set::<ClassKey>::empty());
    let res = sealed_descends_from_with_visited(nodes, node, declaration, root_name, &mut visited);
    proof {
        lemma_search_result(nodes@, *node, *declaration, Some(root_name@), res, key_set(visited@));
    }
    res
}

/// Whether class `declaration` of module `node` is an interface or reaches one up its resolved
/// bases. Classes in `visited` are skipped; those visited are added.
pub fn is_interface_like_declaration_with_visited(
    node: &ModuleDeclarations,
    declaration: &Declaration,
    nodes: &Vec<ModuleDeclarations>,
    visited: &mut Vec<(String, String)>,
) -> (res: bool)
    ensures
        key_set(old(visited)@).subset_of(key_set(final(visited)@)),
        exists|f: nat|
            spec_base_search(nodes@, *node, *declaration, None, key_set(old(visited)@), f) == Some(
                (res, key_set(final(visited)@)),
            ),
{
    base_search(nodes, node, declaration, None, visited)
}

/// Whether class `declaration` of module `node` is an interface or reaches one up its bases.
pub fn is_interface_like_declaration(
    node: &ModuleDeclarations,
    declaration: &Declaration,
    nodes: &Vec<ModuleDeclarations>,
) -> (res: bool)
    ensures
        res == interface_like(nodes@, *node, *declaration),
{
    let mut visited: Vec<(String, String)> = Vec::new();
    assert(key_set(visited@) =~= Set::<ClassKey>::empty());
    let res = is_interface_like_declaration_with_visited(node, declaration, nodes, &mut visited);
    proof {
        lemma_search_result(nodes@, *node, *declaration, None, res, key_set(visited@));
    }
    res
}

/// The keys of the classes a base name of module `m` can resolve to.
pub open spec fn module_universe(nodes: Seq<ModuleDeclarations>, m: ModuleDeclarations) -> Set<ClassKey> {
    all_module_keys(nodes).union(module_keys(m))
}

/// How many keys a sealed-root search from module `m` has left to visit.
pub open spec fn root_measure(nodes: Seq<ModuleDeclarations>, m: ModuleDeclarations, visited: Set<ClassKey>) -> nat {
    module_universe(nodes, m).difference(visited).len()
}

proof fn lemma_module_universe(nodes: Seq<ModuleDeclarations>, m: ModuleDeclarations, name: Seq<char>)
    ensures
        module_universe(nodes, m).finite(),
        spec_base_of(nodes, m, name) matches Some((rn, rd)) ==> module_universe(nodes, rn).subset_of(
            module_universe(nodes, m),
        ) && module_universe(nodes, m).contains((rn.module_key@, rd.name@)),
{
    lemma_all_module_keys(nodes);
    m.declarations@.map_values(|x: Declaration| (m.module_key@, x.name@)).lemma_cardinality_of_set();
    lemma_resolve_bounds(nodes, m, name);
    match spec_resolve_direct_base(nodes, m, name) {
        Some((None, j)) => {
            let mv = m.declarations@.map_values(|x: Declaration| (m.module_key@, x.name@));
            assert(mv[j] == (m.module_key@, m.declarations@[j].name@));
        },
        Some((Some(t), j)) => {
            let bm = nodes[t];
            let mv = bm.declarations@.map_values(|x: Declaration| (bm.module_key@, x.name@));
            assert(mv[j] == (bm.module_key@, bm.declarations@[j].name@));
            assert(module_keys(bm).subset_of(all_module_keys(nodes)));
        },
        None => {},
    }
}

/// The sealed class that the name `name` of module `m` leads to: the class it resolves to when
/// that is sealed, else the first sealed class found depth first up that class's bases,
/// skipping classes already visited; with the visited keys afterwards. `None` when `fuel` runs
/// out first.
pub open spec fn spec_sealed_root(
    nodes: Seq<ModuleDeclarations>,
    m: ModuleDeclarations,
    name: Seq<char>,
    visited: Set<ClassKey>,
    fuel: nat,
) -> Option<(Option<(ModuleDeclarations, Declaration)>, Set<ClassKey>)>
    decreases fuel,
{
    if fuel == 0 {
        None
    } else {
        match spec_base_of(nodes, m, name) {
            None => Some((None, visited)),
            Some((rn, rd)) => if visited.contains((rn.module_key@, rd.name@)) {
                Some((None, visited))
            } else if rd.class_kind == Some(DeclarationOwnerKind::SealedClass) {
                Some((Some((rn, rd)), visited.insert((rn.module_key@, rd.name@))))
            } else {
                spec_sealed_root_bases(nodes, rn, rd.bases@, 0, visited.insert((rn.module_key@, rd.name@)), (fuel - 1) as nat)
            },
        }
    }
}

/// The search of `spec_sealed_root` over the bases from position `i` on.
pub open spec fn spec_sealed_root_bases(
    nodes: Seq<ModuleDeclarations>,
    m: ModuleDeclarations,
    bases: Seq<String>,
    i: int,
    visited: Set<ClassKey>,
    fuel: nat,
) -> Option<(Option<(ModuleDeclarations, Declaration)>, Set<ClassKey>)>
    decreases fuel,
{
    if fuel == 0 {
        None
    } else if i < 0 || i >= bases.len() {
        Some((None, visited))
    } else {
        match spec_sealed_root(nodes, m, bases[i]@, visited, (fuel - 1) as nat) {
            None => None,
            Some((Some(found), v2)) => Some((Some(found), v2)),
            Some((None, v2)) => spec_sealed_root_bases(nodes, m, bases, i + 1, v2, (fuel - 1) as nat),
        }
    }
}

proof fn lemma_root_fuel(
    nodes: Seq<ModuleDeclarations>,
    m: ModuleDeclarations,
    name: Seq<char>,
    bases: Seq<String>,
    i: int,
    visited: Set<ClassKey>,
    fuel: nat,
    more: nat,
)
    requires
        fuel <= more,
    ensures
        spec_sealed_root(nodes, m, name, visited, fuel) is Some ==> spec_sealed_root(nodes, m, name, visited, more)
            == spec_sealed_root(nodes, m, name, visited, fuel),
        spec_sealed_root_bases(nodes, m, bases, i, visited, fuel) is Some ==> spec_sealed_root_bases(
            nodes,
            m,
            bases,
            i,
            visited,
            more,
        ) == spec_sealed_root_bases(nodes, m, bases, i, visited, fuel),
    decreases fuel,
{
    if fuel > 0 {
        let f = (fuel - 1) as nat;
        let g = (more - 1) as nat;
        match spec_base_of(nodes, m, name) {
            Some((rn, rd)) => {
                lemma_root_fuel(nodes, rn, name, rd.bases@, 0, visited.insert((rn.module_key@, rd.name@)), f, g);
            },
            None => {},
        }
        if 0 <= i < bases.len() {
            lemma_root_fuel(nodes, m, bases[i]@, bases, i, visited, f, g);
            match spec_sealed_root(nodes, m, bases[i]@, visited, f) {
                Some((None, v2)) => {
                    lemma_root_fuel(nodes, m, name, bases, i + 1, v2, f, g);
                },
                _ => {},
            }
        }
    }
}

/// The search over the bases from position `i` ends with `(r, v)` for some fuel.
pub open spec fn root_bases_give(
    nodes: Seq<ModuleDeclarations>,
    m: ModuleDeclarations,
    bases: Seq<String>,
    i: int,
    visited: Set<ClassKey>,
    r: Option<(ModuleDeclarations, Declaration)>,
    v: Set<ClassKey>,
) -> bool {
    exists|f: nat| #[trigger] spec_sealed_root_bases(nodes, m, bases, i, visited, f) == Some((r, v))
}

/// A resolved module and class taken by value.
pub open spec fn found_view(o: Option<(&ModuleDeclarations, &Declaration)>) -> Option<(ModuleDeclarations, Declaration)> {
    match o {
        Some((a, b)) => Some((*a, *b)),
        None => None,
    }
}

/// The sealed class that the name `class_name` of module `node` leads to, with the module that
/// declares it. Classes in `visited` are skipped; those visited are added.
pub fn resolve_sealed_root_with_visited<'a>(
    nodes: &'a Vec<ModuleDeclarations>,
    node: &'a ModuleDeclarations,
    class_name: &str,
    visited: &mut Vec<(String, String)>,
) -> (res: Option<(&'a ModuleDeclarations, &'a Declaration)>)
    ensures
        key_set(old(visited)@).subset_of(key_set(final(visited)@)),
        exists|f: nat|
            spec_sealed_root(nodes@, *node, class_name@, key_set(old(visited)@), f) == Some(
                (found_view(res), key_set(final(visited)@)),
            ),
    decreases root_measure(nodes@, *node, key_set(old(visited)@)),
{
    let ghost entry = key_set(visited@);
    let (rn, rd) = match resolve_direct_base(nodes, node, class_name) {
        Some(found) => found,
        None => {
            assert(spec_sealed_root(nodes@, *node, class_name@, entry, 1) == Some((found_view(None), entry)));
            return None;
        },
    };
    let ghost key = (rn.module_key@, rd.name@);
    if !visit(visited, &rn.module_key, &rd.name) {
        assert(spec_sealed_root(nodes@, *node, class_name@, entry, 1) == Some((found_view(None), entry)));
        return None;
    }
    let ghost start = key_set(visited@);
    if rd.class_kind == Some(DeclarationOwnerKind::SealedClass) {
        assert(spec_sealed_root(nodes@, *node, class_name@, entry, 1) == Some((found_view(Some((rn, rd))), start)));
        return Some((rn, rd));
    }
    proof {
        lemma_module_universe(nodes@, *node, class_name@);
    }
    let bases = &rd.bases;
    let mut i: usize = 0;
    while i < bases.len()
        invariant
            i <= bases@.len(),
            bases == rd.bases,
            spec_base_of(nodes@, *node, class_name@) == Some((*rn, *rd)),
            rd.class_kind != Some(DeclarationOwnerKind::SealedClass),
            entry == key_set(old(visited)@),
            key == (rn.module_key@, rd.name@),
            !entry.contains(key),
            start == entry.insert(key),
            start.subset_of(key_set(visited@)),
            module_universe(nodes@, *node).finite(),
            module_universe(nodes@, *rn).subset_of(module_universe(nodes@, *node)),
            module_universe(nodes@, *node).contains(key),
            forall|r: Option<(ModuleDeclarations, Declaration)>, v: Set<ClassKey>|
                #[trigger] root_bases_give(nodes@, *rn, bases@, i as int, key_set(visited@), r, v) ==> root_bases_give(
                    nodes@,
                    *rn,
                    bases@,
                    0,
                    start,
                    r,
                    v,
                ),
        decreases bases@.len() - i,
    {
        let ghost now = key_set(visited@);
        proof {
            let a = module_universe(nodes@, *rn).difference(now);
            let b = module_universe(nodes@, *node).difference(entry);
            assert(a.subset_of(b.remove(key)));
            vstd::set_lib::lemma_len_subset(a, b.remove(key));
            assert(b.contains(key));
        }
        let found = resolve_sealed_root_with_visited(nodes, rn, &bases[i], visited);
        let ghost after = key_set(visited@);
        let ghost f1 = choose|f: nat| spec_sealed_root(nodes@, *rn, bases@[i as int]@, now, f) == Some((found_view(found), after));
        if found.is_some() {
            proof {
                assert(spec_sealed_root_bases(nodes@, *rn, bases@, i as int, now, f1 + 1) == Some((found_view(found), after)));
                assert(root_bases_give(nodes@, *rn, bases@, i as int, now, found_view(found), after));
                let f = choose|f: nat| #[trigger] spec_sealed_root_bases(nodes@, *rn, bases@, 0, start, f) == Some(
                    (found_view(found), after),
                );
                assert(spec_sealed_root(nodes@, *node, class_name@, entry, f + 1) == Some((found_view(found), after)));
            }
            return found;
        }
        proof {
            assert forall|r: Option<(ModuleDeclarations, Declaration)>, v: Set<ClassKey>|
                #[trigger] root_bases_give(nodes@, *rn, bases@, i + 1, after, r, v) implies root_bases_give(
                    nodes@,
                    *rn,
                    bases@,
                    0,
                    start,
                    r,
                    v,
                ) by {
                let f2 = choose|f: nat| #[trigger] spec_sealed_root_bases(nodes@, *rn, bases@, i + 1, after, f) == Some((r, v));
                let g = if f1 > f2 { f1 } else { f2 };
                lemma_root_fuel(nodes@, *rn, bases@[i as int]@, bases@, i as int, now, f1, g);
                lemma_root_fuel(nodes@, *rn, class_name@, bases@, i + 1, after, f2, g);
                assert(spec_sealed_root_bases(nodes@, *rn, bases@, i as int, now, g + 1) == Some((r, v)));
                assert(root_bases_give(nodes@, *rn, bases@, i as int, now, r, v));
            }
        }
        i = i + 1;
    }
    let ghost fin = key_set(visited@);
    proof {
        assert(spec_sealed_root_bases(nodes@, *rn, bases@, i as int, fin, 1) == Some((None::<(ModuleDeclarations, Declaration)>, fin)));
        assert(root_bases_give(nodes@, *rn, bases@, i as int, fin, None::<(ModuleDeclarations, Declaration)>, fin));
        let f = choose|f: nat| #[trigger] spec_sealed_root_bases(nodes@, *rn, bases@, 0, start, f) == Some((None::<(ModuleDeclarations, Declaration)>, fin));
        assert(spec_sealed_root(nodes@, *node, class_name@, entry, f + 1) == Some((found_view(None), fin)));
    }
    None
}

/// The sealed class that the name `class_name` of module `node` leads to, with its module.
pub fn resolve_sealed_root<'a>(
    nodes: &'a Vec<ModuleDeclarations>,
    node: &'a ModuleDeclarations,
    class_name: &str,
) -> (res: Option<(&'a ModuleDeclarations, &'a Declaration)>)
    ensures
        found_view(res) == sealed_root_of(nodes@, *node, class_name@),
{
    let mut visited: Vec<(String, String)> = Vec::new();
    assert(key_set(visited@) =~= Set::<ClassKey>::empty());
    let res = resolve_sealed_root_with_visited(nodes, node, class_name, &mut visited);
    proof {
        let v = key_set(visited@);
        let f = choose|f: nat| spec_sealed_root(nodes@, *node, class_name@, Set::empty(), f) == Some((found_view(res), v));
        let g = choose|g: nat| #[trigger] spec_sealed_root(nodes@, *node, class_name@, Set::empty(), g) is Some;
        let h = if f > g { f } else { g };
        lemma_root_fuel(nodes@, *node, class_name@, Seq::empty(), 0, Set::empty(), f, h);
        lemma_root_fuel(nodes@, *node, class_name@, Seq::empty(), 0, Set::empty(), g, h);
    }
    res
}

/// The outcome of a base search from a fresh start, which some fuel reaches.
pub open spec fn search_outcome(
    nodes: Seq<ModuleDeclarations>,
    m: ModuleDeclarations,
    d: Declaration,
    target: Option<Seq<char>>,
) -> bool {
    let f = choose|f: nat| #[trigger] spec_base_search(nodes, m, d, target, Set::empty(), f) is Some;
    match spec_base_search(nodes, m, d, target, Set::empty(), f) {
        Some((r, _)) => r,
        None => false,
    }
}

/// Class `d` of module `m` reaches a class that lists `root` among its bases.
pub open spec fn descends_from(nodes: Seq<ModuleDeclarations>, m: ModuleDeclarations, d: Declaration, root: Seq<char>) -> bool {
    search_outcome(nodes, m, d, Some(root))
}

/// Class `d` of module `m` is an interface or reaches one up its bases.
pub open spec fn interface_like(nodes: Seq<ModuleDeclarations>, m: ModuleDeclarations, d: Declaration) -> bool {
    search_outcome(nodes, m, d, None)
}

/// The sealed class that the name `name` of module `m` leads to, from a fresh start.
pub open spec fn sealed_root_of(nodes: Seq<ModuleDeclarations>, m: ModuleDeclarations, name: Seq<char>) -> Option<
    (ModuleDeclarations, Declaration),
> {
    let f = choose|f: nat| #[trigger] spec_sealed_root(nodes, m, name, Set::empty(), f) is Some;
    match spec_sealed_root(nodes, m, name, Set::empty(), f) {
        Some((r, _)) => r,
        None => None,
    }
}

proof fn lemma_search_result(
    nodes: Seq<ModuleDeclarations>,
    m: ModuleDeclarations,
    d: Declaration,
    target: Option<Seq<char>>,
    r: bool,
    v: Set<ClassKey>,
)
    requires
        exists|f: nat| spec_base_search(nodes, m, d, target, Set::empty(), f) == Some((r, v)),
    ensures
        search_outcome(nodes, m, d, target) == r,
{
    let f = choose|f: nat| spec_base_search(nodes, m, d, target, Set::empty(), f) == Some((r, v));
    assert(spec_base_search(nodes, m, d, target, Set::empty(), f) is Some);
    let g = choose|g: nat| #[trigger] spec_base_search(nodes, m, d, target, Set::empty(), g) is Some;
    let h = if f > g { f } else { g };
    lemma_search_fuel(nodes, m, d, Seq::empty(), 0, target, Set::empty(), f, h);
    lemma_search_fuel(nodes, m, d, Seq::empty(), 0, target, Set::empty(), g, h);
}

proof fn lemma_within_names(decls: Seq<Declaration>, root: Seq<char>, k: nat)
    ensures
        descendants_within(decls, root, k).subset_of(decls.map_values(|d: Declaration| d.name@).to_set()),
    decreases k,
{
    let names = decls.map_values(|d: Declaration| d.name@);
    if k > 0 {
        lemma_within_names(decls, root, (k - 1) as nat);
        let r = descendants_within(decls, root, (k - 1) as nat);
        assert forall|z: Seq<char>| descendants_within(decls, root, k).contains(z) implies names.to_set().contains(z) by {
            if !r.contains(z) {
                let x = choose|x: Seq<char>| (x == root || r.contains(x)) && #[trigger] subclass_names(decls, x).contains(z);
                let j = choose|j: int| 0 <= j < decls.len() && class_extends(decls[j], x) && #[trigger] decls[j].name@ == z;
                assert(names[j] == z);
            }
        }
    }
}

/// The descendants of a class are finitely many: they are names of declarations.
pub proof fn lemma_descendants_finite(decls: Seq<Declaration>, root: Seq<char>)
    ensures
        spec_sealed_descendants(decls, root).finite(),
{
    let names = decls.map_values(|d: Declaration| d.name@);
    assert forall|n: Seq<char>| spec_sealed_descendants(decls, root).contains(n) implies names.to_set().contains(n) by {
        let k = choose|k: nat| #[trigger] descendants_within(decls, root, k).contains(n);
        lemma_within_names(decls, root, k);
    }
    names.lemma_cardinality_of_set();
    vstd::set_lib::lemma_len_subset(spec_sealed_descendants(decls, root), names.to_set());
}

/// A finite set of names can be listed in increasing order.
pub proof fn lemma_sorted_listing_exists(names: Set<Seq<char>>)
    requires
        names.finite(),
    ensures
        exists|ns: Seq<Seq<char>>| rising(ns, name_order()) && forall|n: Seq<char>| #[trigger] ns.contains(n) <==> names.contains(n),
    decreases names.len(),
{
    if names.len() == 0 {
        names.lemma_len0_is_empty();
        let ns = Seq::<Seq<char>>::empty();
        assert(rising(ns, name_order()) && forall|n: Seq<char>| #[trigger] ns.contains(n) <==> names.contains(n));
    } else {
        let le = |a: Seq<char>, b: Seq<char>| a == b || crate::text::chars_lt(a, b);
        assert(vstd::relations::total_ordering(le)) by {
            assert forall|a: Seq<char>, b: Seq<char>| #[trigger] le(a, b) && #[trigger] le(b, a) implies a == b by {
                if a != b {
                    crate::text::lemma_chars_lt_asymmetric(a, b);
                }
            }
            assert forall|a: Seq<char>, b: Seq<char>, c: Seq<char>| #[trigger] le(a, b) && #[trigger] le(b, c) implies le(a, c) by {
                if a != b && b != c {
                    crate::text::lemma_chars_lt_transitive(a, b, c);
                }
            }
            assert forall|a: Seq<char>, b: Seq<char>| #[trigger] le(a, b) || #[trigger] le(b, a) by {
                crate::text::lemma_chars_lt_total(a, b);
            }
        }
        names.find_unique_minimal_ensures(le);
        let m = names.find_unique_minimal(le);
        let rest = names.remove(m);
        lemma_sorted_listing_exists(rest);
        let tail = choose|ns: Seq<Seq<char>>| rising(ns, name_order()) && forall|n: Seq<char>| #[trigger] ns.contains(n) <==> rest.contains(n);
        let ns = seq![m] + tail;
        assert forall|x: Seq<char>| rest.contains(x) implies crate::text::chars_lt(m, x) by {
            crate::text::lemma_chars_lt_total(x, m);
            if crate::text::chars_lt(x, m) {
                assert(le(x, m));
                assert(le(m, x));
                crate::text::lemma_chars_lt_asymmetric(x, m);
            }
        }
        assert forall|j: int, k: int| 0 <= j < k < ns.len() implies #[trigger] name_order()(ns[j], ns[k]) by {
            if j == 0 {
                assert(tail.contains(ns[k]));
            } else {
                assert(ns[j] == tail[j - 1] && ns[k] == tail[k - 1]);
                assert(name_order()(tail[j - 1], tail[k - 1]));
            }
        }
        assert forall|n: Seq<char>| #[trigger] ns.contains(n) <==> names.contains(n) by {
            if ns.contains(n) && n != m {
                let w = choose|w: int| 0 <= w < ns.len() && ns[w] == n;
                assert(tail[w - 1] == n);
                assert(tail.contains(n));
            }
            if names.contains(n) && n != m {
                assert(rest.contains(n));
                assert(tail.contains(n));
                let w = choose|w: int| 0 <= w < tail.len() && tail[w] == n;
                assert(ns[w + 1] == n);
            }
            if n == m {
                assert(ns[0] == m);
            }
        }
        assert(rising(ns, name_order()) && forall|n: Seq<char>| #[trigger] ns.contains(n) <==> names.contains(n));
    }
}

/// The sorted listing of the descendants of a class lists exactly them, in increasing order.
pub proof fn lemma_sorted_descendants(decls: Seq<Declaration>, root: Seq<char>)
    ensures
        rising(sorted_descendants(decls, root), name_order()),
        forall|n: Seq<char>|
            #[trigger] sorted_descendants(decls, root).contains(n) <==> spec_sealed_descendants(decls, root).contains(n),
{
    lemma_descendants_finite(decls, root);
    lemma_sorted_listing_exists(spec_sealed_descendants(decls, root));
}

/// The class a base expression names: the text before its first `[`, trimmed.
pub open spec fn base_head(base: Seq<char>) -> Seq<char> {
    trim(
        match split_once(base, '[') {
            Some((a, _)) => a,
            None => base,
        },
    )
}

/// Bases that add no members of their own to a class's surface.
pub open spec fn is_closed_base_name(h: Seq<char>) -> bool {
    h == "object"@ || h == "Generic"@ || h == "Protocol"@ || h == "typing.Generic"@ || h == "typing.Protocol"@
}

/// A depth-first search up the bases of a class for a base that cannot be resolved, skipping
/// classes already visited and bases that add no members; with the visited keys afterwards.
/// `None` when `fuel` runs out first.
pub open spec fn spec_open_search(
    nodes: Seq<ModuleDeclarations>,
    m: ModuleDeclarations,
    d: Declaration,
    visited: Set<ClassKey>,
    fuel: nat,
) -> Option<(bool, Set<ClassKey>)>
    decreases fuel,
{
    if fuel == 0 {
        None
    } else if visited.contains((m.module_key@, d.name@)) {
        Some((false, visited))
    } else {
        spec_open_bases(nodes, m, d.bases@, 0, visited.insert((m.module_key@, d.name@)), (fuel - 1) as nat)
    }
}

/// The search of `spec_open_search` over the bases from position `i` on.
pub open spec fn spec_open_bases(
    nodes: Seq<ModuleDeclarations>,
    m: ModuleDeclarations,
    bases: Seq<String>,
    i: int,
    visited: Set<ClassKey>,
    fuel: nat,
) -> Option<(bool, Set<ClassKey>)>
    decreases fuel,
{
    if fuel == 0 {
        None
    } else if i < 0 || i >= bases.len() {
        Some((false, visited))
    } else if is_closed_base_name(base_head(bases[i]@)) {
        spec_open_bases(nodes, m, bases, i + 1, visited, (fuel - 1) as nat)
    } else {
        match spec_base_of(nodes, m, base_head(bases[i]@)) {
            None => Some((true, visited)),
            Some((bm, bd)) => match spec_open_search(nodes, bm, bd, visited, (fuel - 1) as nat) {
                None => None,
                Some((true, v2)) => Some((true, v2)),
                Some((false, v2)) => spec_open_bases(nodes, m, bases, i + 1, v2, (fuel - 1) as nat),
            },
        }
    }
}

proof fn lemma_open_fuel(
    nodes: Seq<ModuleDeclarations>,
    m: ModuleDeclarations,
    d: Declaration,
    bases: Seq<String>,
    i: int,
    visited: Set<ClassKey>,
    fuel: nat,
    more: nat,
)
    requires
        fuel <= more,
    ensures
        spec_open_search(nodes, m, d, visited, fuel) is Some ==> spec_open_search(nodes, m, d, visited, more)
            == spec_open_search(nodes, m, d, visited, fuel),
        spec_open_bases(nodes, m, bases, i, visited, fuel) is Some ==> spec_open_bases(nodes, m, bases, i, visited, more)
            == spec_open_bases(nodes, m, bases, i, visited, fuel),
    decreases fuel,
{
    if fuel > 0 {
        let f = (fuel - 1) as nat;
        let g = (more - 1) as nat;
        lemma_open_fuel(nodes, m, d, d.bases@, 0, visited.insert((m.module_key@, d.name@)), f, g);
        if 0 <= i < bases.len() {
            let h = base_head(bases[i]@);
            if is_closed_base_name(h) {
                lemma_open_fuel(nodes, m, d, bases, i + 1, visited, f, g);
            } else {
                match spec_base_of(nodes, m, h) {
                    None => {},
                    Some((bm, bd)) => {
                        lemma_open_fuel(nodes, bm, bd, bd.bases@, 0, visited, f, g);
                        match spec_open_search(nodes, bm, bd, visited, f) {
                            Some((false, v2)) => {
                                lemma_open_fuel(nodes, m, d, bases, i + 1, v2, f, g);
                            },
                            _ => {},
                        }
                    },
                }
            }
        }
    }
}

/// The search over the bases from position `i` ends with `(r, v)` for some fuel.
pub open spec fn open_bases_gives(
    nodes: Seq<ModuleDeclarations>,
    m: ModuleDeclarations,
    bases: Seq<String>,
    i: int,
    visited: Set<ClassKey>,
    r: bool,
    v: Set<ClassKey>,
) -> bool {
    exists|f: nat| #[trigger] spec_open_bases(nodes, m, bases, i, visited, f) == Some((r, v))
}

fn base_head_text(base: &str) -> (res: String)
    ensures
        res@ == base_head(base@),
{
    match str_split_once(base, '[') {
        Some((a, _)) => str_trim(&a),
        None => str_trim(base),
    }
}

/// Whether a class's member surface is open: some base up its hierarchy, other than `object`,
/// `Generic` or `Protocol`, cannot be resolved to a class. Classes in `visited` are skipped;
/// those visited are added.
pub fn class_surface_is_open(
    nodes: &Vec<ModuleDeclarations>,
    class_node: &ModuleDeclarations,
    class_decl: &Declaration,
    visited: &mut Vec<(String, String)>,
) -> (res: bool)
    ensures
        key_set(old(visited)@).subset_of(key_set(final(visited)@)),
        exists|f: nat|
            spec_open_search(nodes@, *class_node, *class_decl, key_set(old(visited)@), f) == Some(
                (res, key_set(final(visited)@)),
            ),
    decreases search_measure(nodes@, *class_node, *class_decl, key_set(old(visited)@)),
{
    let ghost entry = key_set(visited@);
    let ghost key = (class_node.module_key@, class_decl.name@);
    if !visit(visited, &class_node.module_key, &class_decl.name) {
        assert(spec_open_search(nodes@, *class_node, *class_decl, entry, 1) == Some((false, entry)));
        return false;
    }
    let ghost start = key_set(visited@);
    let bases = &class_decl.bases;
    proof {
        reveal_strlit("object");
        reveal_strlit("Generic");
        reveal_strlit("Protocol");
        reveal_strlit("typing.Generic");
        reveal_strlit("typing.Protocol");
    }
    let mut i: usize = 0;
    while i < bases.len()
        invariant
            i <= bases@.len(),
            bases == class_decl.bases,
            entry == key_set(old(visited)@),
            key == (class_node.module_key@, class_decl.name@),
            !entry.contains(key),
            start == entry.insert(key),
            start.subset_of(key_set(visited@)),
            forall|r: bool, v: Set<ClassKey>|
                #[trigger] open_bases_gives(nodes@, *class_node, bases@, i as int, key_set(visited@), r, v)
                    ==> open_bases_gives(nodes@, *class_node, bases@, 0, start, r, v),
        decreases bases@.len() - i,
    {
        let ghost now = key_set(visited@);
        let head = base_head_text(&bases[i]);
        let h = head.as_str();
        let closed = str_eq(h, "object") || str_eq(h, "Generic") || str_eq(h, "Protocol") || str_eq(h, "typing.Generic")
            || str_eq(h, "typing.Protocol");
        if closed {
            proof {
                assert forall|r: bool, v: Set<ClassKey>|
                    #[trigger] open_bases_gives(nodes@, *class_node, bases@, i + 1, now, r, v) implies open_bases_gives(
                        nodes@,
                        *class_node,
                        bases@,
                        0,
                        start,
                        r,
                        v,
                    ) by {
                    let f = choose|f: nat| #[trigger] spec_open_bases(nodes@, *class_node, bases@, i + 1, now, f) == Some((r, v));
                    assert(spec_open_bases(nodes@, *class_node, bases@, i as int, now, f + 1) == Some((r, v)));
                    assert(open_bases_gives(nodes@, *class_node, bases@, i as int, now, r, v));
                }
            }
        } else {
            match resolve_direct_base(nodes, class_node, h) {
                None => {
                    proof {
                        assert(spec_open_bases(nodes@, *class_node, bases@, i as int, now, 1) == Some((true, now)));
                        assert(open_bases_gives(nodes@, *class_node, bases@, i as int, now, true, now));
                        let f = choose|f: nat| #[trigger] spec_open_bases(nodes@, *class_node, bases@, 0, start, f) == Some((true, now));
                        assert(spec_open_search(nodes@, *class_node, *class_decl, entry, f + 1) == Some((true, now)));
                    }
                    return true;
                },
                Some((bm, bd)) => {
                    proof {
                        lemma_universe(nodes@, *class_node, *class_decl, h@);
                        lemma_measure_drops(nodes@, *class_node, *class_decl, *bm, *bd, entry, now);
                    }
                    let open = class_surface_is_open(nodes, bm, bd, visited);
                    let ghost after = key_set(visited@);
                    let ghost f1 = choose|f: nat| spec_open_search(nodes@, *bm, *bd, now, f) == Some((open, after));
                    if open {
                        proof {
                            assert(spec_open_bases(nodes@, *class_node, bases@, i as int, now, f1 + 1) == Some((true, after)));
                            assert(open_bases_gives(nodes@, *class_node, bases@, i as int, now, true, after));
                            let f = choose|f: nat| #[trigger] spec_open_bases(nodes@, *class_node, bases@, 0, start, f) == Some((true, after));
                            assert(spec_open_search(nodes@, *class_node, *class_decl, entry, f + 1) == Some((true, after)));
                        }
                        return true;
                    }
                    proof {
                        assert forall|r: bool, v: Set<ClassKey>|
                            #[trigger] open_bases_gives(nodes@, *class_node, bases@, i + 1, after, r, v) implies open_bases_gives(
                                nodes@,
                                *class_node,
                                bases@,
                                0,
                                start,
                                r,
                                v,
                            ) by {
                            let f2 = choose|f: nat| #[trigger] spec_open_bases(nodes@, *class_node, bases@, i + 1, after, f) == Some((r, v));
                            let g = if f1 > f2 { f1 } else { f2 };
                            lemma_open_fuel(nodes@, *bm, *bd, bd.bases@, 0, now, f1, g);
                            lemma_open_fuel(nodes@, *class_node, *class_decl, bases@, i + 1, after, f2, g);
                            assert(spec_open_bases(nodes@, *class_node, bases@, i as int, now, g + 1) == Some((r, v)));
                            assert(open_bases_gives(nodes@, *class_node, bases@, i as int, now, r, v));
                        }
                    }
                },
            }
        }
        i = i + 1;
    }
    let ghost fin = key_set(visited@);
    proof {
        assert(spec_open_bases(nodes@, *class_node, bases@, i as int, fin, 1) == Some((false, fin)));
        assert(open_bases_gives(nodes@, *class_node, bases@, i as int, fin, false, fin));
        let f = choose|f: nat| #[trigger] spec_open_bases(nodes@, *class_node, bases@, 0, start, f) == Some((false, fin));
        assert(spec_open_search(nodes@, *class_node, *class_decl, entry, f + 1) == Some((false, fin)));
    }
    false
}

} // verus!
