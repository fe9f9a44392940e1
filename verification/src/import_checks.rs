//! Imports of a module that name a target of the same project that does not exist.
use vstd::prelude::*;
use crate::declarations::{Declaration, DeclarationKind, string_views};
use crate::diagnostics::{Diagnostic, DiagnosticView, Severity, spec_diagnostic};
use crate::hierarchy::{ModuleDeclarations, first_index, lemma_first_index, module_keyed};
use crate::semantic_types::names_contain;
use crate::text::{owned, rsplit_once, split_once, str_eq, str_rsplit_once, str_split_once};

verus! {

/// The part of a dotted name before its first dot, or the whole name.
pub open spec fn first_segment(s: Seq<char>) -> Seq<char> {
    match split_once(s, '.') {
        Some((head, _)) => head,
        None => s,
    }
}

/// The first segments of the keys of the project's modules.
pub open spec fn project_roots(nodes: Seq<ModuleDeclarations>) -> Set<Seq<char>> {
    Set::new(|r: Seq<char>| exists|i: int| 0 <= i < nodes.len() && #[trigger] first_segment(nodes[i].module_key@) == r)
}

/// A module declares a top-level name.
pub open spec fn declares_top_level(m: ModuleDeclarations, name: Seq<char>) -> bool {
    exists|j: int|
        0 <= j < m.declarations@.len() && m.declarations@[j].owner is None && #[trigger] m.declarations@[j].name@ == name
}

/// An import target resolves: it is the key of a module, or `module.Symbol` where the first
/// module with that key declares `Symbol` at top level.
pub open spec fn import_resolves(nodes: Seq<ModuleDeclarations>, target: Seq<char>) -> bool {
    (exists|i: int| 0 <= i < nodes.len() && #[trigger] nodes[i].module_key@ == target) || match rsplit_once(
        target,
        '.',
    ) {
        Some((module_key, symbol)) => match first_index(nodes, module_keyed(module_key)) {
            Some(t) => declares_top_level(nodes[t], symbol),
            None => false,
        },
        None => false,
    }
}

/// The errors for the first declarations of a module that import a same-project target that
/// does not resolve.
pub open spec fn spec_unresolved_import_diags(
    nodes: Seq<ModuleDeclarations>,
    node: ModuleDeclarations,
    decls: Seq<Declaration>,
) -> Seq<DiagnosticView>
    decreases decls.len(),
{
    if decls.len() == 0 {
        Seq::empty()
    } else {
        let prev = spec_unresolved_import_diags(nodes, node, decls.drop_last());
        let d = decls.last();
        if d.kind == DeclarationKind::Import && project_roots(nodes).contains(first_segment(d.detail@))
            && !import_resolves(nodes, d.detail@) {
            prev.push(
                spec_diagnostic(
                    Severity::Error,
                    "TPY3001"@,
                    "module `"@ + node.source_path@ + "` imports unresolved same-project target `"@ + d.detail@ + "`"@,
                ),
            )
        } else {
            prev
        }
    }
}

fn segment_before_dot(s: &str) -> (res: String)
    ensures
        res@ == first_segment(s@),
{
    match str_split_once(s, '.') {
        Some((head, _)) => head,
        None => owned(s),
    }
}

fn resolves(nodes: &Vec<ModuleDeclarations>, target: &str) -> (res: bool)
    ensures
        res == import_resolves(nodes@, target@),
{
    let mut i: usize = 0;
    while i < nodes.len()
        invariant
            i <= nodes@.len(),
            forall|j: int| 0 <= j < i ==> #[trigger] nodes@[j].module_key@ != target@,
        decreases nodes@.len() - i,
    {
        if str_eq(&nodes[i].module_key, target) {
            assert(nodes@[i as int].module_key@ == target@);
            return true;
        }
        i = i + 1;
    }
    let (module_key, symbol) = match str_rsplit_once(target, '.') {
        Some(parts) => parts,
        None => return false,
    };
    let ghost p = module_keyed(module_key@);
    proof {
        lemma_first_index(nodes@, p);
    }
    let mut t: usize = 0;
    while t < nodes.len() && !str_eq(&nodes[t].module_key, &module_key)
        invariant
            t <= nodes@.len(),
            p == module_keyed(module_key@),
            forall|j: int| 0 <= j < t ==> !p(#[trigger] nodes@[j]),
        decreases nodes@.len() - t,
    {
        t = t + 1;
    }
    if t == nodes.len() {
        proof {
            if first_index(nodes@, p) is Some {
                let f = first_index(nodes@, p).unwrap();
                assert(p(nodes@[f]));
            }
        }
        return false;
    }
    proof {
        assert(p(nodes@[t as int]));
        if first_index(nodes@, p) != Some(t as int) {
            let f = first_index(nodes@, p).unwrap();
            assert(!p(nodes@[f]));
        }
    }
    let decls = &nodes[t].declarations;
    let mut j: usize = 0;
    while j < decls.len()
        invariant
            j <= decls@.len(),
            t < nodes@.len(),
            decls == nodes@[t as int].declarations,
            rsplit_once(target@, '.') == Some((module_key@, symbol@)),
            first_index(nodes@, module_keyed(module_key@)) == Some(t as int),
            forall|q: int| 0 <= q < j ==> !(decls@[q].owner is None && #[trigger] decls@[q].name@ == symbol@),
        decreases decls@.len() - j,
    {
        if decls[j].owner.is_none() && str_eq(&decls[j].name, &symbol) {
            assert(decls@[j as int].name@ == symbol@);
            return true;
        }
        j = j + 1;
    }
    false
}

/// The errors for the imports of a module whose target lies in the project (its first segment
/// is the first segment of some module's key) but does not resolve.
pub fn unresolved_import_diagnostics(node: &ModuleDeclarations, nodes: &Vec<ModuleDeclarations>) -> (res: Vec<Diagnostic>)
    ensures
        res@.map_values(|d: Diagnostic| d@) == spec_unresolved_import_diags(nodes@, *node, node.declarations@),
{
    let mut roots: Vec<String> = Vec::new();
    let mut i: usize = 0;
    while i < nodes.len()
        invariant
            i <= nodes@.len(),
            forall|r: Seq<char>| #[trigger] string_views(roots@).contains(r) <==> exists|j: int|
                0 <= j < i && first_segment(nodes@[j].module_key@) == r,
        decreases nodes@.len() - i,
    {
        let root = segment_before_dot(&nodes[i].module_key);
        let ghost before = string_views(roots@);
        roots.push(root);
        proof {
            assert(string_views(roots@) =~= before.push(first_segment(nodes@[i as int].module_key@)));
            assert forall|r: Seq<char>| #[trigger] string_views(roots@).contains(r) <==> exists|j: int|
                0 <= j < i + 1 && first_segment(nodes@[j].module_key@) == r by {
                let now = string_views(roots@);
                if now.contains(r) && r != first_segment(nodes@[i as int].module_key@) {
                    let w = choose|w: int| 0 <= w < now.len() && now[w] == r;
                    assert(before[w] == r);
                    assert(before.contains(r));
                }
                if before.contains(r) {
                    let w = choose|w: int| 0 <= w < before.len() && before[w] == r;
                    assert(now[w] == r);
                }
                if r == first_segment(nodes@[i as int].module_key@) {
                    assert(now[before.len() as int] == r);
                }
                if exists|j: int| 0 <= j < i + 1 && first_segment(nodes@[j].module_key@) == r {
                    let j = choose|j: int| 0 <= j < i + 1 && first_segment(nodes@[j].module_key@) == r;
                    if j < i {
                        assert(exists|j2: int| 0 <= j2 < i && first_segment(nodes@[j2].module_key@) == r);
                    }
                }
            }
        }
        i = i + 1;
    }
    proof {
        assert forall|r: Seq<char>| #[trigger] string_views(roots@).contains(r) <==> project_roots(nodes@).contains(r) by {
            if project_roots(nodes@).contains(r) {
                let j = choose|j: int| 0 <= j < nodes@.len() && #[trigger] first_segment(nodes@[j].module_key@) == r;
            }
        }
    }
    let decls = &node.declarations;
    let mut out: Vec<Diagnostic> = Vec::new();
    let mut k: usize = 0;
    assert(decls@.take(0) =~= Seq::<Declaration>::empty());
    assert(out@.map_values(|d: Diagnostic| d@) =~= Seq::<DiagnosticView>::empty());
    while k < decls.len()
        invariant
            k <= decls@.len(),
            decls == node.declarations,
            forall|r: Seq<char>| #[trigger] string_views(roots@).contains(r) <==> project_roots(nodes@).contains(r),
            out@.map_values(|d: Diagnostic| d@) == spec_unresolved_import_diags(nodes@, *node, decls@.take(k as int)),
        decreases decls@.len() - k,
    {
        let d = &decls[k];
        assert(decls@.take(k + 1).drop_last() =~= decls@.take(k as int));
        assert(decls@.take(k + 1).last() == *d);
        if d.kind == DeclarationKind::Import {
            let root = segment_before_dot(&d.detail);
            if names_contain(&roots, &root) && !resolves(nodes, &d.detail) {
                let mut m = owned("module `");
                m.append(&node.source_path);
                m.append("` imports unresolved same-project target `");
                m.append(&d.detail);
                m.append("`");
                proof {
                    reveal_strlit("module `");
                    reveal_strlit("` imports unresolved same-project target `");
                    reveal_strlit("`");
                }
                let ghost before = out@.map_values(|x: Diagnostic| x@);
                let diag = Diagnostic::error("TPY3001", m);
                out.push(diag);
                assert(out@.map_values(|x: Diagnostic| x@) =~= before.push(diag@));
            }
        }
        k = k + 1;
    }
    assert(decls@.take(decls@.len() as int) =~= decls@);
    out
}

} // verus!
