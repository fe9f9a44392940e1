//! Checks of class declarations against their direct bases: `@override` markers, `Final`
//! members and `@final` classes, and abstract members left unimplemented.
use vstd::prelude::*;
use crate::declarations::{
    Declaration, DeclarationKind, DeclarationOwnerKind, abstract_member_index, decl_views, insert_sorted_name,
    lemma_name_order_facts, lemma_rising_unique, name_order, rising, spec_abstract_member_index, string_views,
};
use crate::semantic_types::names_contain;
use crate::sites::CallSite;
use crate::diagnostics::{
    Diagnostic, DiagnosticView, Severity, Span, SpanView, SuggestionApplicability, SuggestionView, spec_diagnostic,
};
use crate::hierarchy::{ModuleDeclarations, first_index, lemma_first_index, resolve_direct_base, spec_base_of};
use crate::text::{owned, str_eq};

verus! {

/// A member declared in the type named `owner`.
pub open spec fn member_of(d: Declaration, owner: Seq<char>) -> bool {
    d.owner matches Some(o) && o.name@ == owner
}

/// Some declaration of `decls` is a member `name` of the type `owner`.
pub open spec fn declares_member(decls: Seq<Declaration>, owner: Seq<char>, name: Seq<char>) -> bool {
    exists|i: int| 0 <= i < decls.len() && member_of(decls[i], owner) && #[trigger] decls[i].name@ == name
}

/// Whether the base named `base` of a class of `node` declares a member named `member`.
pub open spec fn base_declares_member(
    nodes: Seq<ModuleDeclarations>,
    node: ModuleDeclarations,
    base: Seq<char>,
    member: Seq<char>,
) -> bool {
    match spec_base_of(nodes, node, base) {
        Some((bn, bd)) => declares_member(bn.declarations@, bd.name@, member),
        None => false,
    }
}

/// The top-level class of that name and kind that owns a member.
pub open spec fn owner_class(name: Seq<char>, kind: DeclarationOwnerKind) -> spec_fn(Declaration) -> bool {
    |c: Declaration| c.name@ == name && c.owner is None && c.class_kind == Some(kind)
}

/// Whether a member overrides a member of a direct base of its owning class.
pub open spec fn spec_overrides_any(nodes: Seq<ModuleDeclarations>, node: ModuleDeclarations, d: Declaration) -> bool {
    match d.owner {
        Some(o) => match first_index(node.declarations@, owner_class(o.name@, o.kind)) {
            Some(k) => exists|b: int|
                0 <= b < node.declarations@[k].bases@.len() && base_declares_member(
                    nodes,
                    node,
                    #[trigger] node.declarations@[k].bases@[b]@,
                    d.name@,
                ),
            None => false,
        },
        None => false,
    }
}

/// The error for an `@override` declaration that overrides nothing.
pub open spec fn spec_override_message(
    nodes: Seq<ModuleDeclarations>,
    node: ModuleDeclarations,
    d: Declaration,
) -> Option<Seq<char>> {
    if !d.is_override {
        None
    } else {
        match d.owner {
            None => Some(
                "declaration `"@ + d.name@ + "` in module `"@ + node.source_path@
                    + "` is marked with @override but has no base member to override"@,
            ),
            Some(o) => if spec_overrides_any(nodes, node, d) {
                None
            } else {
                Some(
                    "member `"@ + d.name@ + "` in type `"@ + o.name@ + "` in module `"@ + node.source_path@
                        + "` is marked with @override but no direct base member was found"@,
                )
            },
        }
    }
}

/// The `@override` errors of the first declarations of a module.
pub open spec fn spec_override_diagnostics(
    nodes: Seq<ModuleDeclarations>,
    node: ModuleDeclarations,
    decls: Seq<Declaration>,
) -> Seq<DiagnosticView>
    decreases decls.len(),
{
    if decls.len() == 0 {
        Seq::empty()
    } else {
        let prev = spec_override_diagnostics(nodes, node, decls.drop_last());
        match spec_override_message(nodes, node, decls.last()) {
            Some(m) => prev.push(spec_diagnostic(Severity::Error, "TPY4005"@, m)),
            None => prev,
        }
    }
}

fn find_owner_class(decls: &Vec<Declaration>, name: &str, kind: DeclarationOwnerKind) -> (res: Option<usize>)
    ensures
        match res {
            Some(i) => i < decls@.len() && first_index(decls@, owner_class(name@, kind)) == Some(i as int),
            None => first_index(decls@, owner_class(name@, kind)) is None,
        },
{
    let ghost p = owner_class(name@, kind);
    proof {
        lemma_first_index(decls@, p);
    }
    let mut i: usize = 0;
    while i < decls.len()
        invariant
            i <= decls@.len(),
            p == owner_class(name@, kind),
            forall|j: int| 0 <= j < i ==> !p(#[trigger] decls@[j]),
        decreases decls@.len() - i,
    {
        let c = &decls[i];
        if str_eq(&c.name, name) && c.owner.is_none() && c.class_kind == Some(kind) {
            proof {
                assert(p(decls@[i as int]));
                lemma_first_index(decls@, p);
                if first_index(decls@, p) != Some(i as int) {
                    let f = first_index(decls@, p).unwrap();
                    assert(!p(decls@[f]));
                }
            }
            return Some(i);
        }
        assert(!p(decls@[i as int]));
        i = i + 1;
    }
    proof {
        if first_index(decls@, p) is Some {
            let f = first_index(decls@, p).unwrap();
            assert(p(decls@[f]));
        }
    }
    None
}

/// Whether some declaration of `decls` is a member `name` of the type `owner`.
pub fn has_member(decls: &Vec<Declaration>, owner: &str, name: &str) -> (res: bool)
    ensures
        res == declares_member(decls@, owner@, name@),
{
    let mut i: usize = 0;
    while i < decls.len()
        invariant
            i <= decls@.len(),
            forall|j: int| 0 <= j < i ==> !(member_of(decls@[j], owner@) && #[trigger] decls@[j].name@ == name@),
        decreases decls@.len() - i,
    {
        let d = &decls[i];
        let owned_by = match &d.owner {
            Some(o) => str_eq(&o.name, owner),
            None => false,
        };
        if owned_by && str_eq(&d.name, name) {
            assert(member_of(decls@[i as int], owner@) && decls@[i as int].name@ == name@);
            return true;
        }
        i = i + 1;
    }
    false
}

fn overrides_any(nodes: &Vec<ModuleDeclarations>, node: &ModuleDeclarations, d: &Declaration) -> (res: bool)
    ensures
        res == spec_overrides_any(nodes@, *node, *d),
{
    let owner = match &d.owner {
        Some(o) => o,
        None => return false,
    };
    let k = match find_owner_class(&node.declarations, &owner.name, owner.kind) {
        Some(k) => k,
        None => return false,
    };
    let bases = &node.declarations[k].bases;
    let mut b: usize = 0;
    while b < bases.len()
        invariant
            b <= bases@.len(),
            k < node.declarations@.len(),
            bases == node.declarations@[k as int].bases,
            d.owner == Some(*owner),
            first_index(node.declarations@, owner_class(owner.name@, owner.kind)) == Some(k as int),
            forall|q: int| 0 <= q < b ==> !base_declares_member(nodes@, *node, #[trigger] bases@[q]@, d.name@),
        decreases bases@.len() - b,
    {
        let found = match resolve_direct_base(nodes, node, &bases[b]) {
            Some((bn, bd)) => has_member(&bn.declarations, &bd.name, &d.name),
            None => false,
        };
        if found {
            assert(base_declares_member(nodes@, *node, node.declarations@[k as int].bases@[b as int]@, d.name@));
            return true;
        }
        b = b + 1;
    }
    false
}

/// The errors for `@override` declarations of a module that override no member of a direct
/// base of their class.
pub fn override_diagnostics(node: &ModuleDeclarations, nodes: &Vec<ModuleDeclarations>) -> (res: Vec<Diagnostic>)
    ensures
        res@.map_values(|d: Diagnostic| d@) == spec_override_diagnostics(nodes@, *node, node.declarations@),
{
    let decls = &node.declarations;
    let mut out: Vec<Diagnostic> = Vec::new();
    let mut i: usize = 0;
    assert(decls@.take(0) =~= Seq::<Declaration>::empty());
    assert(out@.map_values(|d: Diagnostic| d@) =~= Seq::<DiagnosticView>::empty());
    while i < decls.len()
        invariant
            i <= decls@.len(),
            decls == node.declarations,
            out@.map_values(|d: Diagnostic| d@) == spec_override_diagnostics(nodes@, *node, decls@.take(i as int)),
        decreases decls@.len() - i,
    {
        let d = &decls[i];
        assert(decls@.take(i + 1).drop_last() =~= decls@.take(i as int));
        assert(decls@.take(i + 1).last() == *d);
        let ghost before = out@.map_values(|x: Diagnostic| x@);
        if d.is_override {
            let message = match &d.owner {
                None => {
                    let mut m = owned("declaration `");
                    m.append(&d.name);
                    m.append("` in module `");
                    m.append(&node.source_path);
                    m.append("` is marked with @override but has no base member to override");
                    Some(m)
                },
                Some(o) => {
                    if overrides_any(nodes, node, d) {
                        None
                    } else {
                        let mut m = owned("member `");
                        m.append(&d.name);
                        m.append("` in type `");
                        m.append(&o.name);
                        m.append("` in module `");
                        m.append(&node.source_path);
                        m.append("` is marked with @override but no direct base member was found");
                        Some(m)
                    }
                },
            };
            proof {
                reveal_strlit("declaration `");
                reveal_strlit("` in module `");
                reveal_strlit("` is marked with @override but has no base member to override");
                reveal_strlit("member `");
                reveal_strlit("` in type `");
                reveal_strlit("` is marked with @override but no direct base member was found");
            }
            match message {
                Some(m) => {
                    assert(spec_override_message(nodes@, *node, *d) == Some(m@));
                    out.push(Diagnostic::error("TPY4005", m));
                    assert(out@.map_values(|x: Diagnostic| x@) =~= before.push(
                        spec_diagnostic(Severity::Error, "TPY4005"@, m@),
                    ));
                },
                None => {
                    assert(spec_override_message(nodes@, *node, *d) is None);
                },
            }
        }
        i = i + 1;
    }
    assert(decls@.take(decls@.len() as int) =~= decls@);
    out
}

/// Where `@override` would go above the member `member` of the type `owner`, as found in the
/// module's text.
#[derive(Debug)]
pub struct OverrideInsertion {
    pub owner: String,
    pub member: String,
    pub span: Span,
}

/// An insertion point for the member `member` of the type `owner`.
pub open spec fn insertion_at(owner: Seq<char>, member: Seq<char>) -> spec_fn(OverrideInsertion) -> bool {
    |x: OverrideInsertion| x.owner@ == owner && x.member@ == member
}

/// The span of the first insertion point listed for a member.
pub open spec fn spec_insertion_span(ins: Seq<OverrideInsertion>, owner: Seq<char>, member: Seq<char>) -> Option<
    SpanView,
> {
    match first_index(ins, insertion_at(owner, member)) {
        Some(i) => Some(ins[i].span@),
        None => None,
    }
}

/// The error for a method that overrides a member of a direct base without `@override`, with
/// the edit that inserts the marker where its place is known.
pub open spec fn spec_missing_override_diagnostic(
    nodes: Seq<ModuleDeclarations>,
    node: ModuleDeclarations,
    ins: Seq<OverrideInsertion>,
    d: Declaration,
) -> Option<DiagnosticView> {
    match d.owner {
        Some(o) => if d.kind == DeclarationKind::Function && !d.is_override && spec_overrides_any(nodes, node, d) {
            let base = spec_diagnostic(
                Severity::Error,
                "TPY4005"@,
                "member `"@ + d.name@ + "` in type `"@ + o.name@ + "` in module `"@ + node.source_path@
                    + "` overrides a direct base member but is missing @override"@,
            );
            Some(
                match spec_insertion_span(ins, o.name@, d.name@) {
                    Some(sp) => DiagnosticView {
                        suggestions: base.suggestions.push(
                            SuggestionView {
                                message: "Insert `@override` above the overriding method"@,
                                span: sp,
                                replacement: "@override\n"@,
                                applicability: SuggestionApplicability::MachineApplicable,
                            },
                        ),
                        ..base
                    },
                    None => base,
                },
            )
        } else {
            None
        },
        None => None,
    }
}

/// The missing-`@override` errors of the first declarations of a module.
pub open spec fn spec_missing_override_diagnostics(
    nodes: Seq<ModuleDeclarations>,
    node: ModuleDeclarations,
    ins: Seq<OverrideInsertion>,
    decls: Seq<Declaration>,
) -> Seq<DiagnosticView>
    decreases decls.len(),
{
    if decls.len() == 0 {
        Seq::empty()
    } else {
        let prev = spec_missing_override_diagnostics(nodes, node, ins, decls.drop_last());
        match spec_missing_override_diagnostic(nodes, node, ins, decls.last()) {
            Some(x) => prev.push(x),
            None => prev,
        }
    }
}

fn insertion_span(ins: &Vec<OverrideInsertion>, owner: &str, member: &str) -> (res: Option<Span>)
    ensures
        match res {
            Some(s) => spec_insertion_span(ins@, owner@, member@) == Some(s@),
            None => spec_insertion_span(ins@, owner@, member@) is None,
        },
{
    let ghost p = insertion_at(owner@, member@);
    proof {
        lemma_first_index(ins@, p);
    }
    let mut i: usize = 0;
    while i < ins.len()
        invariant
            i <= ins@.len(),
            p == insertion_at(owner@, member@),
            forall|j: int| 0 <= j < i ==> !p(#[trigger] ins@[j]),
        decreases ins@.len() - i,
    {
        let x = &ins[i];
        if str_eq(&x.owner, owner) && str_eq(&x.member, member) {
            proof {
                assert(p(ins@[i as int]));
                lemma_first_index(ins@, p);
                if first_index(ins@, p) != Some(i as int) {
                    let f = first_index(ins@, p).unwrap();
                    assert(!p(ins@[f]));
                }
            }
            return Some(x.span.duplicate());
        }
        assert(!p(ins@[i as int]));
        i = i + 1;
    }
    proof {
        if first_index(ins@, p) is Some {
            let f = first_index(ins@, p).unwrap();
            assert(p(ins@[f]));
        }
    }
    None
}

/// The errors for methods that override a member of a direct base of their class without
/// `@override`. Where `insertions` gives the place of the member in the module's text, the
/// error carries the edit that inserts the marker there.
pub fn missing_override_diagnostics(
    node: &ModuleDeclarations,
    nodes: &Vec<ModuleDeclarations>,
    insertions: &Vec<OverrideInsertion>,
) -> (res: Vec<Diagnostic>)
    ensures
        res@.map_values(|d: Diagnostic| d@) == spec_missing_override_diagnostics(
            nodes@,
            *node,
            insertions@,
            node.declarations@,
        ),
{
    let decls = &node.declarations;
    let mut out: Vec<Diagnostic> = Vec::new();
    let mut i: usize = 0;
    assert(decls@.take(0) =~= Seq::<Declaration>::empty());
    assert(out@.map_values(|d: Diagnostic| d@) =~= Seq::<DiagnosticView>::empty());
    proof {
        reveal_strlit("member `");
        reveal_strlit("` in type `");
        reveal_strlit("` in module `");
        reveal_strlit("` overrides a direct base member but is missing @override");
    }
    while i < decls.len()
        invariant
            i <= decls@.len(),
            decls == node.declarations,
            out@.map_values(|d: Diagnostic| d@) == spec_missing_override_diagnostics(
                nodes@,
                *node,
                insertions@,
                decls@.take(i as int),
            ),
        decreases decls@.len() - i,
    {
        let d = &decls[i];
        assert(decls@.take(i + 1).drop_last() =~= decls@.take(i as int));
        assert(decls@.take(i + 1).last() == *d);
        let ghost before = out@.map_values(|x: Diagnostic| x@);
        if let Some(o) = &d.owner {
            if d.kind == DeclarationKind::Function && !d.is_override && overrides_any(nodes, node, d) {
                let mut m = owned("member `");
                m.append(&d.name);
                m.append("` in type `");
                m.append(&o.name);
                m.append("` in module `");
                m.append(&node.source_path);
                m.append("` overrides a direct base member but is missing @override");
                let diag = Diagnostic::error("TPY4005", m);
                let full = match insertion_span(insertions, &o.name, &d.name) {
                    Some(sp) => diag.with_suggestion(
                        "Insert `@override` above the overriding method",
                        sp,
                        owned("@override\n"),
                        SuggestionApplicability::MachineApplicable,
                    ),
                    None => diag,
                };
                out.push(full);
                assert(out@.map_values(|x: Diagnostic| x@) =~= before.push(full@));
            }
        }
        i = i + 1;
    }
    assert(decls@.take(decls@.len() as int) =~= decls@);
    out
}

/// The diagnostics taken by their views.
pub open spec fn diags_view(s: Seq<Diagnostic>) -> Seq<DiagnosticView> {
    s.map_values(|d: Diagnostic| d@)
}

/// A member `name` of the base class `base_name` in `decls` that is final: a `Final` binding,
/// or, for `decorator`, a member marked `@final`.
pub open spec fn base_member_is_final(decls: Seq<Declaration>, base_name: Seq<char>, name: Seq<char>, decorator: bool) -> bool {
    exists|i: int|
        0 <= i < decls.len() && member_of(decls[i], base_name) && #[trigger] decls[i].name@ == name && (if decorator {
            decls[i].is_final_decorator
        } else {
            decls[i].is_final
        })
}

/// The message for a member of `class_name` that overrides a final member of `base_name`.
pub open spec fn spec_final_member_message(
    path: Seq<char>,
    class_name: Seq<char>,
    member: Seq<char>,
    base_name: Seq<char>,
    decorator: bool,
) -> DiagnosticView {
    if decorator {
        spec_diagnostic(
            Severity::Error,
            "TPY4005"@,
            "type `"@ + class_name + "` in module `"@ + path + "` overrides final member `"@ + member + "` from base `"@
                + base_name + "`"@,
        )
    } else {
        spec_diagnostic(
            Severity::Error,
            "TPY4006"@,
            "type `"@ + class_name + "` in module `"@ + path + "` overrides Final member `"@ + member + "` from base `"@
                + base_name + "`"@,
        )
    }
}

/// The errors for the members among `members` of `class_name` that override a final member of
/// the base `base_name` declared in `base_decls`.
pub open spec fn spec_final_member_diags(
    path: Seq<char>,
    class_name: Seq<char>,
    members: Seq<Declaration>,
    base_decls: Seq<Declaration>,
    base_name: Seq<char>,
    decorator: bool,
) -> Seq<DiagnosticView>
    decreases members.len(),
{
    if members.len() == 0 {
        Seq::empty()
    } else {
        let prev = spec_final_member_diags(path, class_name, members.drop_last(), base_decls, base_name, decorator);
        let m = members.last();
        if member_of(m, class_name) && base_member_is_final(base_decls, base_name, m.name@, decorator) {
            prev.push(spec_final_member_message(path, class_name, m.name@, base_name, decorator))
        } else {
            prev
        }
    }
}

/// The final-member errors of a class for the first of its bases: for `decorator`, also the
/// error for subclassing a `@final` class.
pub open spec fn spec_final_base_diags(
    nodes: Seq<ModuleDeclarations>,
    node: ModuleDeclarations,
    class: Declaration,
    bases: Seq<String>,
    decorator: bool,
) -> Seq<DiagnosticView>
    decreases bases.len(),
{
    if bases.len() == 0 {
        Seq::empty()
    } else {
        let prev = spec_final_base_diags(nodes, node, class, bases.drop_last(), decorator);
        match spec_base_of(nodes, node, bases.last()@) {
            Some((bn, bd)) => {
                let own = if decorator && bd.is_final_decorator {
                    seq![
                        spec_diagnostic(
                            Severity::Error,
                            "TPY4005"@,
                            "type `"@ + class.name@ + "` in module `"@ + node.source_path@ + "` subclasses final class `"@
                                + bd.name@ + "`"@,
                        ),
                    ]
                } else {
                    Seq::empty()
                };
                prev + own + spec_final_member_diags(
                    node.source_path@,
                    class.name@,
                    node.declarations@,
                    bn.declarations@,
                    bd.name@,
                    decorator,
                )
            },
            None => prev,
        }
    }
}

/// The final-member errors of the first classes of a module.
pub open spec fn spec_final_class_diags(
    nodes: Seq<ModuleDeclarations>,
    node: ModuleDeclarations,
    decls: Seq<Declaration>,
    decorator: bool,
) -> Seq<DiagnosticView>
    decreases decls.len(),
{
    if decls.len() == 0 {
        Seq::empty()
    } else {
        let prev = spec_final_class_diags(nodes, node, decls.drop_last(), decorator);
        let c = decls.last();
        if c.kind == DeclarationKind::Class && c.owner is None {
            prev + spec_final_base_diags(nodes, node, c, c.bases@, decorator)
        } else {
            prev
        }
    }
}

fn base_member_final(decls: &Vec<Declaration>, base_name: &str, name: &str, decorator: bool) -> (res: bool)
    ensures
        res == base_member_is_final(decls@, base_name@, name@, decorator),
{
    let mut i: usize = 0;
    while i < decls.len()
        invariant
            i <= decls@.len(),
            forall|j: int|
                0 <= j < i ==> !(member_of(decls@[j], base_name@) && #[trigger] decls@[j].name@ == name@ && (if decorator {
                    decls@[j].is_final_decorator
                } else {
                    decls@[j].is_final
                })),
        decreases decls@.len() - i,
    {
        let d = &decls[i];
        let owned_by = match &d.owner {
            Some(o) => str_eq(&o.name, base_name),
            None => false,
        };
        let flag = if decorator {
            d.is_final_decorator
        } else {
            d.is_final
        };
        if owned_by && str_eq(&d.name, name) && flag {
            assert(decls@[i as int].name@ == name@);
            return true;
        }
        i = i + 1;
    }
    false
}

fn final_member_message(path: &str, class_name: &str, member: &str, base_name: &str, decorator: bool) -> (res: Diagnostic)
    ensures
        res@ == spec_final_member_message(path@, class_name@, member@, base_name@, decorator),
{
    let mut m = owned("type `");
    m.append(class_name);
    m.append("` in module `");
    m.append(path);
    if decorator {
        m.append("` overrides final member `");
    } else {
        m.append("` overrides Final member `");
    }
    m.append(member);
    m.append("` from base `");
    m.append(base_name);
    m.append("`");
    proof {
        reveal_strlit("type `");
        reveal_strlit("` in module `");
        reveal_strlit("` overrides final member `");
        reveal_strlit("` overrides Final member `");
        reveal_strlit("` from base `");
        reveal_strlit("`");
    }
    if decorator {
        Diagnostic::error("TPY4005", m)
    } else {
        Diagnostic::error("TPY4006", m)
    }
}

fn final_member_diagnostics(
    path: &str,
    class_name: &str,
    members: &Vec<Declaration>,
    base_decls: &Vec<Declaration>,
    base_name: &str,
    decorator: bool,
) -> (res: Vec<Diagnostic>)
    ensures
        diags_view(res@) == spec_final_member_diags(path@, class_name@, members@, base_decls@, base_name@, decorator),
{
    let mut out: Vec<Diagnostic> = Vec::new();
    let mut i: usize = 0;
    assert(members@.take(0) =~= Seq::<Declaration>::empty());
    assert(diags_view(out@) =~= Seq::<DiagnosticView>::empty());
    while i < members.len()
        invariant
            i <= members@.len(),
            diags_view(out@) == spec_final_member_diags(
                path@,
                class_name@,
                members@.take(i as int),
                base_decls@,
                base_name@,
                decorator,
            ),
        decreases members@.len() - i,
    {
        let m = &members[i];
        assert(members@.take(i + 1).drop_last() =~= members@.take(i as int));
        assert(members@.take(i + 1).last() == *m);
        let owned_by = match &m.owner {
            Some(o) => str_eq(&o.name, class_name),
            None => false,
        };
        if owned_by && base_member_final(base_decls, base_name, &m.name, decorator) {
            let ghost before = diags_view(out@);
            let d = final_member_message(path, class_name, &m.name, base_name, decorator);
            out.push(d);
            assert(diags_view(out@) =~= before.push(d@));
        }
        i = i + 1;
    }
    assert(members@.take(members@.len() as int) =~= members@);
    out
}

fn final_base_diagnostics(
    nodes: &Vec<ModuleDeclarations>,
    node: &ModuleDeclarations,
    class: &Declaration,
    decorator: bool,
) -> (res: Vec<Diagnostic>)
    ensures
        diags_view(res@) == spec_final_base_diags(nodes@, *node, *class, class.bases@, decorator),
{
    let bases = &class.bases;
    let mut out: Vec<Diagnostic> = Vec::new();
    let mut b: usize = 0;
    assert(bases@.take(0) =~= Seq::<String>::empty());
    assert(diags_view(out@) =~= Seq::<DiagnosticView>::empty());
    while b < bases.len()
        invariant
            b <= bases@.len(),
            bases == class.bases,
            diags_view(out@) == spec_final_base_diags(nodes@, *node, *class, bases@.take(b as int), decorator),
        decreases bases@.len() - b,
    {
        assert(bases@.take(b + 1).drop_last() =~= bases@.take(b as int));
        assert(bases@.take(b + 1).last() == bases@[b as int]);
        if let Some((bn, bd)) = resolve_direct_base(nodes, node, &bases[b]) {
            let ghost before = diags_view(out@);
            let ghost own: Seq<DiagnosticView> = Seq::empty();
            if decorator && bd.is_final_decorator {
                let mut m = owned("type `");
                m.append(&class.name);
                m.append("` in module `");
                m.append(&node.source_path);
                m.append("` subclasses final class `");
                m.append(&bd.name);
                m.append("`");
                proof {
                    reveal_strlit("type `");
                    reveal_strlit("` in module `");
                    reveal_strlit("` subclasses final class `");
                    reveal_strlit("`");
                }
                let d = Diagnostic::error("TPY4005", m);
                out.push(d);
                proof {
                    own = seq![d@];
                }
            }
            let ghost mid = diags_view(out@);
            assert(mid =~= before + own);
            let mut rest = final_member_diagnostics(
                &node.source_path,
                &class.name,
                &node.declarations,
                &bn.declarations,
                &bd.name,
                decorator,
            );
            let ghost rv = diags_view(rest@);
            out.append(&mut rest);
            assert(diags_view(out@) =~= mid + rv);
        }
        b = b + 1;
    }
    assert(bases@.take(bases@.len() as int) =~= bases@);
    out
}

fn final_class_diagnostics(node: &ModuleDeclarations, nodes: &Vec<ModuleDeclarations>, decorator: bool) -> (res: Vec<
    Diagnostic,
>)
    ensures
        diags_view(res@) == spec_final_class_diags(nodes@, *node, node.declarations@, decorator),
{
    let decls = &node.declarations;
    let mut out: Vec<Diagnostic> = Vec::new();
    let mut i: usize = 0;
    assert(decls@.take(0) =~= Seq::<Declaration>::empty());
    assert(diags_view(out@) =~= Seq::<DiagnosticView>::empty());
    while i < decls.len()
        invariant
            i <= decls@.len(),
            decls == node.declarations,
            diags_view(out@) == spec_final_class_diags(nodes@, *node, decls@.take(i as int), decorator),
        decreases decls@.len() - i,
    {
        let c = &decls[i];
        assert(decls@.take(i + 1).drop_last() =~= decls@.take(i as int));
        assert(decls@.take(i + 1).last() == *c);
        if c.kind == DeclarationKind::Class && c.owner.is_none() {
            let ghost before = diags_view(out@);
            let mut more = final_base_diagnostics(nodes, node, c, decorator);
            let ghost mv = diags_view(more@);
            out.append(&mut more);
            assert(diags_view(out@) =~= before + mv);
        }
        i = i + 1;
    }
    assert(decls@.take(decls@.len() as int) =~= decls@);
    out
}

/// The errors for members of a module's classes that override a `Final` member of a direct
/// base.
pub fn final_override_diagnostics(node: &ModuleDeclarations, nodes: &Vec<ModuleDeclarations>) -> (res: Vec<Diagnostic>)
    ensures
        diags_view(res@) == spec_final_class_diags(nodes@, *node, node.declarations@, false),
{
    final_class_diagnostics(node, nodes, false)
}

/// The errors for classes of a module that subclass a `@final` class or override one of its
/// `@final` members.
pub fn final_decorator_diagnostics(node: &ModuleDeclarations, nodes: &Vec<ModuleDeclarations>) -> (res: Vec<Diagnostic>)
    ensures
        diags_view(res@) == spec_final_class_diags(nodes@, *node, node.declarations@, true),
{
    final_class_diagnostics(node, nodes, true)
}

/// The abstract members of the type `owner` among `decls`.
pub open spec fn abstract_names(decls: Seq<Declaration>, owner: Seq<char>) -> Set<Seq<char>> {
    Set::new(|n: Seq<char>| spec_abstract_member_index(decl_views(decls)).contains_key((Some(owner), n)))
}

/// The kind under which an abstract member of `owner` is recorded: that of its last abstract
/// declaration.
pub open spec fn abstract_kind(decls: Seq<Declaration>, owner: Seq<char>, name: Seq<char>) -> DeclarationKind {
    spec_abstract_member_index(decl_views(decls))[(Some(owner), name)]
}

/// The abstract members of the type `owner` among `decls`, in increasing order.
pub open spec fn sorted_abstract_names(decls: Seq<Declaration>, owner: Seq<char>) -> Seq<Seq<char>> {
    choose|ns: Seq<Seq<char>>|
        rising(ns, name_order()) && forall|n: Seq<char>| #[trigger] ns.contains(n) <==> abstract_names(decls, owner).contains(n)
}

/// The type `class_name` implements `member` concretely with the given kind.
pub open spec fn implemented(decls: Seq<Declaration>, class_name: Seq<char>, member: Seq<char>, kind: DeclarationKind) -> bool {
    exists|i: int|
        0 <= i < decls.len() && member_of(decls[i], class_name) && #[trigger] decls[i].name@ == member && decls[i].kind
            == kind && !decls[i].is_abstract_method
}

/// The type `class_name` declares an abstract method of its own.
pub open spec fn own_abstract(decls: Seq<Declaration>, class_name: Seq<char>) -> bool {
    exists|i: int| 0 <= i < decls.len() && member_of(#[trigger] decls[i], class_name) && decls[i].is_abstract_method
}

proof fn lemma_abstract_index_keys(decls: Seq<Declaration>, owner: Seq<char>, name: Seq<char>)
    ensures
        spec_abstract_member_index(decl_views(decls)).contains_key((Some(owner), name)) <==> exists|i: int|
            0 <= i < decls.len() && member_of(decls[i], owner) && decls[i].is_abstract_method && #[trigger] decls[i].name@
                == name,
    decreases decls.len(),
{
    if decls.len() > 0 {
        lemma_abstract_index_keys(decls.drop_last(), owner, name);
        assert(decl_views(decls).drop_last() =~= decl_views(decls.drop_last()));
        assert(decl_views(decls).last() == decls.last()@);
        assert forall|i: int| 0 <= i < decls.len() - 1 implies #[trigger] decls.drop_last()[i] == decls[i] by {}
        if exists|i: int|
            0 <= i < decls.len() && member_of(decls[i], owner) && decls[i].is_abstract_method && #[trigger] decls[i].name@
                == name {
            let i = choose|i: int|
                0 <= i < decls.len() && member_of(decls[i], owner) && decls[i].is_abstract_method && #[trigger] decls[i].name@
                    == name;
            if i < decls.len() - 1 {
                assert(decls.drop_last()[i].name@ == name);
            }
        }
        if spec_abstract_member_index(decl_views(decls.drop_last())).contains_key((Some(owner), name)) {
            let i = choose|i: int|
                0 <= i < decls.len() - 1 && member_of(decls.drop_last()[i], owner) && decls.drop_last()[i].is_abstract_method
                    && #[trigger] decls.drop_last()[i].name@ == name;
            assert(decls[i].name@ == name);
        }
    }
}

fn abstract_member_names(decls: &Vec<Declaration>, owner: &str) -> (res: Vec<String>)
    ensures
        string_views(res@) == sorted_abstract_names(decls@, owner@),
        forall|n: Seq<char>| #[trigger] string_views(res@).contains(n) <==> abstract_names(decls@, owner@).contains(n),
{
    let mut names: Vec<String> = Vec::new();
    let mut i: usize = 0;
    while i < decls.len()
        invariant
            i <= decls@.len(),
            rising(string_views(names@), name_order()),
            forall|n: Seq<char>| #[trigger] string_views(names@).contains(n) <==> exists|j: int|
                0 <= j < i && member_of(decls@[j], owner@) && decls@[j].is_abstract_method && decls@[j].name@ == n,
        decreases decls@.len() - i,
    {
        let d = &decls[i];
        let owned_by = match &d.owner {
            Some(o) => str_eq(&o.name, owner),
            None => false,
        };
        if owned_by && d.is_abstract_method {
            insert_sorted_name(&mut names, &d.name);
        }
        proof {
            assert forall|n: Seq<char>| #[trigger] string_views(names@).contains(n) <==> exists|j: int|
                0 <= j < i + 1 && member_of(decls@[j], owner@) && decls@[j].is_abstract_method && decls@[j].name@ == n by {
                if exists|j: int|
                    0 <= j < i + 1 && member_of(decls@[j], owner@) && decls@[j].is_abstract_method && decls@[j].name@ == n {
                    let j = choose|j: int|
                        0 <= j < i + 1 && member_of(decls@[j], owner@) && decls@[j].is_abstract_method && decls@[j].name@
                            == n;
                    if j < i {
                        assert(exists|j2: int|
                            0 <= j2 < i && member_of(decls@[j2], owner@) && decls@[j2].is_abstract_method && decls@[j2].name@
                                == n);
                    }
                }
            }
        }
        i = i + 1;
    }
    proof {
        let ns = string_views(names@);
        assert forall|n: Seq<char>| #[trigger] ns.contains(n) <==> abstract_names(decls@, owner@).contains(n) by {
            lemma_abstract_index_keys(decls@, owner@, n);
        }
        lemma_name_order_facts();
        let target = sorted_abstract_names(decls@, owner@);
        assert(rising(target, name_order()) && forall|n: Seq<char>| #[trigger] target.contains(n)
            <==> abstract_names(decls@, owner@).contains(n)) by {
            assert(rising(ns, name_order()) && forall|n: Seq<char>| #[trigger] ns.contains(n)
                <==> abstract_names(decls@, owner@).contains(n));
        }
        lemma_rising_unique(ns, target, name_order());
    }
    names
}

fn is_implemented(decls: &Vec<Declaration>, class_name: &str, member: &str, kind: DeclarationKind) -> (res: bool)
    ensures
        res == implemented(decls@, class_name@, member@, kind),
{
    let mut i: usize = 0;
    while i < decls.len()
        invariant
            i <= decls@.len(),
            forall|j: int|
                0 <= j < i ==> !(member_of(decls@[j], class_name@) && #[trigger] decls@[j].name@ == member@ && decls@[j].kind
                    == kind && !decls@[j].is_abstract_method),
        decreases decls@.len() - i,
    {
        let d = &decls[i];
        let owned_by = match &d.owner {
            Some(o) => str_eq(&o.name, class_name),
            None => false,
        };
        if owned_by && str_eq(&d.name, member) && d.kind == kind && !d.is_abstract_method {
            assert(decls@[i as int].name@ == member@);
            return true;
        }
        i = i + 1;
    }
    false
}

fn has_own_abstract(decls: &Vec<Declaration>, class_name: &str) -> (res: bool)
    ensures
        res == own_abstract(decls@, class_name@),
{
    let mut i: usize = 0;
    while i < decls.len()
        invariant
            i <= decls@.len(),
            forall|j: int| 0 <= j < i ==> !(member_of(#[trigger] decls@[j], class_name@) && decls@[j].is_abstract_method),
        decreases decls@.len() - i,
    {
        let d = &decls[i];
        let owned_by = match &d.owner {
            Some(o) => str_eq(&o.name, class_name),
            None => false,
        };
        if owned_by && d.is_abstract_method {
            assert(member_of(decls@[i as int], class_name@));
            return true;
        }
        i = i + 1;
    }
    false
}

/// The message for an abstract member of `base_name` that `class_name` leaves unimplemented.
pub open spec fn spec_missing_abstract_message(path: Seq<char>, class_name: Seq<char>, member: Seq<char>, base_name: Seq<char>) -> DiagnosticView {
    spec_diagnostic(
        Severity::Error,
        "TPY4008"@,
        "type `"@ + class_name + "` in module `"@ + path + "` does not implement abstract member `"@ + member
            + "` from `"@ + base_name + "`"@,
    )
}

/// The errors for the abstract members `names` of the base `base_name` (declared in
/// `base_decls`) that `class_name` does not implement.
pub open spec fn spec_missing_abstract_diags(
    path: Seq<char>,
    class_name: Seq<char>,
    decls: Seq<Declaration>,
    base_decls: Seq<Declaration>,
    base_name: Seq<char>,
    names: Seq<Seq<char>>,
) -> Seq<DiagnosticView>
    decreases names.len(),
{
    if names.len() == 0 {
        Seq::empty()
    } else {
        let prev = spec_missing_abstract_diags(path, class_name, decls, base_decls, base_name, names.drop_last());
        let n = names.last();
        if implemented(decls, class_name, n, abstract_kind(base_decls, base_name, n)) {
            prev
        } else {
            prev.push(spec_missing_abstract_message(path, class_name, n, base_name))
        }
    }
}

/// The unimplemented-abstract-member errors of a concrete class for the first of its bases.
pub open spec fn spec_abstract_base_diags(
    nodes: Seq<ModuleDeclarations>,
    node: ModuleDeclarations,
    class: Declaration,
    bases: Seq<String>,
) -> Seq<DiagnosticView>
    decreases bases.len(),
{
    if bases.len() == 0 {
        Seq::empty()
    } else {
        let prev = spec_abstract_base_diags(nodes, node, class, bases.drop_last());
        match spec_base_of(nodes, node, bases.last()@) {
            Some((bn, bd)) => prev + spec_missing_abstract_diags(
                node.source_path@,
                class.name@,
                node.declarations@,
                bn.declarations@,
                bd.name@,
                sorted_abstract_names(bn.declarations@, bd.name@),
            ),
            None => prev,
        }
    }
}

/// The unimplemented-abstract-member errors of the first classes of a module: plain classes
/// without abstract methods of their own.
pub open spec fn spec_abstract_member_diags(
    nodes: Seq<ModuleDeclarations>,
    node: ModuleDeclarations,
    decls: Seq<Declaration>,
) -> Seq<DiagnosticView>
    decreases decls.len(),
{
    if decls.len() == 0 {
        Seq::empty()
    } else {
        let prev = spec_abstract_member_diags(nodes, node, decls.drop_last());
        let c = decls.last();
        if c.kind == DeclarationKind::Class && c.owner is None && c.class_kind == Some(DeclarationOwnerKind::Class)
            && !own_abstract(node.declarations@, c.name@) {
            prev + spec_abstract_base_diags(nodes, node, c, c.bases@)
        } else {
            prev
        }
    }
}

fn missing_abstract_diagnostics(
    path: &str,
    class_name: &str,
    decls: &Vec<Declaration>,
    base_decls: &Vec<Declaration>,
    base_name: &str,
) -> (res: Vec<Diagnostic>)
    ensures
        diags_view(res@) == spec_missing_abstract_diags(
            path@,
            class_name@,
            decls@,
            base_decls@,
            base_name@,
            sorted_abstract_names(base_decls@, base_name@),
        ),
{
    let names = abstract_member_names(base_decls, base_name);
    let index = abstract_member_index(base_decls);
    let ghost nv = string_views(names@);
    let owner = Some(owned(base_name));
    let mut out: Vec<Diagnostic> = Vec::new();
    let mut i: usize = 0;
    assert(nv.take(0) =~= Seq::<Seq<char>>::empty());
    assert(diags_view(out@) =~= Seq::<DiagnosticView>::empty());
    while i < names.len()
        invariant
            i <= names@.len(),
            nv == string_views(names@),
            nv == sorted_abstract_names(base_decls@, base_name@),
            forall|n: Seq<char>| #[trigger] nv.contains(n) <==> abstract_names(base_decls@, base_name@).contains(n),
            index.wf(),
            index@ == spec_abstract_member_index(decl_views(base_decls@)),
            crate::effect_summary::opt_view(owner) == Some(base_name@),
            diags_view(out@) == spec_missing_abstract_diags(
                path@,
                class_name@,
                decls@,
                base_decls@,
                base_name@,
                nv.take(i as int),
            ),
        decreases names@.len() - i,
    {
        let name = &names[i];
        assert(nv.take(i + 1).drop_last() =~= nv.take(i as int));
        assert(nv.take(i + 1).last() == name@);
        assert(nv.contains(name@)) by {
            assert(nv[i as int] == name@);
        }
        assert(abstract_names(base_decls@, base_name@).contains(name@));
        let kind = match index.get(&owner, name) {
            Some(k) => *k,
            None => DeclarationKind::Class,
        };
        assert(kind == abstract_kind(base_decls@, base_name@, name@));
        if !is_implemented(decls, class_name, name, kind) {
            let mut m = owned("type `");
            m.append(class_name);
            m.append("` in module `");
            m.append(path);
            m.append("` does not implement abstract member `");
            m.append(name);
            m.append("` from `");
            m.append(base_name);
            m.append("`");
            proof {
                reveal_strlit("type `");
                reveal_strlit("` in module `");
                reveal_strlit("` does not implement abstract member `");
                reveal_strlit("` from `");
                reveal_strlit("`");
            }
            let ghost before = diags_view(out@);
            let d = Diagnostic::error("TPY4008", m);
            out.push(d);
            assert(diags_view(out@) =~= before.push(d@));
        }
        i = i + 1;
    }
    assert(nv.take(names@.len() as int) =~= nv);
    out
}

fn abstract_base_diagnostics(nodes: &Vec<ModuleDeclarations>, node: &ModuleDeclarations, class: &Declaration) -> (res:
    Vec<Diagnostic>)
    ensures
        diags_view(res@) == spec_abstract_base_diags(nodes@, *node, *class, class.bases@),
{
    let bases = &class.bases;
    let mut out: Vec<Diagnostic> = Vec::new();
    let mut b: usize = 0;
    assert(bases@.take(0) =~= Seq::<String>::empty());
    assert(diags_view(out@) =~= Seq::<DiagnosticView>::empty());
    while b < bases.len()
        invariant
            b <= bases@.len(),
            bases == class.bases,
            diags_view(out@) == spec_abstract_base_diags(nodes@, *node, *class, bases@.take(b as int)),
        decreases bases@.len() - b,
    {
        assert(bases@.take(b + 1).drop_last() =~= bases@.take(b as int));
        assert(bases@.take(b + 1).last() == bases@[b as int]);
        if let Some((bn, bd)) = resolve_direct_base(nodes, node, &bases[b]) {
            let ghost before = diags_view(out@);
            let mut more = missing_abstract_diagnostics(
                &node.source_path,
                &class.name,
                &node.declarations,
                &bn.declarations,
                &bd.name,
            );
            let ghost mv = diags_view(more@);
            out.append(&mut more);
            assert(diags_view(out@) =~= before + mv);
        }
        b = b + 1;
    }
    assert(bases@.take(bases@.len() as int) =~= bases@);
    out
}

/// The errors for plain classes of a module that leave an abstract member of a direct base
/// unimplemented; classes with abstract methods of their own are abstract and not checked.
pub fn abstract_member_diagnostics(node: &ModuleDeclarations, nodes: &Vec<ModuleDeclarations>) -> (res: Vec<Diagnostic>)
    ensures
        diags_view(res@) == spec_abstract_member_diags(nodes@, *node, node.declarations@),
{
    let decls = &node.declarations;
    let mut out: Vec<Diagnostic> = Vec::new();
    let mut i: usize = 0;
    assert(decls@.take(0) =~= Seq::<Declaration>::empty());
    assert(diags_view(out@) =~= Seq::<DiagnosticView>::empty());
    while i < decls.len()
        invariant
            i <= decls@.len(),
            decls == node.declarations,
            diags_view(out@) == spec_abstract_member_diags(nodes@, *node, decls@.take(i as int)),
        decreases decls@.len() - i,
    {
        let c = &decls[i];
        assert(decls@.take(i + 1).drop_last() =~= decls@.take(i as int));
        assert(decls@.take(i + 1).last() == *c);
        if c.kind == DeclarationKind::Class && c.owner.is_none() && c.class_kind == Some(DeclarationOwnerKind::Class)
            && !has_own_abstract(decls, &c.name) {
            let ghost before = diags_view(out@);
            let mut more = abstract_base_diagnostics(nodes, node, c);
            let ghost mv = diags_view(more@);
            out.append(&mut more);
            assert(diags_view(out@) =~= before + mv);
        }
        i = i + 1;
    }
    assert(decls@.take(decls@.len() as int) =~= decls@);
    out
}

/// The base `base` of the class `c` of module `m` has an abstract member that `c` does not
/// implement.
pub open spec fn base_leaves_abstract(
    nodes: Seq<ModuleDeclarations>,
    m: ModuleDeclarations,
    c: Declaration,
    base: Seq<char>,
) -> bool {
    match spec_base_of(nodes, m, base) {
        Some((bn, bd)) => exists|n: Seq<char>|
            #[trigger] abstract_names(bn.declarations@, bd.name@).contains(n) && !implemented(
                m.declarations@,
                c.name@,
                n,
                abstract_kind(bn.declarations@, bd.name@, n),
            ),
        None => false,
    }
}

/// The class `c` of module `m` is abstract: it declares an abstract method, or a direct base has
/// an abstract member it does not implement.
pub open spec fn class_is_abstract(nodes: Seq<ModuleDeclarations>, m: ModuleDeclarations, c: Declaration) -> bool {
    own_abstract(m.declarations@, c.name@) || exists|b: int|
        0 <= b < c.bases@.len() && base_leaves_abstract(nodes, m, c, #[trigger] c.bases@[b]@)
}

/// A top-level class of `decls` that is abstract, named `n`.
pub open spec fn abstract_class_names(nodes: Seq<ModuleDeclarations>, node: ModuleDeclarations) -> Set<Seq<char>> {
    Set::new(
        |n: Seq<char>|
            exists|i: int|
                0 <= i < node.declarations@.len() && node.declarations@[i].kind == DeclarationKind::Class
                    && node.declarations@[i].owner is None && class_is_abstract(nodes, node, node.declarations@[i])
                    && #[trigger] node.declarations@[i].name@ == n,
    )
}

/// The abstract class a call instantiates directly, if it does: a local abstract class, or the
/// abstract class the callee's name resolves to.
pub open spec fn spec_instantiated_abstract(
    nodes: Seq<ModuleDeclarations>,
    node: ModuleDeclarations,
    callee: Seq<char>,
) -> Option<Seq<char>> {
    if abstract_class_names(nodes, node).contains(callee) {
        Some(callee)
    } else {
        match spec_base_of(nodes, node, callee) {
            Some((bn, d)) => if class_is_abstract(nodes, bn, d) {
                Some(d.name@)
            } else {
                None
            },
            None => None,
        }
    }
}

/// The errors for the first calls of a module that instantiate an abstract class.
pub open spec fn spec_abstract_instantiation_diags(
    nodes: Seq<ModuleDeclarations>,
    node: ModuleDeclarations,
    calls: Seq<CallSite>,
) -> Seq<DiagnosticView>
    decreases calls.len(),
{
    if calls.len() == 0 {
        Seq::empty()
    } else {
        let prev = spec_abstract_instantiation_diags(nodes, node, calls.drop_last());
        match spec_instantiated_abstract(nodes, node, calls.last().callee@) {
            Some(name) => prev.push(
                spec_diagnostic(
                    Severity::Error,
                    "TPY4007"@,
                    "module `"@ + node.source_path@ + "` directly instantiates abstract class `"@ + name + "`"@,
                ),
            ),
            None => prev,
        }
    }
}

fn leaves_abstract(nodes: &Vec<ModuleDeclarations>, m: &ModuleDeclarations, c: &Declaration, base: &str) -> (res: bool)
    ensures
        res == base_leaves_abstract(nodes@, *m, *c, base@),
{
    let (bn, bd) = match resolve_direct_base(nodes, m, base) {
        Some(found) => found,
        None => return false,
    };
    let index = abstract_member_index(&bn.declarations);
    let owner = Some(bd.name.clone());
    let decls = &bn.declarations;
    let mut q: usize = 0;
    while q < decls.len()
        invariant
            q <= decls@.len(),
            decls == bn.declarations,
            spec_base_of(nodes@, *m, base@) == Some((*bn, *bd)),
            index.wf(),
            index@ == spec_abstract_member_index(decl_views(decls@)),
            crate::effect_summary::opt_view(owner) == Some(bd.name@),
            forall|j: int|
                0 <= j < q && member_of(decls@[j], bd.name@) && decls@[j].is_abstract_method ==> implemented(
                    m.declarations@,
                    c.name@,
                    #[trigger] decls@[j].name@,
                    abstract_kind(decls@, bd.name@, decls@[j].name@),
                ),
        decreases decls@.len() - q,
    {
        let d = &decls[q];
        let owned_by = match &d.owner {
            Some(o) => str_eq(&o.name, &bd.name),
            None => false,
        };
        if owned_by && d.is_abstract_method {
            proof {
                lemma_abstract_index_keys(decls@, bd.name@, d.name@);
                assert(decls@[q as int].name@ == d.name@);
            }
            let kind = match index.get(&owner, &d.name) {
                Some(k) => *k,
                None => DeclarationKind::Class,
            };
            if !is_implemented(&m.declarations, &c.name, &d.name, kind) {
                assert(abstract_names(decls@, bd.name@).contains(d.name@));
                return true;
            }
        }
        q = q + 1;
    }
    proof {
        assert forall|n: Seq<char>| #[trigger] abstract_names(decls@, bd.name@).contains(n) implies implemented(
            m.declarations@,
            c.name@,
            n,
            abstract_kind(decls@, bd.name@, n),
        ) by {
            lemma_abstract_index_keys(decls@, bd.name@, n);
            let j = choose|j: int|
                0 <= j < decls@.len() && member_of(decls@[j], bd.name@) && decls@[j].is_abstract_method
                    && #[trigger] decls@[j].name@ == n;
        }
    }
    false
}

fn is_abstract_class(nodes: &Vec<ModuleDeclarations>, m: &ModuleDeclarations, c: &Declaration) -> (res: bool)
    ensures
        res == class_is_abstract(nodes@, *m, *c),
{
    if has_own_abstract(&m.declarations, &c.name) {
        return true;
    }
    let mut b: usize = 0;
    while b < c.bases.len()
        invariant
            b <= c.bases@.len(),
            forall|q: int| 0 <= q < b ==> !base_leaves_abstract(nodes@, *m, *c, #[trigger] c.bases@[q]@),
        decreases c.bases@.len() - b,
    {
        if leaves_abstract(nodes, m, c, &c.bases[b]) {
            assert(base_leaves_abstract(nodes@, *m, *c, c.bases@[b as int]@));
            return true;
        }
        b = b + 1;
    }
    false
}

/// The errors for calls of a module that directly instantiate an abstract class.
pub fn abstract_instantiation_diagnostics(
    node: &ModuleDeclarations,
    nodes: &Vec<ModuleDeclarations>,
    calls: &Vec<CallSite>,
) -> (res: Vec<Diagnostic>)
    ensures
        diags_view(res@) == spec_abstract_instantiation_diags(nodes@, *node, calls@),
{
    let decls = &node.declarations;
    let mut abstract_classes: Vec<String> = Vec::new();
    let mut i: usize = 0;
    while i < decls.len()
        invariant
            i <= decls@.len(),
            decls == node.declarations,
            forall|n: Seq<char>| #[trigger] string_views(abstract_classes@).contains(n) <==> exists|j: int|
                0 <= j < i && decls@[j].kind == DeclarationKind::Class && decls@[j].owner is None && class_is_abstract(
                    nodes@,
                    *node,
                    decls@[j],
                ) && decls@[j].name@ == n,
        decreases decls@.len() - i,
    {
        let c = &decls[i];
        let ghost before = string_views(abstract_classes@);
        if c.kind == DeclarationKind::Class && c.owner.is_none() && is_abstract_class(nodes, node, c) {
            abstract_classes.push(c.name.clone());
            assert(string_views(abstract_classes@) =~= before.push(c.name@));
        }
        proof {
            let now = string_views(abstract_classes@);
            assert forall|n: Seq<char>| #[trigger] now.contains(n) <==> exists|j: int|
                0 <= j < i + 1 && decls@[j].kind == DeclarationKind::Class && decls@[j].owner is None && class_is_abstract(
                    nodes@,
                    *node,
                    decls@[j],
                ) && decls@[j].name@ == n by {
                if now.contains(n) && !before.contains(n) {
                    assert(now[now.len() - 1] == c.name@);
                    let k = choose|k: int| 0 <= k < now.len() && now[k] == n;
                    if k < before.len() {
                        assert(before[k] == n);
                    }
                }
                if before.contains(n) {
                    let k = choose|k: int| 0 <= k < before.len() && before[k] == n;
                    assert(now[k] == n);
                }
                if exists|j: int|
                    0 <= j < i + 1 && decls@[j].kind == DeclarationKind::Class && decls@[j].owner is None
                        && class_is_abstract(nodes@, *node, decls@[j]) && decls@[j].name@ == n {
                    let j = choose|j: int|
                        0 <= j < i + 1 && decls@[j].kind == DeclarationKind::Class && decls@[j].owner is None
                            && class_is_abstract(nodes@, *node, decls@[j]) && decls@[j].name@ == n;
                    if j == i {
                        assert(now[now.len() - 1] == n);
                    }
                }
            }
        }
        i = i + 1;
    }
    proof {
        assert forall|n: Seq<char>| #[trigger] string_views(abstract_classes@).contains(n) <==> abstract_class_names(
            nodes@,
            *node,
        ).contains(n) by {
            if abstract_class_names(nodes@, *node).contains(n) {
                let j = choose|j: int|
                    0 <= j < node.declarations@.len() && node.declarations@[j].kind == DeclarationKind::Class
                        && node.declarations@[j].owner is None && class_is_abstract(nodes@, *node, node.declarations@[j])
                        && #[trigger] node.declarations@[j].name@ == n;
            }
        }
    }
    let mut out: Vec<Diagnostic> = Vec::new();
    let mut k: usize = 0;
    assert(calls@.take(0) =~= Seq::<CallSite>::empty());
    assert(diags_view(out@) =~= Seq::<DiagnosticView>::empty());
    while k < calls.len()
        invariant
            k <= calls@.len(),
            forall|n: Seq<char>| #[trigger] string_views(abstract_classes@).contains(n) <==> abstract_class_names(
                nodes@,
                *node,
            ).contains(n),
            diags_view(out@) == spec_abstract_instantiation_diags(nodes@, *node, calls@.take(k as int)),
        decreases calls@.len() - k,
    {
        let call = &calls[k];
        assert(calls@.take(k + 1).drop_last() =~= calls@.take(k as int));
        assert(calls@.take(k + 1).last() == *call);
        let name: Option<String> = if names_contain(&abstract_classes, &call.callee) {
            Some(call.callee.clone())
        } else {
            match resolve_direct_base(nodes, node, &call.callee) {
                Some((bn, d)) => {
                    if is_abstract_class(nodes, bn, d) {
                        Some(d.name.clone())
                    } else {
                        None
                    }
                },
                None => None,
            }
        };
        match name {
            Some(n) => {
                assert(spec_instantiated_abstract(nodes@, *node, call.callee@) == Some(n@));
                let mut m = owned("module `");
                m.append(&node.source_path);
                m.append("` directly instantiates abstract class `");
                m.append(&n);
                m.append("`");
                proof {
                    reveal_strlit("module `");
                    reveal_strlit("` directly instantiates abstract class `");
                    reveal_strlit("`");
                }
                let ghost before = diags_view(out@);
                let d = Diagnostic::error("TPY4007", m);
                out.push(d);
                assert(diags_view(out@) =~= before.push(d@));
            },
            None => {
                assert(spec_instantiated_abstract(nodes@, *node, call.callee@) is None);
            },
        }
        k = k + 1;
    }
    assert(calls@.take(calls@.len() as int) =~= calls@);
    out
}

} // verus!
