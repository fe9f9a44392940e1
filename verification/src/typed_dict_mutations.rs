//! Writes to items by subscript: assignments, augmented assignments and deletions. On a
//! `TypedDict` they are checked against the declared keys, their read-only flags and their value
//! types; on other objects against `__setitem__` and `__getitem__`.
use vstd::prelude::*;
use crate::diagnostics::{Diagnostic, DiagnosticView, Severity, Span, spec_diagnostic, spec_point_span};
use crate::declarations::diag_views;
use crate::effect_summary::opt_view;
use crate::text::owned;
use crate::typed_dict::{TypedDictShape, TypedDictFieldShapeRef, typed_dict_known_or_extra_field};

verus! {

/// How a statement writes an item.
#[derive(Debug, Clone, Copy, PartialEq, Eq, Structural)]
pub enum TypedDictMutationKind {
    Assignment,
    AugmentedAssignment,
    Delete,
}

/// A statement that writes an item of some object by subscript: its line, the key when it is a
/// string literal, how it writes, and whether it has a value (deletions have none).
#[derive(Debug)]
pub struct TypedDictMutationSite {
    pub line: usize,
    pub key: Option<String>,
    pub kind: TypedDictMutationKind,
    pub has_value: bool,
}

/// A resolved type checked against an expected one: both rendered, and whether the first is
/// assignable to the second.
#[derive(Debug)]
pub struct TypeComparison {
    pub actual: String,
    pub expected: String,
    pub assignable: bool,
}

/// What checking the written value against the item's declared type gave.
#[derive(Debug)]
pub enum ItemValueVerdict {
    /// No value, or its type could not be resolved.
    Unresolved,
    /// The value check reported this diagnostic itself.
    Reported(Diagnostic),
    /// The type of the value (for an augmented assignment, of the result) checked against the
    /// declared one.
    Compared(TypeComparison),
}

/// What was resolved for a write: the `TypedDict` shape of the object written, when its type is
/// known and is a known `TypedDict`, and the verdict on the written value.
#[derive(Debug)]
pub struct TypedDictMutationFacts {
    pub target: Option<TypedDictShape>,
    pub value: ItemValueVerdict,
}

/// Whether the item of `key` is read-only: `None` when the shape neither declares the key nor
/// accepts extra items.
pub open spec fn item_readonly(shape: TypedDictShape, key: Seq<char>) -> Option<bool> {
    match shape.field_index(key) {
        Some(i) => Some(shape.fields@[i].1.readonly),
        None => match shape.extra_items {
            Some(e) => Some(e.readonly),
            None => None,
        },
    }
}

/// What a read-only message says the statement cannot do.
pub open spec fn readonly_verb(kind: TypedDictMutationKind) -> Seq<char> {
    match kind {
        TypedDictMutationKind::Assignment => "cannot be assigned"@,
        TypedDictMutationKind::AugmentedAssignment => "cannot be updated with augmented assignment"@,
        TypedDictMutationKind::Delete => "cannot be deleted"@,
    }
}

/// An error at the start of a line.
pub open spec fn line_error(path: Seq<char>, line: usize, code: Seq<char>, message: Seq<char>) -> DiagnosticView {
    DiagnosticView { span: Some(spec_point_span(path, line as nat, 1)), ..spec_diagnostic(Severity::Error, code, message) }
}

/// The diagnostic for one write, if any. Nothing is reported without a literal key or a known
/// `TypedDict` target. A key that is neither declared nor covered by extra items is an error; so
/// is any write to a read-only item. Otherwise a deletion, or a write without a value, is
/// accepted, and an assignment or augmented assignment is reported when the value check
/// reported, or when the value's type does not match the declared one.
pub open spec fn spec_typed_dict_mutation_diagnostic(
    path: Seq<char>,
    site: TypedDictMutationSite,
    facts: TypedDictMutationFacts,
) -> Option<DiagnosticView> {
    match (opt_view(site.key), facts.target) {
        (Some(key), Some(shape)) => {
            let item = "TypedDict item `"@ + key + "` on `"@ + shape.name@ + "` in module `"@ + path + "`"@;
            match item_readonly(shape, key) {
                None => Some(line_error(path, site.line, "TPY4001"@, item + " is not a declared key"@)),
                Some(true) => Some(
                    line_error(path, site.line, "TPY4016"@, item + " is read-only and "@ + readonly_verb(site.kind)),
                ),
                Some(false) => if site.kind == TypedDictMutationKind::Delete || !site.has_value {
                    None
                } else {
                    match facts.value {
                        ItemValueVerdict::Unresolved => None,
                        ItemValueVerdict::Reported(d) => Some(d@),
                        ItemValueVerdict::Compared(c) => if c.assignable {
                            None
                        } else {
                            let tail = " `"@ + c.actual@ + "` where `"@ + key + "` expects `"@ + c.expected@ + "`"@;
                            if site.kind == TypedDictMutationKind::Assignment {
                                Some(line_error(path, site.line, "TPY4001"@, item + " assigns"@ + tail))
                            } else {
                                Some(line_error(path, site.line, "TPY4001"@, "augmented assignment on "@ + item + " produces"@ + tail))
                            }
                        },
                    }
                },
            }
        },
        _ => None,
    }
}

/// The diagnostics for the writes of a module, in order.
pub open spec fn spec_typed_dict_mutation_diagnostics(
    path: Seq<char>,
    sites: Seq<(TypedDictMutationSite, TypedDictMutationFacts)>,
) -> Seq<DiagnosticView>
    decreases sites.len(),
{
    if sites.len() == 0 {
        Seq::empty()
    } else {
        let prev = spec_typed_dict_mutation_diagnostics(path, sites.drop_last());
        match spec_typed_dict_mutation_diagnostic(path, sites.last().0, sites.last().1) {
            Some(d) => prev.push(d),
            None => prev,
        }
    }
}

/// Every known target shape declares each key once.
pub open spec fn targets_wf(sites: Seq<(TypedDictMutationSite, TypedDictMutationFacts)>) -> bool {
    forall|i: int|
        0 <= i < sites.len() ==> match (#[trigger] sites[i]).1.target {
            Some(s) => s.wf(),
            None => true,
        }
}

fn line_error_exec(source_path: &str, line: usize, code: &str, message: String) -> (res: Diagnostic)
    ensures
        res@ == line_error(source_path@, line, code@, message@),
{
    Diagnostic::error(code, message).with_span(Span::new(owned(source_path), line, 1, line, 1))
}

fn typed_dict_mutation_diagnostic(
    source_path: &str,
    site: TypedDictMutationSite,
    facts: TypedDictMutationFacts,
) -> (res: Option<Diagnostic>)
    requires
        match facts.target {
            Some(s) => s.wf(),
            None => true,
        },
    ensures
        match res {
            Some(d) => spec_typed_dict_mutation_diagnostic(source_path@, site, facts) == Some(d@),
            None => spec_typed_dict_mutation_diagnostic(source_path@, site, facts) is None,
        },
{
    let ghost spec_site = site;
    let ghost spec_facts = facts;
    let key = match &site.key {
        Some(k) => k,
        None => return None,
    };
    let shape = match &facts.target {
        Some(s) => s,
        None => return None,
    };
    let mut item = owned("TypedDict item `");
    item.append(key);
    item.append("` on `");
    item.append(&shape.name);
    item.append("` in module `");
    item.append(source_path);
    item.append("`");
    let readonly = match typed_dict_known_or_extra_field(shape, key) {
        None => {
            item.append(" is not a declared key");
            return Some(line_error_exec(source_path, site.line, "TPY4001", item));
        },
        Some(field) => field.readonly(),
    };
    if readonly {
        item.append(" is read-only and ");
        item.append(
            match site.kind {
                TypedDictMutationKind::Assignment => "cannot be assigned",
                TypedDictMutationKind::AugmentedAssignment => "cannot be updated with augmented assignment",
                TypedDictMutationKind::Delete => "cannot be deleted",
            },
        );
        return Some(line_error_exec(source_path, site.line, "TPY4016", item));
    }
    if site.kind == TypedDictMutationKind::Delete || !site.has_value {
        return None;
    }
    let is_assignment = site.kind == TypedDictMutationKind::Assignment;
    match facts.value {
        ItemValueVerdict::Unresolved => None,
        ItemValueVerdict::Reported(d) => Some(d),
        ItemValueVerdict::Compared(c) => {
            if c.assignable {
                return None;
            }
            let mut tail = owned(" `");
            tail.append(&c.actual);
            tail.append("` where `");
            tail.append(key);
            tail.append("` expects `");
            tail.append(&c.expected);
            tail.append("`");
            let message = if is_assignment {
                item.append(" assigns");
                item.append(&tail);
                item
            } else {
                let mut m = owned("augmented assignment on ");
                m.append(&item);
                m.append(" produces");
                m.append(&tail);
                m
            };
            Some(line_error_exec(source_path, site.line, "TPY4001", message))
        },
    }
}

/// The errors for the writes by literal key to items of `TypedDict` values in a module, in
/// statement order. Each write comes with what was resolved for it: the shape of the object
/// written and the verdict on the written value.
pub fn typed_dict_readonly_mutation_diagnostics(
    source_path: &str,
    sites: Vec<(TypedDictMutationSite, TypedDictMutationFacts)>,
) -> (res: Vec<Diagnostic>)
    requires
        targets_wf(sites@),
    ensures
        diag_views(res@) == spec_typed_dict_mutation_diagnostics(source_path@, sites@),
{
    let ghost all = sites@;
    let n = sites.len();
    let mut rest = sites;
    let mut out: Vec<Diagnostic> = Vec::new();
    let mut i: usize = 0;
    assert(all.take(0) =~= Seq::<(TypedDictMutationSite, TypedDictMutationFacts)>::empty());
    assert(diag_views(out@) =~= Seq::<DiagnosticView>::empty());
    while rest.len() > 0
        invariant
            i <= all.len(),
            all.len() == n,
            i + rest@.len() == all.len(),
            rest@ == all.skip(i as int),
            targets_wf(all),
            diag_views(out@) == spec_typed_dict_mutation_diagnostics(source_path@, all.take(i as int)),
        decreases rest@.len(),
    {
        assert(all.take(i + 1).drop_last() =~= all.take(i as int));
        assert(all.take(i + 1).last() == all[i as int]);
        let (site, facts) = rest.remove(0);
        assert(rest@ =~= all.skip(i + 1));
        let ghost before = diag_views(out@);
        match typed_dict_mutation_diagnostic(source_path, site, facts) {
            Some(d) => {
                out.push(d);
                assert(diag_views(out@) =~= before.push(d@));
            },
            None => {},
        }
        i = i + 1;
    }
    assert(all.take(i as int) =~= all);
    out
}


/// What `__setitem__` of the subscripted object's class offers: a key and a value parameter, or
/// nothing writable (a `Mapping`, or a class with `__getitem__` alone).
#[derive(Debug, Clone, Copy, PartialEq, Eq, Structural)]
pub enum SetitemAccess {
    ReadOnly,
    Writable,
}

/// What was resolved for a subscript write on an object that is not a `TypedDict`: the rendered
/// type of the object; whether that type is a known `TypedDict` (then the `TypedDict` checks
/// apply instead); what its class offers for writing, when known; the key's type against the
/// `__setitem__` key parameter, when resolved; for an augmented assignment, whether
/// `__getitem__` gives a type for the key; and the verdict on the value (for an augmented
/// assignment, on its result) against the `__setitem__` value parameter.
#[derive(Debug)]
pub struct SubscriptWriteFacts {
    pub owner_type: Option<String>,
    pub is_typed_dict: bool,
    pub setitem: Option<SetitemAccess>,
    pub key: Option<TypeComparison>,
    pub readable: bool,
    pub value: ItemValueVerdict,
}

/// The message for a type that does not fit a `__setitem__` parameter.
pub open spec fn setitem_mismatch(
    prefix: Seq<char>,
    owner: Seq<char>,
    path: Seq<char>,
    what: Seq<char>,
    c: TypeComparison,
) -> Seq<char> {
    prefix + " on `"@ + owner + "` in module `"@ + path + "` "@ + what + " `"@ + c.actual@ + "` where `__setitem__` expects `"@
        + c.expected@ + "`"@
}

/// The diagnostic for one subscript write on an object that is not a `TypedDict`, if any.
/// Deletions, writes on objects of unknown type, on `TypedDict` values or on classes whose
/// subscript protocol is unknown are not checked here. A class that cannot be written through
/// `__setitem__` is an error; then a key of the wrong type; then, for an assignment, a value of
/// the wrong type (or what the value check reported), and for an augmented assignment an item
/// that cannot be read back through `__getitem__`, or a result of the wrong type.
pub open spec fn spec_subscript_write_diagnostic(
    path: Seq<char>,
    site: TypedDictMutationSite,
    facts: SubscriptWriteFacts,
) -> Option<DiagnosticView> {
    if site.kind == TypedDictMutationKind::Delete || facts.is_typed_dict {
        None
    } else {
        match (facts.owner_type, facts.setitem) {
            (Some(owner), Some(SetitemAccess::ReadOnly)) => Some(
                line_error(
                    path,
                    site.line,
                    "TPY4001"@,
                    "subscript assignment target `"@ + owner@ + "` in module `"@ + path
                        + "` is not writable via `__setitem__`"@,
                ),
            ),
            (Some(owner), Some(SetitemAccess::Writable)) => {
                match facts.key {
                    None => None,
                    Some(k) => if !k.assignable {
                        Some(
                            line_error(
                                path,
                                site.line,
                                "TPY4001"@,
                                setitem_mismatch("subscript assignment"@, owner@, path, "passes key"@, k),
                            ),
                        )
                    } else if !site.has_value {
                        None
                    } else if site.kind == TypedDictMutationKind::AugmentedAssignment && !facts.readable {
                        Some(
                            line_error(
                                path,
                                site.line,
                                "TPY4001"@,
                                "augmented subscript assignment target `"@ + owner@ + "` in module `"@ + path
                                    + "` is not readable via `__getitem__`"@,
                            ),
                        )
                    } else {
                        match facts.value {
                            ItemValueVerdict::Unresolved => None,
                            ItemValueVerdict::Reported(d) => Some(d@),
                            ItemValueVerdict::Compared(c) => if c.assignable {
                                None
                            } else if site.kind == TypedDictMutationKind::Assignment {
                                Some(
                                    line_error(
                                        path,
                                        site.line,
                                        "TPY4001"@,
                                        setitem_mismatch("subscript assignment"@, owner@, path, "passes value"@, c),
                                    ),
                                )
                            } else {
                                Some(
                                    line_error(
                                        path,
                                        site.line,
                                        "TPY4001"@,
                                        setitem_mismatch("augmented subscript assignment"@, owner@, path, "produces"@, c),
                                    ),
                                )
                            },
                        }
                    },
                }
            },
            _ => None,
        }
    }
}

/// The subscript-write diagnostics of a module, in order.
pub open spec fn spec_subscript_write_diagnostics(
    path: Seq<char>,
    sites: Seq<(TypedDictMutationSite, SubscriptWriteFacts)>,
) -> Seq<DiagnosticView>
    decreases sites.len(),
{
    if sites.len() == 0 {
        Seq::empty()
    } else {
        let prev = spec_subscript_write_diagnostics(path, sites.drop_last());
        match spec_subscript_write_diagnostic(path, sites.last().0, sites.last().1) {
            Some(d) => prev.push(d),
            None => prev,
        }
    }
}

fn type_mismatch_message(prefix: &str, owner: &str, source_path: &str, what: &str, c: &TypeComparison) -> (res: String)
    ensures
        res@ == setitem_mismatch(prefix@, owner@, source_path@, what@, *c),
{
    let mut m = owned(prefix);
    m.append(" on `");
    m.append(owner);
    m.append("` in module `");
    m.append(source_path);
    m.append("` ");
    m.append(what);
    m.append(" `");
    m.append(&c.actual);
    m.append("` where `__setitem__` expects `");
    m.append(&c.expected);
    m.append("`");
    m
}

fn subscript_write_diagnostic(
    source_path: &str,
    site: TypedDictMutationSite,
    facts: SubscriptWriteFacts,
) -> (res: Option<Diagnostic>)
    ensures
        match res {
            Some(d) => spec_subscript_write_diagnostic(source_path@, site, facts) == Some(d@),
            None => spec_subscript_write_diagnostic(source_path@, site, facts) is None,
        },
{
    if site.kind == TypedDictMutationKind::Delete || facts.is_typed_dict {
        return None;
    }
    let owner = match &facts.owner_type {
        Some(o) => o,
        None => return None,
    };
    let access = match facts.setitem {
        Some(a) => a,
        None => return None,
    };
    if access == SetitemAccess::ReadOnly {
        let mut m = owned("subscript assignment target `");
        m.append(owner);
        m.append("` in module `");
        m.append(source_path);
        m.append("` is not writable via `__setitem__`");
        return Some(line_error_exec(source_path, site.line, "TPY4001", m));
    }
    let key = match &facts.key {
        Some(k) => k,
        None => return None,
    };
    if !key.assignable {
        let m = type_mismatch_message("subscript assignment", owner, source_path, "passes key", key);
        return Some(line_error_exec(source_path, site.line, "TPY4001", m));
    }
    if !site.has_value {
        return None;
    }
    let augmented = site.kind == TypedDictMutationKind::AugmentedAssignment;
    if augmented && !facts.readable {
        let mut m = owned("augmented subscript assignment target `");
        m.append(owner);
        m.append("` in module `");
        m.append(source_path);
        m.append("` is not readable via `__getitem__`");
        return Some(line_error_exec(source_path, site.line, "TPY4001", m));
    }
    match facts.value {
        ItemValueVerdict::Unresolved => None,
        ItemValueVerdict::Reported(d) => Some(d),
        ItemValueVerdict::Compared(c) => {
            if c.assignable {
                None
            } else if augmented {
                let m = type_mismatch_message("augmented subscript assignment", owner, source_path, "produces", &c);
                Some(line_error_exec(source_path, site.line, "TPY4001", m))
            } else {
                let m = type_mismatch_message("subscript assignment", owner, source_path, "passes value", &c);
                Some(line_error_exec(source_path, site.line, "TPY4001", m))
            }
        },
    }
}

/// The errors for subscript assignments and augmented assignments on objects that are not
/// `TypedDict` values, checked against their class's `__setitem__` and `__getitem__`, in
/// statement order. Each write comes with what was resolved for it.
pub fn subscript_assignment_type_diagnostics(
    source_path: &str,
    sites: Vec<(TypedDictMutationSite, SubscriptWriteFacts)>,
) -> (res: Vec<Diagnostic>)
    ensures
        diag_views(res@) == spec_subscript_write_diagnostics(source_path@, sites@),
{
    let ghost all = sites@;
    let n = sites.len();
    let mut rest = sites;
    let mut out: Vec<Diagnostic> = Vec::new();
    let mut i: usize = 0;
    assert(all.take(0) =~= Seq::<(TypedDictMutationSite, SubscriptWriteFacts)>::empty());
    assert(diag_views(out@) =~= Seq::<DiagnosticView>::empty());
    while rest.len() > 0
        invariant
            i <= all.len(),
            all.len() == n,
            i + rest@.len() == all.len(),
            rest@ == all.skip(i as int),
            diag_views(out@) == spec_subscript_write_diagnostics(source_path@, all.take(i as int)),
        decreases rest@.len(),
    {
        assert(all.take(i + 1).drop_last() =~= all.take(i as int));
        assert(all.take(i + 1).last() == all[i as int]);
        let (site, facts) = rest.remove(0);
        assert(rest@ =~= all.skip(i + 1));
        let ghost before = diag_views(out@);
        match subscript_write_diagnostic(source_path, site, facts) {
            Some(d) => {
                out.push(d);
                assert(diag_views(out@) =~= before.push(d@));
            },
            None => {},
        }
        i = i + 1;
    }
    assert(all.take(i as int) =~= all);
    out
}

} // verus!
