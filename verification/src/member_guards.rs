//! The `assert isinstance(..)` guard suggested where a member is read through a union whose
//! branches do not all have it.
use vstd::prelude::*;
use crate::declarations::string_views;
use crate::diagnostics::{
    Diagnostic, DiagnosticView, Severity, Span, SpanView, SuggestionApplicability, SuggestionView, spec_diagnostic,
};
use crate::match_cases::{indent_of, source_lines, spaces, spaces_string, spec_lines};
use crate::text::{contains_char, join_strings, join_with, owned, str_eq};

verus! {

/// The class that an `isinstance` check can name for a union branch, given the branch's
/// normalized type text: none for an empty text, `None`, `Any`, `dynamic`, `unknown`, or a
/// subscripted or union type.
pub open spec fn spec_guard_type_name(normalized: Seq<char>) -> Option<Seq<char>> {
    if normalized.len() == 0 || normalized == "None"@ || normalized == "Any"@ || normalized == "dynamic"@
        || normalized == "unknown"@ || normalized.contains('[') || normalized.contains('|') {
        None
    } else {
        Some(normalized)
    }
}

/// The class that an `isinstance` check can name for a union branch given by its normalized
/// type text.
pub fn isinstance_guard_type_name(normalized: &str) -> (res: Option<String>)
    ensures
        match res {
            Some(s) => spec_guard_type_name(normalized@) == Some(s@),
            None => spec_guard_type_name(normalized@) is None,
        },
{
    proof {
        reveal_strlit("None");
        reveal_strlit("Any");
        reveal_strlit("dynamic");
        reveal_strlit("unknown");
    }
    if normalized.unicode_len() == 0 || str_eq(normalized, "None") || str_eq(normalized, "Any") || str_eq(
        normalized,
        "dynamic",
    ) || str_eq(normalized, "unknown") || contains_char(normalized, '[') || contains_char(normalized, '|') {
        None
    } else {
        Some(owned(normalized))
    }
}

/// The guard classes of the first branches, in order.
pub open spec fn spec_guard_types(branches: Seq<Seq<char>>) -> Seq<Seq<char>>
    decreases branches.len(),
{
    if branches.len() == 0 {
        Seq::empty()
    } else {
        let prev = spec_guard_types(branches.drop_last());
        match spec_guard_type_name(branches.last()) {
            Some(g) => prev.push(g),
            None => prev,
        }
    }
}

/// The type an `isinstance` check names for the guard classes: the one class, or a tuple of
/// them.
pub open spec fn spec_guard_text(guards: Seq<Seq<char>>) -> Seq<char> {
    if guards.len() == 1 {
        guards[0]
    } else {
        "("@ + join_with(guards, ", "@) + ")"@
    }
}

/// The guard inserted above line `line` of `source` for a member read on `owner_name` through a
/// union with the given normalized branches: an `assert isinstance(..)` statement indented as
/// that line, placed at its first column. None when no branch can be named by `isinstance`,
/// when the text is missing, or when the line is not in it.
pub open spec fn spec_union_member_guard_suggestion(
    source: Option<Seq<char>>,
    path: Seq<char>,
    owner_name: Seq<char>,
    line: nat,
    branches: Seq<Seq<char>>,
) -> Option<(SpanView, Seq<char>)> {
    let guards = spec_guard_types(branches);
    if guards.len() == 0 {
        None
    } else {
        match source {
            None => None,
            Some(s) => if line == 0 || line > spec_lines(s).len() {
                None
            } else {
                let text = spec_lines(s)[line - 1];
                Some(
                    (
                        SpanView { path, line, column: 1, end_line: line, end_column: 1 },
                        spaces(crate::match_cases::spec_leading_spaces(text)) + "assert isinstance("@ + owner_name
                            + ", "@ + spec_guard_text(guards) + ")\n"@,
                    ),
                )
            },
        }
    }
}

/// The `isinstance` guard suggested for a member read on `owner_name` at line `line` through a
/// union whose branches, given as normalized type texts, do not all have the member.
pub fn union_member_guard_suggestion(
    source: Option<&str>,
    source_path: &str,
    owner_name: &str,
    line: usize,
    available_branches: &Vec<String>,
) -> (res: Option<(Span, String)>)
    ensures
        match res {
            Some((sp, text)) => spec_union_member_guard_suggestion(
                match source {
                    Some(s) => Some(s@),
                    None => None,
                },
                source_path@,
                owner_name@,
                line as nat,
                string_views(available_branches@),
            ) == Some((sp@, text@)),
            None => spec_union_member_guard_suggestion(
                match source {
                    Some(s) => Some(s@),
                    None => None,
                },
                source_path@,
                owner_name@,
                line as nat,
                string_views(available_branches@),
            ) is None,
        },
{
    let ghost bv = string_views(available_branches@);
    let mut guards: Vec<String> = Vec::new();
    let mut i: usize = 0;
    assert(bv.take(0) =~= Seq::<Seq<char>>::empty());
    while i < available_branches.len()
        invariant
            i <= available_branches@.len(),
            bv == string_views(available_branches@),
            string_views(guards@) == spec_guard_types(bv.take(i as int)),
        decreases available_branches@.len() - i,
    {
        assert(bv.take(i + 1).drop_last() =~= bv.take(i as int));
        assert(bv.take(i + 1).last() == available_branches@[i as int]@);
        match isinstance_guard_type_name(&available_branches[i]) {
            Some(g) => {
                let ghost before = string_views(guards@);
                guards.push(g);
                assert(string_views(guards@) =~= before.push(guards@.last()@));
            },
            None => {},
        }
        i = i + 1;
    }
    assert(bv.take(bv.len() as int) =~= bv);
    if guards.len() == 0 {
        return None;
    }
    let text = match source {
        Some(s) => s,
        None => return None,
    };
    if line == 0 {
        return None;
    }
    let lines = source_lines(text);
    if line > lines.len() {
        return None;
    }
    let line_text = &lines[line - 1];
    assert(line_text@ == spec_lines(text@)[line - 1]);
    let indent = indent_of(line_text);
    proof {
        reveal_strlit("(");
        reveal_strlit(", ");
        reveal_strlit(")");
        reveal_strlit("assert isinstance(");
        reveal_strlit(")\n");
    }
    let guard = if guards.len() == 1 {
        guards[0].clone()
    } else {
        let mut g = owned("(");
        let joined = join_strings(&guards, ", ");
        assert(guards@.map_values(|s: String| s@) =~= string_views(guards@));
        g.append(&joined);
        g.append(")");
        g
    };
    assert(guard@ == spec_guard_text(string_views(guards@)));
    let mut out = spaces_string(indent);
    out.append("assert isinstance(");
    out.append(owner_name);
    out.append(", ");
    out.append(&guard);
    out.append(")\n");
    let span = Span::new(owned(source_path), line, 1, line, 1);
    Some((span, out))
}

/// A branch of a union as a member read sees it: whether it is `Any` or `dynamic`, the class it
/// names where it names one, and whether that class has the member.
#[derive(Debug)]
pub struct UnionBranch {
    pub is_dynamic: bool,
    pub nominal_name: Option<String>,
    pub has_member: bool,
}

/// Whether a branch names a class that has the member.
pub open spec fn branch_has_member(b: UnionBranch) -> bool {
    b.nominal_name is Some && b.has_member
}

/// The classes of the first branches that have the member, in order.
pub open spec fn spec_available_branches(bs: Seq<UnionBranch>) -> Seq<Seq<char>>
    decreases bs.len(),
{
    if bs.len() == 0 {
        Seq::empty()
    } else {
        let prev = spec_available_branches(bs.drop_last());
        if branch_has_member(bs.last()) {
            prev.push(bs.last().nominal_name.unwrap()@)
        } else {
            prev
        }
    }
}

/// The error for reading `member` on `owner_name` through a union (rendered `owner_type`) whose
/// branches do not all have it: none when some branch is `Any` or `dynamic` or every branch has
/// it; else an error, with the `isinstance` guard for the branches that have it where one can
/// be inserted.
pub open spec fn spec_union_owner_member_diagnostic(
    source: Option<Seq<char>>,
    path: Seq<char>,
    owner_type: Seq<char>,
    owner_name: Seq<char>,
    member: Seq<char>,
    line: nat,
    branches: Seq<UnionBranch>,
) -> Option<DiagnosticView> {
    let available = spec_available_branches(branches);
    if exists|i: int| 0 <= i < branches.len() && (#[trigger] branches[i]).is_dynamic {
        None
    } else if available.len() == branches.len() {
        None
    } else {
        let d = spec_diagnostic(
            Severity::Error,
            "TPY4002"@,
            "type `"@ + owner_type + "` in module `"@ + path + "` has no member `"@ + member + "` on every union branch"@,
        );
        Some(
            match spec_union_member_guard_suggestion(source, path, owner_name, line, available) {
                Some((span, text)) => DiagnosticView {
                    suggestions: d.suggestions.push(
                        SuggestionView {
                            message: "Insert `isinstance` guard for `"@ + owner_name + "` before accessing `"@ + member
                                + "`"@,
                            span,
                            replacement: text,
                            applicability: SuggestionApplicability::MachineApplicable,
                        },
                    ),
                    ..d
                },
                None => d,
            },
        )
    }
}

/// The error for reading `member` on `owner_name` at line `line` through a union, given the
/// union rendered and its branches.
pub fn union_owner_member_diagnostic(
    source: Option<&str>,
    source_path: &str,
    owner_type: &str,
    owner_name: &str,
    member: &str,
    line: usize,
    branches: &Vec<UnionBranch>,
) -> (res: Option<Diagnostic>)
    ensures
        match res {
            Some(d) => spec_union_owner_member_diagnostic(
                match source {
                    Some(s) => Some(s@),
                    None => None,
                },
                source_path@,
                owner_type@,
                owner_name@,
                member@,
                line as nat,
                branches@,
            ) == Some(d@),
            None => spec_union_owner_member_diagnostic(
                match source {
                    Some(s) => Some(s@),
                    None => None,
                },
                source_path@,
                owner_type@,
                owner_name@,
                member@,
                line as nat,
                branches@,
            ) is None,
        },
{
    let mut available: Vec<String> = Vec::new();
    let mut i: usize = 0;
    assert(branches@.take(0) =~= Seq::<UnionBranch>::empty());
    while i < branches.len()
        invariant
            i <= branches@.len(),
            forall|j: int| 0 <= j < i ==> !(#[trigger] branches@[j]).is_dynamic,
            string_views(available@) == spec_available_branches(branches@.take(i as int)),
            available@.len() <= i,
        decreases branches@.len() - i,
    {
        let b = &branches[i];
        if b.is_dynamic {
            return None;
        }
        assert(branches@.take(i + 1).drop_last() =~= branches@.take(i as int));
        assert(branches@.take(i + 1).last() == *b);
        match &b.nominal_name {
            Some(n) => if b.has_member {
                let ghost before = string_views(available@);
                available.push(n.clone());
                assert(string_views(available@) =~= before.push(n@));
            },
            None => {},
        }
        i = i + 1;
    }
    assert(branches@.take(branches@.len() as int) =~= branches@);
    assert(string_views(available@).len() == available@.len());
    if available.len() == branches.len() {
        return None;
    }
    let mut m = owned("type `");
    m.append(owner_type);
    m.append("` in module `");
    m.append(source_path);
    m.append("` has no member `");
    m.append(member);
    m.append("` on every union branch");
    let diagnostic = Diagnostic::error("TPY4002", m);
    match union_member_guard_suggestion(source, source_path, owner_name, line, &available) {
        Some((span, text)) => {
            let mut message = owned("Insert `isinstance` guard for `");
            message.append(owner_name);
            message.append("` before accessing `");
            message.append(member);
            message.append("`");
            Some(diagnostic.with_suggestion(&message, span, text, SuggestionApplicability::MachineApplicable))
        },
        None => Some(diagnostic),
    }
}

} // verus!
