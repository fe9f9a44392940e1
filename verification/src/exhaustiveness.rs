//! Exhaustiveness of `match` statements over a sealed class hierarchy: which subclasses of the
//! sealed root no unguarded case covers, and the case arms suggested for them.
use vstd::prelude::*;
use crate::declarations::{Declaration, string_views};
use crate::diagnostics::{
    Diagnostic, DiagnosticView, Severity, SuggestionApplicability, SuggestionView, spec_diagnostic,
};
use crate::hierarchy::{
    ModuleDeclarations, collect_sealed_descendants, descends_from, resolve_direct_base, resolve_sealed_root,
    sealed_descends_from, sealed_root_of, sorted_descendants, spec_base_of, spec_sealed_descendants,
};
use crate::match_cases::{MatchSite, match_case_insertion_edit, spec_match_case_insertion_edit};
use crate::semantic_types::{MatchPattern, names_contain};
use crate::text::{join_strings, join_with, owned, str_eq};

verus! {

/// Some unguarded case arm has a wildcard pattern.
pub open spec fn has_unguarded_wildcard(site: MatchSite) -> bool {
    exists|c: int, p: int|
        0 <= c < site.cases@.len() && !site.cases@[c].has_guard && 0 <= p < site.cases@[c].patterns@.len()
            && #[trigger] site.cases@[c].patterns@[p] is Wildcard
}

/// The subclasses of the sealed root `sd` (declared in module `sn`) that a case pattern covers:
/// a class pattern naming the root covers every subclass; one naming a subclass covers it and
/// its own subclasses.
pub open spec fn pattern_covers(
    nodes: Seq<ModuleDeclarations>,
    node: ModuleDeclarations,
    sn: ModuleDeclarations,
    sd: Declaration,
    pattern: MatchPattern,
) -> Set<Seq<char>> {
    match pattern {
        MatchPattern::Class(name) => match spec_base_of(nodes, node, name@) {
            Some((cn, cd)) => if cn.module_key@ == sn.module_key@ {
                if cd.name@ == sd.name@ {
                    spec_sealed_descendants(sn.declarations@, sd.name@)
                } else if descends_from(nodes, cn, cd, sd.name@) {
                    spec_sealed_descendants(sn.declarations@, cd.name@).insert(cd.name@)
                } else {
                    Set::empty()
                }
            } else {
                Set::empty()
            },
            None => Set::empty(),
        },
        _ => Set::empty(),
    }
}

/// The subclasses covered by the patterns of the unguarded case arms before case `i`, and by
/// the first `j` patterns of case `i`.
pub open spec fn covered_upto(
    nodes: Seq<ModuleDeclarations>,
    node: ModuleDeclarations,
    sn: ModuleDeclarations,
    sd: Declaration,
    site: MatchSite,
    i: int,
    j: int,
) -> Set<Seq<char>> {
    Set::new(
        |n: Seq<char>|
            exists|c: int, p: int|
                0 <= c < site.cases@.len() && (c < i || (c == i && p < j)) && !site.cases@[c].has_guard && 0 <= p
                    < site.cases@[c].patterns@.len() && #[trigger] pattern_covers(
                    nodes,
                    node,
                    sn,
                    sd,
                    site.cases@[c].patterns@[p],
                ).contains(n),
    )
}

/// The names of `names` that are not covered, in order.
pub open spec fn uncovered(names: Seq<Seq<char>>, covered: Set<Seq<char>>) -> Seq<Seq<char>>
    decreases names.len(),
{
    if names.len() == 0 {
        Seq::empty()
    } else {
        let prev = uncovered(names.drop_last(), covered);
        if covered.contains(names.last()) {
            prev
        } else {
            prev.push(names.last())
        }
    }
}

/// The case arms suggested for missing subclasses.
pub open spec fn rendered_class_cases(missing: Seq<Seq<char>>) -> Seq<Seq<char>> {
    Seq::new(missing.len(), |i: int| "case "@ + missing[i] + ":\n    ..."@)
}

/// The lines of the case arms of a `match`.
pub open spec fn case_lines(site: MatchSite) -> Seq<usize> {
    site.cases@.map_values(|c: crate::match_cases::MatchCaseSite| c.line)
}

/// A diagnostic with the suggested insertion of the missing case arms, when the insertion
/// point can be found in the source.
pub open spec fn spec_with_case_suggestion(
    d: DiagnosticView,
    source_path: Seq<char>,
    source: Option<Seq<char>>,
    site: MatchSite,
    rendered: Seq<Seq<char>>,
) -> DiagnosticView {
    match spec_match_case_insertion_edit(source_path, source, site.line as nat, case_lines(site), rendered) {
        Some((span, text)) => DiagnosticView {
            suggestions: d.suggestions.push(
                SuggestionView {
                    message: "Add missing `match` case arms"@,
                    span,
                    replacement: text,
                    applicability: SuggestionApplicability::MachineApplicable,
                },
            ),
            ..d
        },
        None => d,
    }
}

/// The error for a `match` over a value whose type is `subject`, when it misses subclasses of
/// the sealed root that the type leads to.
pub open spec fn spec_sealed_match_diagnostic(
    nodes: Seq<ModuleDeclarations>,
    node: ModuleDeclarations,
    site: MatchSite,
    subject: Seq<char>,
    source: Option<Seq<char>>,
) -> Option<DiagnosticView> {
    if has_unguarded_wildcard(site) {
        None
    } else {
        match sealed_root_of(nodes, node, subject) {
            None => None,
            Some((sn, sd)) => {
                let closure = sorted_descendants(sn.declarations@, sd.name@);
                let covered = covered_upto(nodes, node, sn, sd, site, site.cases@.len() as int, 0);
                let missing = uncovered(closure, covered);
                if closure.len() == 0 || missing.len() == 0 {
                    None
                } else {
                    Some(
                        spec_with_case_suggestion(
                            spec_diagnostic(
                                Severity::Error,
                                "TPY4009"@,
                                "non-exhaustive `match` over sealed root `"@ + sd.name@ + "` in module `"@
                                    + node.source_path@ + "`; missing subclasses: "@ + join_with(missing, ", "@),
                            ),
                            node.source_path@,
                            source,
                            site,
                            rendered_class_cases(missing),
                        ),
                    )
                }
            },
        }
    }
}

fn unguarded_wildcard(site: &MatchSite) -> (res: bool)
    ensures
        res == has_unguarded_wildcard(*site),
{
    let mut c: usize = 0;
    while c < site.cases.len()
        invariant
            c <= site.cases@.len(),
            forall|a: int, p: int|
                0 <= a < c && !site.cases@[a].has_guard && 0 <= p < site.cases@[a].patterns@.len()
                    ==> !(#[trigger] site.cases@[a].patterns@[p] is Wildcard),
        decreases site.cases@.len() - c,
    {
        let case = &site.cases[c];
        if !case.has_guard {
            let mut p: usize = 0;
            while p < case.patterns.len()
                invariant
                    p <= case.patterns@.len(),
                    c < site.cases@.len(),
                    *case == site.cases@[c as int],
                    !case.has_guard,
                    forall|q: int| 0 <= q < p ==> !(#[trigger] case.patterns@[q] is Wildcard),
                decreases case.patterns@.len() - p,
            {
                if let MatchPattern::Wildcard = &case.patterns[p] {
                    assert(site.cases@[c as int].patterns@[p as int] is Wildcard);
                    return true;
                }
                p = p + 1;
            }
        }
        c = c + 1;
    }
    false
}

/// Adds the names of `more` to `names`.
fn add_names(names: &mut Vec<String>, more: &Vec<String>)
    ensures
        forall|n: Seq<char>| #[trigger] string_views(final(names)@).contains(n) <==> (string_views(
            old(names)@,
        ).contains(n) || string_views(more@).contains(n)),
{
    let ghost start = string_views(names@);
    let mut k: usize = 0;
    while k < more.len()
        invariant
            k <= more@.len(),
            forall|n: Seq<char>| #[trigger] string_views(names@).contains(n) <==> (start.contains(n) || exists|q: int|
                0 <= q < k && more@[q]@ == n),
        decreases more@.len() - k,
    {
        let ghost before = string_views(names@);
        names.push(more[k].clone());
        proof {
            assert(string_views(names@) =~= before.push(more@[k as int]@));
            assert forall|n: Seq<char>| #[trigger] string_views(names@).contains(n) <==> (start.contains(n)
                || exists|q: int| 0 <= q < k + 1 && more@[q]@ == n) by {
                if string_views(names@).contains(n) && n != more@[k as int]@ {
                    let w = choose|w: int| 0 <= w < string_views(names@).len() && string_views(names@)[w] == n;
                    assert(before[w] == n);
                }
                if before.contains(n) {
                    let w = choose|w: int| 0 <= w < before.len() && before[w] == n;
                    assert(string_views(names@)[w] == n);
                }
                if n == more@[k as int]@ {
                    assert(string_views(names@)[before.len() as int] == n);
                }
                if exists|q: int| 0 <= q < k + 1 && more@[q]@ == n {
                    let q = choose|q: int| 0 <= q < k + 1 && more@[q]@ == n;
                    if q < k {
                        assert(exists|q2: int| 0 <= q2 < k && more@[q2]@ == n);
                    }
                }
            }
        }
        k = k + 1;
    }
    proof {
        assert forall|n: Seq<char>| #[trigger] string_views(more@).contains(n) <==> exists|q: int|
            0 <= q < more@.len() && more@[q]@ == n by {
            if string_views(more@).contains(n) {
                let w = choose|w: int| 0 <= w < more@.len() && string_views(more@)[w] == n;
            }
            if exists|q: int| 0 <= q < more@.len() && more@[q]@ == n {
                let q = choose|q: int| 0 <= q < more@.len() && more@[q]@ == n;
                assert(string_views(more@)[q] == n);
            }
        }
    }
}

/// The diagnostic with the suggested insertion of the missing case arms added, when the
/// insertion point can be found in the source text.
pub fn attach_match_case_suggestion(
    diagnostic: Diagnostic,
    source_path: &str,
    source: Option<&str>,
    site: &MatchSite,
    rendered_cases: &Vec<String>,
) -> (res: Diagnostic)
    requires
        match source {
            Some(s) => s@.len() + 8 <= usize::MAX,
            None => true,
        },
    ensures
        res@ == spec_with_case_suggestion(
            diagnostic@,
            source_path@,
            match source {
                Some(s) => Some(s@),
                None => None,
            },
            *site,
            string_views(rendered_cases@),
        ),
{
    let mut lines: Vec<usize> = Vec::new();
    let mut c: usize = 0;
    while c < site.cases.len()
        invariant
            c <= site.cases@.len(),
            lines@ == case_lines(*site).take(c as int),
        decreases site.cases@.len() - c,
    {
        lines.push(site.cases[c].line);
        assert(lines@ =~= case_lines(*site).take(c + 1));
        c = c + 1;
    }
    assert(lines@ =~= case_lines(*site));
    match match_case_insertion_edit(source_path, source, site.line, &lines, rendered_cases) {
        Some((span, text)) => {
            proof {
                reveal_strlit("Add missing `match` case arms");
            }
            diagnostic.with_suggestion(
                "Add missing `match` case arms",
                span,
                text,
                SuggestionApplicability::MachineApplicable,
            )
        },
        None => diagnostic,
    }
}

/// The error for a `match` over a value whose type is `subject_type`, when its unguarded case
/// arms miss subclasses of the sealed root that the type leads to; with the missing arms
/// suggested when the source text shows where they go.
pub fn sealed_match_exhaustiveness_diagnostic(
    node: &ModuleDeclarations,
    nodes: &Vec<ModuleDeclarations>,
    site: &MatchSite,
    subject_type: &str,
    source: Option<&str>,
) -> (res: Option<Diagnostic>)
    requires
        match source {
            Some(s) => s@.len() + 8 <= usize::MAX,
            None => true,
        },
    ensures
        match res {
            Some(d) => spec_sealed_match_diagnostic(
                nodes@,
                *node,
                *site,
                subject_type@,
                match source {
                    Some(s) => Some(s@),
                    None => None,
                },
            ) == Some(d@),
            None => spec_sealed_match_diagnostic(
                nodes@,
                *node,
                *site,
                subject_type@,
                match source {
                    Some(s) => Some(s@),
                    None => None,
                },
            ) is None,
        },
{
    if unguarded_wildcard(site) {
        return None;
    }
    let (sn, sd) = match resolve_sealed_root(nodes, node, subject_type) {
        Some(found) => found,
        None => return None,
    };
    let closure = collect_sealed_descendants(sn, &sd.name);
    if closure.len() == 0 {
        return None;
    }
    let mut covered: Vec<String> = Vec::new();
    let mut c: usize = 0;
    while c < site.cases.len()
        invariant
            c <= site.cases@.len(),
            sealed_root_of(nodes@, *node, subject_type@) == Some((*sn, *sd)),
            string_views(closure@) == sorted_descendants(sn.declarations@, sd.name@),
            forall|n: Seq<char>| #[trigger] string_views(closure@).contains(n) <==> spec_sealed_descendants(
                sn.declarations@,
                sd.name@,
            ).contains(n),
            forall|n: Seq<char>| #[trigger] string_views(covered@).contains(n) <==> covered_upto(
                nodes@,
                *node,
                *sn,
                *sd,
                *site,
                c as int,
                0,
            ).contains(n),
        decreases site.cases@.len() - c,
    {
        let case = &site.cases[c];
        let mut p: usize = 0;
        while p < case.patterns.len()
            invariant
                p <= case.patterns@.len(),
                c < site.cases@.len(),
                *case == site.cases@[c as int],
                sealed_root_of(nodes@, *node, subject_type@) == Some((*sn, *sd)),
                forall|n: Seq<char>| #[trigger] string_views(closure@).contains(n) <==> spec_sealed_descendants(
                    sn.declarations@,
                    sd.name@,
                ).contains(n),
                forall|n: Seq<char>| #[trigger] string_views(covered@).contains(n) <==> covered_upto(
                    nodes@,
                    *node,
                    *sn,
                    *sd,
                    *site,
                    c as int,
                    if case.has_guard { 0 } else { p as int },
                ).contains(n),
            decreases case.patterns@.len() - p,
        {
            let ghost before = string_views(covered@);
            let ghost j = if case.has_guard { 0int } else { p as int };
            let ghost j2 = if case.has_guard { 0int } else { p + 1 };
            let ghost pat = site.cases@[c as int].patterns@[p as int];
            let ghost contribution = pattern_covers(nodes@, *node, *sn, *sd, pat);
            if !case.has_guard {
                if let MatchPattern::Class(name) = &case.patterns[p] {
                    if let Some((cn, cd)) = resolve_direct_base(nodes, node, name) {
                        if str_eq(&cn.module_key, &sn.module_key) {
                            if str_eq(&cd.name, &sd.name) {
                                proof {
                                    assert(pat == MatchPattern::Class(*name));
                                    assert(contribution == spec_sealed_descendants(sn.declarations@, sd.name@));
                                }
                                add_names(&mut covered, &closure);
                            } else if sealed_descends_from(nodes, cn, cd, &sd.name) {
                                let mut more = collect_sealed_descendants(sn, &cd.name);
                                let ghost m0 = string_views(more@);
                                more.push(cd.name.clone());
                                proof {
                                    assert(pat == MatchPattern::Class(*name));
                                    assert(contribution == spec_sealed_descendants(sn.declarations@, cd.name@).insert(
                                        cd.name@,
                                    ));
                                    assert(string_views(more@) =~= m0.push(cd.name@));
                                    assert forall|n: Seq<char>| #[trigger] string_views(more@).contains(n) <==> contribution.contains(n) by {
                                        let ms = string_views(more@);
                                        let prev = m0;
                                        assert(ms[ms.len() - 1] == cd.name@);
                                        if ms.contains(n) && n != cd.name@ {
                                            let w = choose|w: int| 0 <= w < ms.len() && ms[w] == n;
                                            assert(prev[w] == n);
                                        }
                                        if prev.contains(n) {
                                            let w = choose|w: int| 0 <= w < prev.len() && prev[w] == n;
                                            assert(ms[w] == n);
                                        }
                                    }
                                }
                                add_names(&mut covered, &more);
                            }
                        }
                    }
                }
            }
            proof {
                assert forall|n: Seq<char>| #[trigger] string_views(covered@).contains(n) <==> covered_upto(
                    nodes@,
                    *node,
                    *sn,
                    *sd,
                    *site,
                    c as int,
                    j2,
                ).contains(n) by {
                    let old_set = covered_upto(nodes@, *node, *sn, *sd, *site, c as int, j);
                    let new_set = covered_upto(nodes@, *node, *sn, *sd, *site, c as int, j2);
                    if !case.has_guard {
                        if old_set.contains(n) {
                            let (a, b) = choose|a: int, b: int|
                                0 <= a < site.cases@.len() && (a < c || (a == c && b < j)) && !site.cases@[a].has_guard
                                    && 0 <= b < site.cases@[a].patterns@.len() && #[trigger] pattern_covers(
                                    nodes@,
                                    *node,
                                    *sn,
                                    *sd,
                                    site.cases@[a].patterns@[b],
                                ).contains(n);
                            assert(new_set.contains(n));
                        }
                        if contribution.contains(n) {
                            assert(new_set.contains(n));
                        }
                        if new_set.contains(n) {
                            let (a, b) = choose|a: int, b: int|
                                0 <= a < site.cases@.len() && (a < c || (a == c && b < j2)) && !site.cases@[a].has_guard
                                    && 0 <= b < site.cases@[a].patterns@.len() && #[trigger] pattern_covers(
                                    nodes@,
                                    *node,
                                    *sn,
                                    *sd,
                                    site.cases@[a].patterns@[b],
                                ).contains(n);
                            if !(a == c && b == p) {
                                assert(old_set.contains(n));
                            }
                        }
                    } else {
                        assert(old_set == new_set);
                    }
                }
            }
            p = p + 1;
        }
        proof {
            assert forall|n: Seq<char>| #[trigger] string_views(covered@).contains(n) <==> covered_upto(
                nodes@,
                *node,
                *sn,
                *sd,
                *site,
                c + 1,
                0,
            ).contains(n) by {
                let old_set = covered_upto(
                    nodes@,
                    *node,
                    *sn,
                    *sd,
                    *site,
                    c as int,
                    if case.has_guard { 0 } else { p as int },
                );
                let new_set = covered_upto(nodes@, *node, *sn, *sd, *site, c + 1, 0);
                if new_set.contains(n) {
                    let (a, b) = choose|a: int, b: int|
                        0 <= a < site.cases@.len() && (a < c + 1 || (a == c + 1 && b < 0)) && !site.cases@[a].has_guard
                            && 0 <= b < site.cases@[a].patterns@.len() && #[trigger] pattern_covers(
                            nodes@,
                            *node,
                            *sn,
                            *sd,
                            site.cases@[a].patterns@[b],
                        ).contains(n);
                    assert(old_set.contains(n));
                }
                if old_set.contains(n) {
                    let (a, b) = choose|a: int, b: int|
                        0 <= a < site.cases@.len() && (a < c || (a == c && b < (if case.has_guard { 0 } else { p as int })))
                            && !site.cases@[a].has_guard && 0 <= b < site.cases@[a].patterns@.len()
                            && #[trigger] pattern_covers(nodes@, *node, *sn, *sd, site.cases@[a].patterns@[b]).contains(n);
                    assert(new_set.contains(n));
                }
            }
        }
        c = c + 1;
    }
    let ghost covered_set = covered_upto(nodes@, *node, *sn, *sd, *site, site.cases@.len() as int, 0);
    let ghost cv = string_views(closure@);
    let mut missing: Vec<String> = Vec::new();
    let mut k: usize = 0;
    assert(cv.take(0) =~= Seq::<Seq<char>>::empty());
    while k < closure.len()
        invariant
            k <= closure@.len(),
            cv == string_views(closure@),
            forall|n: Seq<char>| #[trigger] string_views(covered@).contains(n) <==> covered_set.contains(n),
            string_views(missing@) == uncovered(cv.take(k as int), covered_set),
        decreases closure@.len() - k,
    {
        assert(cv.take(k + 1).drop_last() =~= cv.take(k as int));
        assert(cv.take(k + 1).last() == closure@[k as int]@);
        if !names_contain(&covered, &closure[k]) {
            let ghost before = string_views(missing@);
            missing.push(closure[k].clone());
            assert(string_views(missing@) =~= before.push(closure@[k as int]@));
        }
        k = k + 1;
    }
    assert(cv.take(closure@.len() as int) =~= cv);
    if missing.len() == 0 {
        assert(string_views(missing@).len() == 0);
        return None;
    }
    let mut message = owned("non-exhaustive `match` over sealed root `");
    message.append(&sd.name);
    message.append("` in module `");
    message.append(&node.source_path);
    message.append("`; missing subclasses: ");
    proof {
        reveal_strlit(", ");
    }
    let joined = join_strings(&missing, ", ");
    message.append(&joined);
    let mut rendered: Vec<String> = Vec::new();
    let mut r: usize = 0;
    let ghost mv = string_views(missing@);
    while r < missing.len()
        invariant
            r <= missing@.len(),
            mv == string_views(missing@),
            string_views(rendered@) == rendered_class_cases(mv).take(r as int),
        decreases missing@.len() - r,
    {
        let mut case_text = owned("case ");
        case_text.append(&missing[r]);
        case_text.append(":\n    ...");
        proof {
            reveal_strlit("case ");
            reveal_strlit(":\n    ...");
        }
        let ghost before = string_views(rendered@);
        assert(mv[r as int] == missing@[r as int]@);
        assert(case_text@ == rendered_class_cases(mv)[r as int]);
        rendered.push(case_text);
        assert(string_views(rendered@) =~= before.push(case_text@));
        assert(string_views(rendered@) =~= rendered_class_cases(mv).take(r + 1));
        r = r + 1;
    }
    assert(rendered_class_cases(mv).take(missing@.len() as int) =~= rendered_class_cases(mv));
    proof {
        reveal_strlit("non-exhaustive `match` over sealed root `");
        reveal_strlit("` in module `");
        reveal_strlit("`; missing subclasses: ");
        assert(missing@.map_values(|s: String| s@) =~= mv);
    }
    let diagnostic = Diagnostic::error("TPY4009", message);
    Some(attach_match_case_suggestion(diagnostic, &node.source_path, source, site, &rendered))
}

/// The sealed-hierarchy exhaustiveness errors of the first `match` statements of a module,
/// each given with the type of its subject when that type is known.
pub open spec fn spec_sealed_match_diagnostics(
    nodes: Seq<ModuleDeclarations>,
    node: ModuleDeclarations,
    matches: Seq<(MatchSite, Option<String>)>,
    source: Option<Seq<char>>,
) -> Seq<DiagnosticView>
    decreases matches.len(),
{
    if matches.len() == 0 {
        Seq::empty()
    } else {
        let prev = spec_sealed_match_diagnostics(nodes, node, matches.drop_last(), source);
        match matches.last().1 {
            Some(subject) => match spec_sealed_match_diagnostic(nodes, node, matches.last().0, subject@, source) {
                Some(d) => prev.push(d),
                None => prev,
            },
            None => prev,
        }
    }
}

/// The sealed-hierarchy exhaustiveness errors of the `match` statements of a module, each given
/// with the type of its subject when that type is known.
pub fn sealed_match_exhaustiveness_diagnostics(
    node: &ModuleDeclarations,
    nodes: &Vec<ModuleDeclarations>,
    matches: &Vec<(MatchSite, Option<String>)>,
    source: Option<&str>,
) -> (res: Vec<Diagnostic>)
    requires
        match source {
            Some(s) => s@.len() + 8 <= usize::MAX,
            None => true,
        },
    ensures
        res@.map_values(|d: Diagnostic| d@) == spec_sealed_match_diagnostics(
            nodes@,
            *node,
            matches@,
            match source {
                Some(s) => Some(s@),
                None => None,
            },
        ),
{
    let ghost src = match source {
        Some(s) => Some(s@),
        None => None,
    };
    let mut out: Vec<Diagnostic> = Vec::new();
    let mut i: usize = 0;
    assert(matches@.take(0) =~= Seq::<(MatchSite, Option<String>)>::empty());
    assert(out@.map_values(|d: Diagnostic| d@) =~= Seq::<DiagnosticView>::empty());
    while i < matches.len()
        invariant
            i <= matches@.len(),
            src == (match source {
                Some(s) => Some(s@),
                None => None,
            }),
            match source {
                Some(s) => s@.len() + 8 <= usize::MAX,
                None => true,
            },
            out@.map_values(|d: Diagnostic| d@) == spec_sealed_match_diagnostics(nodes@, *node, matches@.take(i as int), src),
        decreases matches@.len() - i,
    {
        let entry = &matches[i];
        assert(matches@.take(i + 1).drop_last() =~= matches@.take(i as int));
        assert(matches@.take(i + 1).last() == *entry);
        if let Some(subject) = &entry.1 {
            if let Some(d) = sealed_match_exhaustiveness_diagnostic(node, nodes, &entry.0, subject, source) {
                let ghost before = out@.map_values(|x: Diagnostic| x@);
                out.push(d);
                assert(out@.map_values(|x: Diagnostic| x@) =~= before.push(d@));
            }
        }
        i = i + 1;
    }
    assert(matches@.take(matches@.len() as int) =~= matches@);
    out
}

} // verus!
