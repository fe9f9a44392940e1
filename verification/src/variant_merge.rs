//! Merging the diagnostics of a method call checked once per type its receiver may have: a
//! diagnostic that an earlier receiver type already reported is matched against it once, and
//! only the ones left over are added.
use vstd::prelude::*;
use crate::diagnostics::{Diagnostic, DiagnosticView, Span, Suggestion};
use crate::source_calls::views_of;
use crate::text::str_eq;

verus! {

/// The first position from `from` on, among the first `matched.len()` diagnostics of `branch`,
/// that is not matched yet and holds `d`.
pub open spec fn first_free(
    branch: Seq<DiagnosticView>,
    matched: Seq<bool>,
    d: DiagnosticView,
    from: nat,
) -> Option<nat>
    decreases matched.len() - from,
{
    if from >= matched.len() {
        None
    } else if !matched[from as int] && branch[from as int] == d {
        Some(from)
    } else {
        first_free(branch, matched, d, from + 1)
    }
}

/// Adds the diagnostics of `variant` to `branch`: each one that equals a diagnostic of `branch`
/// not matched yet (among those flagged in `matched`) matches the first such one; the others
/// are appended in order.
pub open spec fn merge_step(
    branch: Seq<DiagnosticView>,
    matched: Seq<bool>,
    variant: Seq<DiagnosticView>,
) -> Seq<DiagnosticView>
    decreases variant.len(),
{
    if variant.len() == 0 {
        branch
    } else {
        match first_free(branch, matched, variant[0], 0) {
            Some(j) => merge_step(branch, matched.update(j as int, true), variant.drop_first()),
            None => merge_step(branch.push(variant[0]), matched, variant.drop_first()),
        }
    }
}

/// The diagnostics of the first `n` receiver types, merged in order.
pub open spec fn spec_merge_variants(variants: Seq<Seq<DiagnosticView>>, n: nat) -> Seq<DiagnosticView>
    decreases n,
{
    if n == 0 {
        Seq::empty()
    } else if n == 1 {
        variants[0]
    } else {
        let prev = spec_merge_variants(variants, (n - 1) as nat);
        merge_step(prev, Seq::new(prev.len(), |i: int| false), variants[n - 1])
    }
}

fn same_strings(a: &Vec<String>, b: &Vec<String>) -> (res: bool)
    ensures
        res == (a@.map_values(|s: String| s@) == b@.map_values(|s: String| s@)),
{
    if a.len() != b.len() {
        assert(a@.map_values(|s: String| s@).len() != b@.map_values(|s: String| s@).len());
        return false;
    }
    let mut i: usize = 0;
    while i < a.len()
        invariant
            a@.len() == b@.len(),
            i <= a@.len(),
            forall|j: int| 0 <= j < i ==> a@[j]@ == b@[j]@,
        decreases a@.len() - i,
    {
        if !str_eq(&a[i], &b[i]) {
            assert(a@.map_values(|s: String| s@)[i as int] != b@.map_values(|s: String| s@)[i as int]);
            return false;
        }
        i = i + 1;
    }
    assert(a@.map_values(|s: String| s@) =~= b@.map_values(|s: String| s@));
    true
}

fn same_span(a: &Span, b: &Span) -> (res: bool)
    ensures
        res == (a@ == b@),
{
    str_eq(&a.path, &b.path) && a.line == b.line && a.column == b.column && a.end_line == b.end_line && a.end_column
        == b.end_column
}

fn same_suggestions(a: &Vec<Suggestion>, b: &Vec<Suggestion>) -> (res: bool)
    ensures
        res == (a@.map_values(|x: Suggestion| x@) == b@.map_values(|x: Suggestion| x@)),
{
    if a.len() != b.len() {
        assert(a@.map_values(|x: Suggestion| x@).len() != b@.map_values(|x: Suggestion| x@).len());
        return false;
    }
    let mut i: usize = 0;
    while i < a.len()
        invariant
            a@.len() == b@.len(),
            i <= a@.len(),
            forall|j: int| 0 <= j < i ==> a@[j]@ == b@[j]@,
        decreases a@.len() - i,
    {
        let same = str_eq(&a[i].message, &b[i].message) && same_span(&a[i].span, &b[i].span) && str_eq(
            &a[i].replacement,
            &b[i].replacement,
        );
        if !same {
            assert(a@.map_values(|x: Suggestion| x@)[i as int] != b@.map_values(|x: Suggestion| x@)[i as int]);
            return false;
        }
        assert(a@[i as int].applicability == b@[i as int].applicability);
        i = i + 1;
    }
    assert(a@.map_values(|x: Suggestion| x@) =~= b@.map_values(|x: Suggestion| x@));
    true
}

/// Whether two diagnostics are the same in every part.
pub fn same_diagnostic(a: &Diagnostic, b: &Diagnostic) -> (res: bool)
    ensures
        res == (a@ == b@),
{
    if !str_eq(&a.code, &b.code) || a.severity != b.severity || !str_eq(&a.message, &b.message) {
        return false;
    }
    if !same_strings(&a.notes, &b.notes) {
        return false;
    }
    let spans = match (&a.span, &b.span) {
        (Some(x), Some(y)) => same_span(x, y),
        (None, None) => true,
        _ => false,
    };
    if !spans {
        return false;
    }
    same_suggestions(&a.suggestions, &b.suggestions)
}

/// Merges the diagnostics `variant` of one more receiver type into `branch`, as `merge_step`
/// says, starting with no diagnostic matched.
pub fn merge_variant_diagnostics(branch: &mut Vec<Diagnostic>, variant: Vec<Diagnostic>)
    ensures
        views_of(final(branch)@) == merge_step(
            views_of(old(branch)@),
            Seq::new(old(branch)@.len(), |i: int| false),
            views_of(variant@),
        ),
{
    let n = branch.len();
    let mut matched: Vec<bool> = Vec::new();
    while matched.len() < n
        invariant
            matched@.len() <= n,
            forall|j: int| 0 <= j < matched@.len() ==> !matched@[j],
        decreases n - matched@.len(),
    {
        matched.push(false);
    }
    assert(matched@ =~= Seq::new(n as nat, |i: int| false));
    let ghost goal = merge_step(views_of(branch@), matched@, views_of(variant@));
    let ghost vv = views_of(variant@);
    let ghost all = variant@;
    let total = variant.len();
    let mut rest = variant;
    let mut k: usize = 0;
    assert(vv.skip(0) =~= vv);
    while rest.len() > 0
        invariant
            k <= total,
            all.len() == total,
            k + rest@.len() == total,
            rest@ == all.skip(k as int),
            vv == views_of(all),
            matched@.len() == n,
            n <= branch@.len(),
            goal == merge_step(views_of(branch@), matched@, vv.skip(k as int)),
        decreases rest@.len(),
    {
        let d = rest.remove(0);
        assert(rest@ =~= all.skip(k + 1));
        let ghost bv = views_of(branch@);
        assert(vv.skip(k as int)[0] == d@);
        assert(vv.skip(k as int).drop_first() =~= vv.skip(k + 1));
        let mut j: usize = 0;
        let mut found: Option<usize> = None;
        while j < n
            invariant
                j <= n,
                n == matched@.len(),
                n <= branch@.len(),
                bv == views_of(branch@),
                found is None ==> first_free(bv, matched@, d@, 0) == first_free(bv, matched@, d@, j as nat),
                found matches Some(f) ==> first_free(bv, matched@, d@, 0) == Some(f as nat) && f < n,
            decreases n - j,
        {
            if found.is_none() {
                if !matched[j] && same_diagnostic(&branch[j], &d) {
                    assert(bv[j as int] == branch@[j as int]@);
                    found = Some(j);
                } else {
                    assert(bv[j as int] == branch@[j as int]@);
                    assert(first_free(bv, matched@, d@, j as nat) == first_free(bv, matched@, d@, (j + 1) as nat));
                }
            }
            j = j + 1;
        }
        match found {
            Some(f) => {
                matched.set(f, true);
            },
            None => {
                branch.push(d);
                assert(views_of(branch@) =~= bv.push(d@));
            },
        }
        k = k + 1;
    }
    assert(vv.skip(k as int) =~= Seq::<DiagnosticView>::empty());
}

/// The diagnostic lists taken by their views.
pub open spec fn variant_views(vs: Seq<Vec<Diagnostic>>) -> Seq<Seq<DiagnosticView>> {
    vs.map_values(|v: Vec<Diagnostic>| views_of(v@))
}

/// The diagnostics of a method call whose receiver may have several types, given the
/// diagnostics for each type in order: those of the first type, then, for each further type,
/// those not matched by a diagnostic already reported.
pub fn merge_receiver_variant_diagnostics(variants: Vec<Vec<Diagnostic>>) -> (res: Vec<Diagnostic>)
    ensures
        views_of(res@) == spec_merge_variants(variant_views(variants@), variants@.len()),
{
    let ghost all = variants@;
    let total = variants.len();
    let mut rest = variants;
    if rest.len() == 0 {
        let out: Vec<Diagnostic> = Vec::new();
        assert(views_of(out@) =~= Seq::<DiagnosticView>::empty());
        return out;
    }
    let mut out = rest.remove(0);
    let mut k: usize = 1;
    assert(rest@ =~= all.skip(1));
    while rest.len() > 0
        invariant
            1 <= k <= total,
            all.len() == total,
            k + rest@.len() == total,
            rest@ == all.skip(k as int),
            views_of(out@) == spec_merge_variants(variant_views(all), k as nat),
        decreases rest@.len(),
    {
        let v = rest.remove(0);
        assert(rest@ =~= all.skip(k + 1));
        assert(variant_views(all)[k as int] == views_of(v@));
        merge_variant_diagnostics(&mut out, v);
        k = k + 1;
    }
    out
}

proof fn lemma_merge_step_prefix(branch: Seq<DiagnosticView>, matched: Seq<bool>, variant: Seq<DiagnosticView>)
    ensures
        merge_step(branch, matched, variant).len() >= branch.len(),
        merge_step(branch, matched, variant).take(branch.len() as int) == branch,
    decreases variant.len(),
{
    if variant.len() > 0 {
        match first_free(branch, matched, variant[0], 0) {
            Some(j) => lemma_merge_step_prefix(branch, matched.update(j as int, true), variant.drop_first()),
            None => {
                let b2 = branch.push(variant[0]);
                lemma_merge_step_prefix(b2, matched, variant.drop_first());
                let r = merge_step(b2, matched, variant.drop_first());
                assert(r.take(branch.len() as int) =~= r.take(b2.len() as int).take(branch.len() as int));
                assert(b2.take(branch.len() as int) =~= branch);
            },
        }
    } else {
        assert(branch.take(branch.len() as int) =~= branch);
    }
}

proof fn lemma_first_free_skips_matched(
    branch: Seq<DiagnosticView>,
    matched: Seq<bool>,
    d: DiagnosticView,
    from: nat,
    upto: nat,
)
    requires
        from <= upto <= matched.len(),
        forall|j: int| from <= j < upto ==> matched[j],
    ensures
        first_free(branch, matched, d, from) == first_free(branch, matched, d, upto),
    decreases upto - from,
{
    if from < upto {
        lemma_first_free_skips_matched(branch, matched, d, from + 1, upto);
    }
}

proof fn lemma_merge_with_itself(branch: Seq<DiagnosticView>, i: nat)
    requires
        i <= branch.len(),
    ensures
        merge_step(branch, Seq::new(branch.len(), |j: int| j < i), branch.skip(i as int)) == branch,
    decreases branch.len() - i,
{
    let matched = Seq::new(branch.len(), |j: int| j < i);
    if i < branch.len() {
        let rest = branch.skip(i as int);
        assert(rest[0] == branch[i as int]);
        lemma_first_free_skips_matched(branch, matched, branch[i as int], 0, i);
        assert(first_free(branch, matched, branch[i as int], i) == Some(i));
        let next = Seq::new(branch.len(), |j: int| j < i + 1);
        assert(matched.update(i as int, true) =~= next);
        assert(rest.drop_first() =~= branch.skip((i + 1) as int));
        lemma_merge_with_itself(branch, i + 1);
    } else {
        assert(branch.skip(i as int) =~= Seq::<DiagnosticView>::empty());
    }
}

/// Merging the diagnostics of a further receiver type keeps every diagnostic already reported,
/// in its place; and a type that reports exactly what was already reported adds nothing.
pub proof fn law_merge_keeps_reported(branch: Seq<DiagnosticView>, variant: Seq<DiagnosticView>)
    ensures
        ({
            let merged = merge_step(branch, Seq::new(branch.len(), |i: int| false), variant);
            merged.len() >= branch.len() && merged.take(branch.len() as int) == branch
        }),
        merge_step(branch, Seq::new(branch.len(), |i: int| false), branch) == branch,
{
    lemma_merge_step_prefix(branch, Seq::new(branch.len(), |i: int| false), variant);
    lemma_merge_with_itself(branch, 0);
    assert(Seq::new(branch.len(), |j: int| j < 0) =~= Seq::new(branch.len(), |i: int| false));
    assert(branch.skip(0) =~= branch);
}

} // verus!
