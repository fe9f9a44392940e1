//! Properties that hold across the library's operations: how effect rows render, what covering
//! and extending rows mean, how taint contexts meet, and what the call warnings report.
use vstd::prelude::*;
use crate::effect_diagnostics::{CheckView, ReportKey, spec_check_warning, spec_effect_warnings};
use crate::effect_row::{
    SpecEffectKind, is_builtin_label, lemma_row_set_eq, sorted_kinds, spec_kind_from_label,
    spec_label, spec_labels,
};
use crate::effect_summary::{CapabilityScope, EffectSummary};
use crate::declarations::opt_name_lt;
use crate::hierarchy::{
    ModuleDeclarations, descendants_within, lemma_sorted_descendants, sealed_root_of, sorted_descendants,
    spec_base_of, spec_sealed_descendants, subclass_names,
};
use crate::exhaustiveness::{covered_upto, has_unguarded_wildcard, pattern_covers, spec_sealed_match_diagnostic, uncovered};
use crate::match_cases::MatchSite;
use crate::semantic_types::MatchPattern;
use crate::declarations::Declaration;
use crate::semantic_types::{
    ParamsView, TypeView, spec_substitute_self, spec_substitute_self_all, spec_substitute_self_params,
};
use crate::effect_collect::{
    FactView, fact_key_lt, spec_fact_kept, spec_fact_of_summary, spec_insert_fact, spec_kept_labels, spec_label_kept,
    spec_selected_facts, spec_sort_facts,
};
use crate::text::{chars_lt, lemma_chars_lt_asymmetric, lemma_chars_lt_irreflexive, lemma_chars_lt_total, lemma_chars_lt_transitive};
use crate::generic_solution::FunctionParamSite;
use crate::source_calls::{
    filled_names, named, spec_bound_twice_diags, spec_keyword_diags, spec_source_function_keyword_diagnostics,
};
use crate::sites::CallSite;
use crate::diagnostics::DiagnosticView;
use crate::declarations::string_views;
use crate::hierarchy::{first_index, lemma_first_index};
use crate::typed_dict::TypedDictShape;
use crate::frozen_fields::{FrozenFieldMutationSite, spec_frozen_mutation_diagnostic, spec_should_defer_to_frozen_checks};
use crate::dataclass_checks::{DataclassTransformClassShape, FieldShapeView};
use crate::dataclass_shapes::{
    DataclassClassSite, DataclassTransformMetadata, named_field, plain_maker, shape_views, spec_inherited_fields,
    spec_merge_field, spec_merge_fields, spec_merge_local, spec_plain_dataclass_shape, spec_transform_class_shape,
    transform_maker, DataclassFieldSite,
};
use crate::taint::{spec_context_matches, spec_matching_required, spec_sanitizer_covers, spec_unsanitized_after};

verus! {

/// An effect row renders the same labels whatever order its effects were inserted in: two
/// well-formed rows that hold the same effects hold them in the same order.
pub proof fn law_row_labels_depend_only_on_effects(a: Seq<SpecEffectKind>, b: Seq<SpecEffectKind>)
    requires
        sorted_kinds(a),
        sorted_kinds(b),
        a.to_set() == b.to_set(),
    ensures
        a == b,
        spec_labels(a) == spec_labels(b),
{
    lemma_row_set_eq(a, b);
}

/// Inserting two effects in either order gives the same row.
pub proof fn law_row_insert_commutes(
    base: Set<SpecEffectKind>,
    x: SpecEffectKind,
    y: SpecEffectKind,
    first: Seq<SpecEffectKind>,
    second: Seq<SpecEffectKind>,
)
    requires
        sorted_kinds(first),
        sorted_kinds(second),
        first.to_set() == base.insert(x).insert(y),
        second.to_set() == base.insert(y).insert(x),
    ensures
        first == second,
{
    assert(base.insert(x).insert(y) =~= base.insert(y).insert(x));
    lemma_row_set_eq(first, second);
}

/// Inserting an effect the row already holds leaves the row as it was.
pub proof fn law_row_insert_present_is_identity(row: Seq<SpecEffectKind>, x: SpecEffectKind, after: Seq<SpecEffectKind>)
    requires
        sorted_kinds(row),
        sorted_kinds(after),
        row.contains(x),
        after.to_set() == row.to_set().insert(x),
    ensures
        after == row,
{
    assert(row.to_set().contains(x));
    assert(row.to_set().insert(x) =~= row.to_set());
    lemma_row_set_eq(after, row);
}

/// Reading a label back gives the effect it was rendered from, unless the effect is a declared
/// effect whose name is the label of a built-in effect.
pub proof fn law_label_round_trip(k: SpecEffectKind)
    requires
        !(k matches SpecEffectKind::Declared(name) && is_builtin_label(name)),
    ensures
        spec_kind_from_label(spec_label(k)) == k,
{
    match k {
        SpecEffectKind::Declared(name) => {
            assert(!is_builtin_label(name));
            assert(spec_kind_from_label(name) is Declared);
            assert(name != "unsafe"@ && name != "io.fs"@ && name != "io.net"@ && name != "io.proc"@);
            assert(name != "time"@ && name != "random"@ && name != "runtime.validation"@);
            assert(name != "taint.sanitize"@);
            assert(spec_kind_from_label(name) == SpecEffectKind::Declared(name));
            assert(spec_label(k) == name);
            assert(k == SpecEffectKind::Declared(name));
        },
        _ => {
            reveal_strlit("unsafe");
            reveal_strlit("io.fs");
            reveal_strlit("io.net");
            reveal_strlit("io.proc");
            reveal_strlit("time");
            reveal_strlit("random");
            reveal_strlit("runtime.validation");
            reveal_strlit("taint.sanitize");
            assert("unsafe"@.len() == 6 && "io.fs"@.len() == 5 && "io.net"@.len() == 6);
            assert("io.proc"@.len() == 7 && "time"@.len() == 4 && "random"@.len() == 6);
            assert("runtime.validation"@.len() == 18 && "taint.sanitize"@.len() == 14);
            assert("unsafe"@[0] != "io.net"@[0] && "unsafe"@[0] != "random"@[0] && "io.net"@[0] != "random"@[0]);
            assert("io.fs"@[3] != "io.net"@[3]);
        },
    }
}

/// A row rebuilt from a row's labels is the row itself, when none of its declared effects is
/// named like a built-in effect.
pub proof fn law_row_from_labels_round_trip(row: Seq<SpecEffectKind>, rebuilt: Seq<SpecEffectKind>)
    requires
        sorted_kinds(row),
        forall|i: int|
            0 <= i < row.len() ==> !(#[trigger] row[i] matches SpecEffectKind::Declared(name) && is_builtin_label(
                name,
            )),
        sorted_kinds(rebuilt),
        rebuilt.to_set() == spec_labels(row).map_values(|l: Seq<char>| spec_kind_from_label(l)).to_set(),
    ensures
        rebuilt == row,
{
    let back = spec_labels(row).map_values(|l: Seq<char>| spec_kind_from_label(l));
    assert forall|i: int| 0 <= i < row.len() implies back[i] == row[i] by {
        law_label_round_trip(row[i]);
    }
    assert(back =~= row);
    lemma_row_set_eq(rebuilt, row);
}

/// Every row covers itself.
pub proof fn law_covers_reflexive(row: Seq<SpecEffectKind>)
    ensures
        row.to_set().subset_of(row.to_set()),
{
}

/// Covering is transitive: a row that covers a second row covers whatever the second covers.
pub proof fn law_covers_transitive(a: Seq<SpecEffectKind>, b: Seq<SpecEffectKind>, c: Seq<SpecEffectKind>)
    requires
        b.to_set().subset_of(a.to_set()),
        c.to_set().subset_of(b.to_set()),
    ensures
        c.to_set().subset_of(a.to_set()),
{
}

/// A row extended by another covers both rows it was made from.
pub proof fn law_extend_covers_both(before: Seq<SpecEffectKind>, other: Seq<SpecEffectKind>, after: Seq<SpecEffectKind>)
    requires
        after.to_set() == before.to_set().union(other.to_set()),
    ensures
        before.to_set().subset_of(after.to_set()),
        other.to_set().subset_of(after.to_set()),
{
}

/// The empty row is covered by every row.
pub proof fn law_empty_row_is_covered(row: Seq<SpecEffectKind>)
    ensures
        Seq::<SpecEffectKind>::empty().to_set().subset_of(row.to_set()),
{
}

/// Whether a source context reaches a sink context does not depend on which is which.
pub proof fn law_context_match_symmetric(a: Option<Seq<char>>, b: Option<Seq<char>>)
    ensures
        spec_context_matches(a, b) == spec_context_matches(b, a),
{
}

/// An unrestricted sanitizer removes taint in every required context; any sanitizer leaves
/// tainted only contexts that were required.
pub proof fn law_unsanitized_within_required(
    sanitizer: Set<Option<Seq<char>>>,
    required: Set<Option<Seq<char>>>,
)
    ensures
        spec_unsanitized_after(sanitizer, Some(required)).subset_of(required),
        sanitizer.contains(None) ==> spec_unsanitized_after(sanitizer, Some(required)) == Set::<
            Option<Seq<char>>,
        >::empty(),
        spec_unsanitized_after(sanitizer, None) == Set::<Option<Seq<char>>>::empty(),
{
    if sanitizer.contains(None) {
        assert forall|r: Option<Seq<char>>| !spec_unsanitized_after(sanitizer, Some(required)).contains(r) by {
            assert(spec_sanitizer_covers(None, r));
        }
        assert(spec_unsanitized_after(sanitizer, Some(required)) =~= Set::<Option<Seq<char>>>::empty());
    }
}

/// The contexts that reach some required context are among the contexts given; with nothing
/// required they are all of them, and an unrestricted context always reaches a non-empty
/// requirement.
pub proof fn law_matching_required_within_contexts(
    contexts: Set<Option<Seq<char>>>,
    required: Option<Set<Option<Seq<char>>>>,
)
    ensures
        spec_matching_required(contexts, required).subset_of(contexts),
        required is None ==> spec_matching_required(contexts, required) == contexts,
        (required matches Some(req) && req.len() > 0 && req.finite() && contexts.contains(None))
            ==> spec_matching_required(contexts, required).contains(None),
{
    if let Some(req) = required {
        if req.len() > 0 && req.finite() && contexts.contains(None) {
            let r = req.choose();
            assert(req.contains(r));
            assert(spec_context_matches(None, r));
        }
    }
}

/// The key of the warning a check raises, if it raises one.
pub open spec fn warning_key_of(
    path: Seq<char>,
    summaries: Seq<EffectSummary>,
    scopes: Seq<CapabilityScope>,
    check: CheckView,
) -> Option<ReportKey> {
    match spec_check_warning(path, summaries, scopes, check) {
        Some((k, _)) => Some(k),
        None => None,
    }
}

/// The keys of the checks that raise a warning.
pub open spec fn warning_keys(
    summaries: Seq<EffectSummary>,
    scopes: Seq<CapabilityScope>,
    path: Seq<char>,
    checks: Seq<CheckView>,
) -> Set<ReportKey> {
    Set::new(
        |key: ReportKey|
            exists|i: int|
                0 <= i < checks.len() && #[trigger] warning_key_of(path, summaries, scopes, checks[i]) == Some(key),
    )
}

/// Each (caller, line, callee) is warned about once: there are as many warnings as reported
/// keys, and the reported keys are exactly the keys of the checks that raise a warning.
pub proof fn law_each_warning_reported_once(
    path: Seq<char>,
    summaries: Seq<EffectSummary>,
    scopes: Seq<CapabilityScope>,
    checks: Seq<CheckView>,
)
    ensures
        ({
            let (diags, reported) = spec_effect_warnings(path, summaries, scopes, checks);
            &&& reported.finite()
            &&& diags.len() == reported.len()
            &&& reported == warning_keys(summaries, scopes, path, checks)
        }),
    decreases checks.len(),
{
    if checks.len() > 0 {
        let prev = checks.drop_last();
        law_each_warning_reported_once(path, summaries, scopes, prev);
        let (diags, reported) = spec_effect_warnings(path, summaries, scopes, prev);
        let now = warning_keys(summaries, scopes, path, checks);
        let before = warning_keys(summaries, scopes, path, prev);
        assert forall|i: int| 0 <= i < prev.len() implies #[trigger] prev[i] == checks[i] by {}
        match spec_check_warning(path, summaries, scopes, checks.last()) {
            Some((key, d)) => {
                assert forall|k: ReportKey| now.contains(k) == before.insert(key).contains(k) by {
                    if now.contains(k) {
                        let i = choose|i: int|
                            0 <= i < checks.len() && #[trigger] warning_key_of(path, summaries, scopes, checks[i]) == Some(k);
                        if i < prev.len() {
                            assert(prev[i] == checks[i]);
                        } else {
                            assert(checks[i] == checks.last());
                        }
                    }
                    if before.contains(k) {
                        let i = choose|i: int|
                            0 <= i < prev.len() && #[trigger] warning_key_of(path, summaries, scopes, prev[i]) == Some(k);
                        assert(prev[i] == checks[i]);
                    }
                    if k == key {
                        assert(checks[checks.len() - 1] == checks.last());
                        assert(warning_key_of(path, summaries, scopes, checks[checks.len() - 1]) == Some(key));
                    }
                }
                assert(now =~= before.insert(key));
            },
            None => {
                assert forall|k: ReportKey| now.contains(k) == before.contains(k) by {
                    if now.contains(k) {
                        let i = choose|i: int|
                            0 <= i < checks.len() && #[trigger] warning_key_of(path, summaries, scopes, checks[i]) == Some(k);
                        if i < prev.len() {
                            assert(prev[i] == checks[i]);
                        } else {
                            assert(checks[i] == checks.last());
                        }
                    }
                    if before.contains(k) {
                        let i = choose|i: int|
                            0 <= i < prev.len() && #[trigger] warning_key_of(path, summaries, scopes, prev[i]) == Some(k);
                        assert(prev[i] == checks[i]);
                    }
                }
                assert(now =~= before);
            },
        }
    } else {
        assert(warning_keys(summaries, scopes, path, checks) =~= Set::<ReportKey>::empty());
    }
}

/// The facts are in order: no fact sorts before one that precedes it.
pub open spec fn facts_in_order(s: Seq<FactView>) -> bool {
    forall|i: int, j: int| 0 <= i < j < s.len() ==> !fact_key_lt(#[trigger] s[j], #[trigger] s[i])
}

proof fn lemma_opt_name_lt_facts(a: Option<Seq<char>>, b: Option<Seq<char>>, c: Option<Seq<char>>)
    ensures
        a == b || opt_name_lt(a, b) || opt_name_lt(b, a),
        opt_name_lt(a, b) ==> !opt_name_lt(b, a) && a != b,
        opt_name_lt(a, b) && opt_name_lt(b, c) ==> opt_name_lt(a, c),
{
    match (a, b) {
        (Some(x), Some(y)) => {
            lemma_chars_lt_total(x, y);
            if chars_lt(x, y) {
                lemma_chars_lt_asymmetric(x, y);
                lemma_chars_lt_irreflexive(x);
            }
        },
        _ => {},
    }
    match (a, b, c) {
        (Some(x), Some(y), Some(z)) => {
            if chars_lt(x, y) && chars_lt(y, z) {
                lemma_chars_lt_transitive(x, y, z);
            }
        },
        _ => {},
    }
}

proof fn lemma_fact_lt_order(a: FactView, b: FactView, c: FactView)
    ensures
        (a.owner_type_name == b.owner_type_name && a.name == b.name && a.line == b.line) || fact_key_lt(a, b)
            || fact_key_lt(b, a),
        fact_key_lt(a, b) ==> !fact_key_lt(b, a),
        fact_key_lt(a, b) && fact_key_lt(b, c) ==> fact_key_lt(a, c),
{
    lemma_opt_name_lt_facts(a.owner_type_name, b.owner_type_name, c.owner_type_name);
    lemma_opt_name_lt_facts(b.owner_type_name, a.owner_type_name, c.owner_type_name);
    lemma_opt_name_lt_facts(a.owner_type_name, a.owner_type_name, a.owner_type_name);
    lemma_opt_name_lt_facts(b.owner_type_name, c.owner_type_name, a.owner_type_name);
    lemma_opt_name_lt_facts(a.owner_type_name, c.owner_type_name, b.owner_type_name);
    lemma_chars_lt_total(a.name, b.name);
    if chars_lt(a.name, b.name) {
        lemma_chars_lt_asymmetric(a.name, b.name);
    }
    lemma_chars_lt_irreflexive(a.name);
    lemma_chars_lt_irreflexive(b.name);
    if chars_lt(a.name, b.name) && chars_lt(b.name, c.name) {
        lemma_chars_lt_transitive(a.name, b.name, c.name);
    }
}

proof fn lemma_fact_not_lt_transitive(a: FactView, b: FactView, c: FactView)
    requires
        !fact_key_lt(b, a),
        !fact_key_lt(c, b),
    ensures
        !fact_key_lt(c, a),
{
    lemma_fact_lt_order(a, b, c);
    lemma_fact_lt_order(c, a, b);
    lemma_fact_lt_order(a, c, b);
}

proof fn lemma_insert_fact_in_order(t: Seq<FactView>, x: FactView)
    requires
        facts_in_order(t),
    ensures
        facts_in_order(spec_insert_fact(t, x)),
        spec_insert_fact(t, x).to_multiset() == t.to_multiset().insert(x),
    decreases t.len(),
{
    broadcast use vstd::seq_lib::group_to_multiset_ensures;
    if t.len() == 0 || !fact_key_lt(x, t.last()) {
        assert forall|i: int| 0 <= i < t.len() implies !fact_key_lt(x, #[trigger] t[i]) by {
            if i < t.len() - 1 {
                lemma_fact_not_lt_transitive(t[i], t.last(), x);
            }
        }
        let r = t.push(x);
        assert forall|i: int, j: int| 0 <= i < j < r.len() implies !fact_key_lt(#[trigger] r[j], #[trigger] r[i]) by {
            if j < t.len() {
                assert(r[i] == t[i] && r[j] == t[j]);
            } else {
                assert(r[j] == x && r[i] == t[i]);
            }
        }
    } else {
        let d = t.drop_last();
        let last = t.last();
        assert forall|i: int, j: int| 0 <= i < j < d.len() implies !fact_key_lt(#[trigger] d[j], #[trigger] d[i]) by {
            assert(d[i] == t[i] && d[j] == t[j]);
        }
        lemma_insert_fact_in_order(d, x);
        let inner = spec_insert_fact(d, x);
        assert(t =~= d.push(last));
        assert forall|i: int| 0 <= i < inner.len() implies !fact_key_lt(last, #[trigger] inner[i]) by {
            let e = inner[i];
            assert(inner.contains(e));
            assert(inner.to_multiset().count(e) > 0);
            if e == x {
                lemma_fact_lt_order(x, last, x);
            } else {
                assert(d.to_multiset().count(e) > 0);
                assert(d.contains(e));
                let k = choose|k: int| 0 <= k < d.len() && d[k] == e;
                assert(t[k] == e && t[t.len() - 1] == last);
            }
        }
        let r = inner.push(last);
        assert forall|i: int, j: int| 0 <= i < j < r.len() implies !fact_key_lt(#[trigger] r[j], #[trigger] r[i]) by {
            if j < inner.len() {
                assert(r[i] == inner[i] && r[j] == inner[j]);
            } else {
                assert(r[j] == last && r[i] == inner[i]);
            }
        }
        assert(r.to_multiset() =~= inner.to_multiset().insert(last));
        assert(t.to_multiset() =~= d.to_multiset().insert(last));
        assert(r.to_multiset() =~= t.to_multiset().insert(x));
    }
}

/// The summary facts of a module come out ordered by owning type, name and line, and hold
/// exactly the facts that were selected.
pub proof fn law_summary_facts_sorted(s: Seq<FactView>)
    ensures
        facts_in_order(spec_sort_facts(s)),
        spec_sort_facts(s).to_multiset() == s.to_multiset(),
    decreases s.len(),
{
    broadcast use vstd::seq_lib::group_to_multiset_ensures;
    if s.len() > 0 {
        law_summary_facts_sorted(s.drop_last());
        lemma_insert_fact_in_order(spec_sort_facts(s.drop_last()), s.last());
        assert(s =~= s.drop_last().push(s.last()));
        assert(s.to_multiset() =~= s.drop_last().to_multiset().insert(s.last()));
    } else {
        assert(spec_sort_facts(s).to_multiset() =~= s.to_multiset());
    }
}

/// Substituting `Self` with no owning type leaves a type as it is.
pub proof fn law_substitute_self_without_owner(t: TypeView)
    ensures
        spec_substitute_self(t, None) == t,
    decreases t,
{
    match t {
        TypeView::Name(n) => {},
        TypeView::Generic { head, args } => {
            lemma_substitute_all_without_owner(args);
        },
        TypeView::Callable { params, return_type } => {
            lemma_substitute_params_without_owner(params);
            law_substitute_self_without_owner(*return_type);
        },
        TypeView::Union(branches) => {
            lemma_substitute_all_without_owner(branches);
        },
        TypeView::Annotated { value, metadata } => {
            law_substitute_self_without_owner(*value);
        },
        TypeView::Unpack(inner) => {
            law_substitute_self_without_owner(*inner);
        },
    }
}

proof fn lemma_substitute_all_without_owner(s: Seq<TypeView>)
    ensures
        spec_substitute_self_all(s, None) == s,
    decreases s,
{
    if s.len() > 0 {
        lemma_substitute_all_without_owner(s.drop_last());
        law_substitute_self_without_owner(s.last());
        assert(s =~= s.drop_last().push(s.last()));
    }
}

proof fn lemma_substitute_params_without_owner(p: ParamsView)
    ensures
        spec_substitute_self_params(p, None) == p,
    decreases p,
{
    match p {
        ParamsView::Ellipsis => {},
        ParamsView::ParamList(ts) => {
            lemma_substitute_all_without_owner(ts);
        },
        ParamsView::Concatenate(ts) => {
            lemma_substitute_all_without_owner(ts);
        },
        ParamsView::Single(t) => {
            law_substitute_self_without_owner(*t);
        },
    }
}

/// The descendants of a descendant of a class are descendants of that class.
pub proof fn law_sealed_descendants_transitive(decls: Seq<Declaration>, root: Seq<char>, mid: Seq<char>)
    requires
        spec_sealed_descendants(decls, root).contains(mid),
    ensures
        spec_sealed_descendants(decls, mid).subset_of(spec_sealed_descendants(decls, root)),
{
    assert forall|n: Seq<char>| spec_sealed_descendants(decls, mid).contains(n) implies spec_sealed_descendants(
        decls,
        root,
    ).contains(n) by {
        let k = choose|k: nat| #[trigger] descendants_within(decls, mid, k).contains(n);
        lemma_within_below(decls, root, mid, k);
    }
}

proof fn lemma_within_below(decls: Seq<Declaration>, root: Seq<char>, mid: Seq<char>, k: nat)
    requires
        spec_sealed_descendants(decls, root).contains(mid),
    ensures
        descendants_within(decls, mid, k).subset_of(spec_sealed_descendants(decls, root)),
    decreases k,
{
    if k > 0 {
        lemma_within_below(decls, root, mid, (k - 1) as nat);
        let r = descendants_within(decls, mid, (k - 1) as nat);
        assert forall|z: Seq<char>| descendants_within(decls, mid, k).contains(z) implies spec_sealed_descendants(
            decls,
            root,
        ).contains(z) by {
            if !r.contains(z) {
                let x = choose|x: Seq<char>| (x == mid || r.contains(x)) && #[trigger] subclass_names(decls, x).contains(z);
                assert(spec_sealed_descendants(decls, root).contains(x));
                let kx = choose|kx: nat| #[trigger] descendants_within(decls, root, kx).contains(x);
                assert(descendants_within(decls, root, kx + 1).contains(z));
            }
        }
    }
}

/// A case pattern names the sealed root that the subject type `subject` leads to.
pub open spec fn names_sealed_root(
    nodes: Seq<ModuleDeclarations>,
    node: ModuleDeclarations,
    subject: Seq<char>,
    pattern: MatchPattern,
) -> bool {
    match sealed_root_of(nodes, node, subject) {
        Some((sn, sd)) => match pattern {
            MatchPattern::Class(name) => match spec_base_of(nodes, node, name@) {
                Some((cn, cd)) => cn.module_key@ == sn.module_key@ && cd.name@ == sd.name@,
                None => false,
            },
            _ => false,
        },
        None => false,
    }
}

proof fn lemma_uncovered_empty(names: Seq<Seq<char>>, covered: Set<Seq<char>>)
    requires
        forall|i: int| 0 <= i < names.len() ==> covered.contains(#[trigger] names[i]),
    ensures
        uncovered(names, covered).len() == 0,
    decreases names.len(),
{
    if names.len() > 0 {
        assert forall|i: int| 0 <= i < names.len() - 1 implies covered.contains(#[trigger] names.drop_last()[i]) by {
            assert(names.drop_last()[i] == names[i]);
        }
        lemma_uncovered_empty(names.drop_last(), covered);
        assert(covered.contains(names[names.len() - 1]));
    }
}

/// A `match` with an unguarded case arm whose class pattern names the sealed root that the
/// subject's type leads to is exhaustive: no error is raised for it.
pub proof fn law_matching_the_sealed_root_is_exhaustive(
    nodes: Seq<ModuleDeclarations>,
    node: ModuleDeclarations,
    site: MatchSite,
    subject: Seq<char>,
    source: Option<Seq<char>>,
    c: int,
    p: int,
)
    requires
        0 <= c < site.cases@.len(),
        !site.cases@[c].has_guard,
        0 <= p < site.cases@[c].patterns@.len(),
        names_sealed_root(nodes, node, subject, site.cases@[c].patterns@[p]),
    ensures
        spec_sealed_match_diagnostic(nodes, node, site, subject, source) is None,
{
    if !has_unguarded_wildcard(site) {
        let (sn, sd) = sealed_root_of(nodes, node, subject).unwrap();
        let closure = sorted_descendants(sn.declarations@, sd.name@);
        let covered = covered_upto(nodes, node, sn, sd, site, site.cases@.len() as int, 0);
        lemma_sorted_descendants(sn.declarations@, sd.name@);
        assert(pattern_covers(nodes, node, sn, sd, site.cases@[c].patterns@[p]) == spec_sealed_descendants(
            sn.declarations@,
            sd.name@,
        ));
        assert forall|i: int| 0 <= i < closure.len() implies covered.contains(#[trigger] closure[i]) by {
            assert(closure.contains(closure[i]));
            assert(spec_sealed_descendants(sn.declarations@, sd.name@).contains(closure[i]));
            assert(pattern_covers(nodes, node, sn, sd, site.cases@[c].patterns@[p]).contains(closure[i]));
        }
        lemma_uncovered_empty(closure, covered);
    }
}

/// Parameter names of a signature are distinct.
pub open spec fn distinct_param_names(sig: Seq<FunctionParamSite>) -> bool {
    forall|i: int, j: int| 0 <= i < j < sig.len() ==> #[trigger] sig[i].name@ != #[trigger] sig[j].name@
}

/// A keyword that names a parameter which may be passed by keyword.
pub open spec fn names_keyword_param(sig: Seq<FunctionParamSite>, k: Seq<char>) -> bool {
    exists|i: int| 0 <= i < sig.len() && #[trigger] sig[i].name@ == k && !sig[i].positional_only
}

proof fn lemma_clean_keywords(
    path: Seq<char>,
    callee: Seq<char>,
    sig: Seq<FunctionParamSite>,
    filled: Seq<Seq<char>>,
    keywords: Seq<Seq<char>>,
)
    requires
        distinct_param_names(sig),
        forall|j: int| 0 <= j < keywords.len() ==> names_keyword_param(sig, #[trigger] keywords[j]),
        forall|j: int| 0 <= j < keywords.len() ==> !filled.contains(#[trigger] keywords[j]),
    ensures
        spec_keyword_diags(path, callee, sig, None::<TypedDictShape>, keywords) == Seq::<DiagnosticView>::empty(),
        spec_bound_twice_diags(path, callee, filled, keywords) == Seq::<DiagnosticView>::empty(),
    decreases keywords.len(),
{
    if keywords.len() > 0 {
        let k = keywords.last();
        assert(keywords.drop_last().len() == keywords.len() - 1);
        assert forall|j: int| 0 <= j < keywords.drop_last().len() implies names_keyword_param(
            sig,
            #[trigger] keywords.drop_last()[j],
        ) by {
            assert(keywords.drop_last()[j] == keywords[j]);
        }
        assert forall|j: int| 0 <= j < keywords.drop_last().len() implies !filled.contains(
            #[trigger] keywords.drop_last()[j],
        ) by {
            assert(keywords.drop_last()[j] == keywords[j]);
        }
        lemma_clean_keywords(path, callee, sig, filled, keywords.drop_last());
        assert(names_keyword_param(sig, keywords[keywords.len() - 1]));
        let i = choose|i: int| 0 <= i < sig.len() && #[trigger] sig[i].name@ == k && !sig[i].positional_only;
        lemma_first_index(sig, named(k));
        let f = first_index(sig, named(k)).unwrap();
        assert(named(k)(sig[i]));
        if f != i {
            if f < i {
                assert(sig[f].name@ != sig[i].name@);
            } else {
                assert(sig[i].name@ != sig[f].name@);
            }
        }
        assert(!filled.contains(keywords[keywords.len() - 1]));
    }
}

/// A call whose keywords each name a parameter that may be passed by keyword and that no
/// positional argument fills, with no `**` arguments and a signature of distinct parameter
/// names, gets no keyword errors.
pub proof fn law_clean_keyword_call_is_accepted(
    path: Seq<char>,
    call: CallSite,
    sig: Seq<FunctionParamSite>,
    positional_count: nat,
)
    requires
        distinct_param_names(sig),
        forall|j: int|
            0 <= j < call.keyword_names@.len() ==> names_keyword_param(sig, #[trigger] call.keyword_names@[j]@),
        forall|j: int|
            0 <= j < call.keyword_names@.len() ==> !filled_names(sig, positional_count).contains(
                #[trigger] call.keyword_names@[j]@,
            ),
    ensures
        spec_source_function_keyword_diagnostics(path, call, sig, None, positional_count, Seq::empty())
            == Seq::<DiagnosticView>::empty(),
{
    let keywords = string_views(call.keyword_names@);
    let filled = filled_names(sig, positional_count);
    assert forall|j: int| 0 <= j < keywords.len() implies names_keyword_param(sig, #[trigger] keywords[j]) by {
        assert(keywords[j] == call.keyword_names@[j]@);
    }
    assert forall|j: int| 0 <= j < keywords.len() implies !filled.contains(#[trigger] keywords[j]) by {
        assert(keywords[j] == call.keyword_names@[j]@);
    }
    lemma_clean_keywords(path, call.callee@, sig, filled, keywords);
    assert(spec_source_function_keyword_diagnostics(path, call, sig, None, positional_count, Seq::empty())
        =~= Seq::<DiagnosticView>::empty());
}

/// No two fields share a name.
pub open spec fn distinct_field_names(fs: Seq<FieldShapeView>) -> bool {
    forall|i: int, j: int| 0 <= i < j < fs.len() ==> #[trigger] fs[i].name != #[trigger] fs[j].name
}

proof fn lemma_merge_field_distinct(fs: Seq<FieldShapeView>, f: FieldShapeView)
    requires
        distinct_field_names(fs),
    ensures
        distinct_field_names(spec_merge_field(fs, f)),
{
    lemma_first_index(fs, named_field(f.name));
    match first_index(fs, named_field(f.name)) {
        Some(k) => {
            let r = fs.remove(k);
            assert forall|i: int, j: int| 0 <= i < j < r.len() implies #[trigger] r[i].name != #[trigger] r[j].name by {
                let a = if i < k { i } else { i + 1 };
                let b = if j < k { j } else { j + 1 };
                assert(r[i] == fs[a]);
                assert(r[j] == fs[b]);
            }
            assert forall|i: int| 0 <= i < r.len() implies #[trigger] r[i].name != f.name by {
                let a = if i < k { i } else { i + 1 };
                assert(r[i] == fs[a]);
                if a < k {
                    assert(fs[a].name != fs[k].name);
                } else {
                    assert(fs[k].name != fs[a].name);
                }
            }
            let out = r.push(f);
            assert forall|i: int, j: int| 0 <= i < j < out.len() implies #[trigger] out[i].name != #[trigger] out[j].name by {
                if j == r.len() {
                    assert(out[i] == r[i]);
                } else {
                    assert(out[i] == r[i] && out[j] == r[j]);
                }
            }
        },
        None => {
            let out = fs.push(f);
            assert forall|i: int, j: int| 0 <= i < j < out.len() implies #[trigger] out[i].name != #[trigger] out[j].name by {
                if j == fs.len() {
                    assert(out[i] == fs[i]);
                    assert(!named_field(f.name)(fs[i]));
                } else {
                    assert(out[i] == fs[i] && out[j] == fs[j]);
                }
            }
        },
    }
}

proof fn lemma_merge_fields_distinct(fs: Seq<FieldShapeView>, news: Seq<FieldShapeView>)
    requires
        distinct_field_names(fs),
    ensures
        distinct_field_names(spec_merge_fields(fs, news)),
    decreases news.len(),
{
    if news.len() > 0 {
        lemma_merge_fields_distinct(fs, news.drop_last());
        lemma_merge_field_distinct(spec_merge_fields(fs, news.drop_last()), news.last());
    }
}

proof fn lemma_inherited_distinct(shapes: Seq<DataclassTransformClassShape>)
    ensures
        distinct_field_names(spec_inherited_fields(shapes)),
    decreases shapes.len(),
{
    if shapes.len() > 0 {
        lemma_inherited_distinct(shapes.drop_last());
        lemma_merge_fields_distinct(spec_inherited_fields(shapes.drop_last()), shape_views(shapes.last().fields@));
    }
}

proof fn lemma_merge_local_distinct(
    fs: Seq<FieldShapeView>,
    sites: Seq<DataclassFieldSite>,
    make: spec_fn(DataclassFieldSite) -> Option<FieldShapeView>,
)
    requires
        distinct_field_names(fs),
    ensures
        distinct_field_names(spec_merge_local(fs, sites, make)),
    decreases sites.len(),
{
    if sites.len() > 0 {
        lemma_merge_local_distinct(fs, sites.drop_last(), make);
        if let Some(f) = make(sites.last()) {
            lemma_merge_field_distinct(spec_merge_local(fs, sites.drop_last(), make), f);
        }
    }
}

/// A synthesized constructor never has two fields of one name, whatever fields the bases
/// bring and the class declares: a later field replaces an earlier one of the same name.
pub proof fn law_synthesized_fields_are_distinct(
    class_decl: Declaration,
    decls: Seq<Declaration>,
    site: DataclassClassSite,
    metadata: DataclassTransformMetadata,
    inherited: Seq<DataclassTransformClassShape>,
)
    ensures
        spec_plain_dataclass_shape(class_decl, site, inherited) matches Some(shape) ==> distinct_field_names(
            shape.fields,
        ),
        distinct_field_names(spec_transform_class_shape(decls, class_decl.name@, site, metadata, inherited).fields),
{
    lemma_inherited_distinct(inherited);
    lemma_merge_local_distinct(spec_inherited_fields(inherited), site.fields@, plain_maker(site.plain_dataclass_kw_only));
    lemma_merge_local_distinct(spec_inherited_fields(inherited), site.fields@, transform_maker(metadata));
}

/// An attribute assignment left to the frozen-field checks is one they report: through the
/// dataclass-transform shape of the type written, or else through its plain dataclass shape.
pub proof fn law_deferred_writes_are_reported(
    path: Seq<char>,
    site: FrozenFieldMutationSite,
    target_type: Seq<char>,
    transform_shape: Option<DataclassTransformClassShape>,
    plain_shape: Option<DataclassTransformClassShape>,
)
    requires
        spec_should_defer_to_frozen_checks(site, target_type, transform_shape, plain_shape),
    ensures
        (transform_shape matches Some(s) && spec_frozen_mutation_diagnostic(
            "dataclass-transform"@,
            path,
            site,
            target_type,
            s,
        ) is Some) || (plain_shape matches Some(s) && spec_frozen_mutation_diagnostic(
            "dataclass"@,
            path,
            site,
            target_type,
            s,
        ) is Some),
{
}

/// A write that the dataclass-transform frozen-field check reports is left to the frozen-field
/// checks by the attribute-assignment check, whatever plain dataclass shape the type has.
pub proof fn law_reported_writes_are_deferred(
    path: Seq<char>,
    site: FrozenFieldMutationSite,
    target_type: Seq<char>,
    shape: DataclassTransformClassShape,
    plain_shape: Option<DataclassTransformClassShape>,
)
    requires
        spec_frozen_mutation_diagnostic("dataclass-transform"@, path, site, target_type, shape) is Some,
    ensures
        spec_should_defer_to_frozen_checks(site, target_type, Some(shape), plain_shape),
{
}

proof fn lemma_kept_labels(labels: Seq<Seq<char>>, effect_rows: bool, taint: bool)
    ensures
        forall|j: int|
            0 <= j < spec_kept_labels(labels, effect_rows, taint).len() ==> spec_label_kept(
                #[trigger] spec_kept_labels(labels, effect_rows, taint)[j],
                effect_rows,
                taint,
            ),
    decreases labels.len(),
{
    if labels.len() > 0 {
        lemma_kept_labels(labels.drop_last(), effect_rows, taint);
        let prev = spec_kept_labels(labels.drop_last(), effect_rows, taint);
        let now = spec_kept_labels(labels, effect_rows, taint);
        assert forall|j: int| 0 <= j < now.len() implies spec_label_kept(#[trigger] now[j], effect_rows, taint) by {
            if j < prev.len() {
                assert(now[j] == prev[j]);
            }
        }
    }
}

/// A stored fact as the enabled checks keep it.
pub open spec fn fact_well_kept(f: FactView, effect_rows: bool, taint: bool) -> bool {
    &&& spec_fact_kept(f, effect_rows)
    &&& forall|j: int| 0 <= j < f.effects.len() ==> spec_label_kept(#[trigger] f.effects[j], effect_rows, taint)
}

proof fn lemma_selected_well_kept(summaries: Seq<EffectSummary>, effect_rows: bool, taint: bool)
    ensures
        forall|i: int|
            0 <= i < spec_selected_facts(summaries, effect_rows, taint).len() ==> fact_well_kept(
                #[trigger] spec_selected_facts(summaries, effect_rows, taint)[i],
                effect_rows,
                taint,
            ),
    decreases summaries.len(),
{
    if summaries.len() > 0 {
        lemma_selected_well_kept(summaries.drop_last(), effect_rows, taint);
        let f = spec_fact_of_summary(summaries.last(), effect_rows, taint);
        lemma_kept_labels(crate::effect_row::spec_labels(summaries.last().row@), effect_rows, taint);
        assert(forall|j: int| 0 <= j < f.effects.len() ==> spec_label_kept(#[trigger] f.effects[j], effect_rows, taint));
        let prev = spec_selected_facts(summaries.drop_last(), effect_rows, taint);
        let now = spec_selected_facts(summaries, effect_rows, taint);
        assert forall|i: int| 0 <= i < now.len() implies fact_well_kept(#[trigger] now[i], effect_rows, taint) by {
            if i < prev.len() {
                assert(now[i] == prev[i]);
            } else {
                assert(now[i] == f);
            }
        }
    }
}

/// The stored summary facts of a module keep only what the enabled checks read: none when both
/// checks are off; each fact has a kept label or is pure under effect-row checking; without
/// taint checking no `taint.` label is kept, and without effect-row checking only `taint.`
/// labels are; and they come ordered by owning type, name and line.
pub proof fn law_stored_facts_follow_the_enabled_checks(summaries: Seq<EffectSummary>, effect_rows: bool, taint: bool)
    ensures
        ({
            let out = spec_sort_facts(spec_selected_facts(summaries, effect_rows, taint));
            &&& facts_in_order(out)
            &&& (!effect_rows && !taint ==> out.len() == 0)
            &&& forall|i: int| 0 <= i < out.len() ==> (#[trigger] out[i]).effects.len() > 0 || (effect_rows && out[i].pure)
            &&& forall|i: int, j: int|
                0 <= i < out.len() && 0 <= j < out[i].effects.len() ==> (!taint
                    ==> !crate::effect_collect::spec_is_taint_effect_label(#[trigger] out[i].effects[j]))
                    && (!effect_rows ==> crate::effect_collect::spec_is_taint_effect_label(out[i].effects[j]))
        }),
{
    broadcast use vstd::seq_lib::group_to_multiset_ensures;

    let sel = spec_selected_facts(summaries, effect_rows, taint);
    let out = spec_sort_facts(sel);
    law_summary_facts_sorted(sel);
    lemma_selected_well_kept(summaries, effect_rows, taint);
    assert forall|i: int| 0 <= i < out.len() implies fact_well_kept(#[trigger] out[i], effect_rows, taint) by {
        assert(out.contains(out[i]));
        assert(out.to_multiset().count(out[i]) > 0);
        assert(sel.to_multiset().count(out[i]) > 0);
        assert(sel.contains(out[i]));
        let k = choose|k: int| 0 <= k < sel.len() && sel[k] == out[i];
        assert(fact_well_kept(sel[k], effect_rows, taint));
    }
    if !effect_rows && !taint && out.len() > 0 {
        assert(fact_well_kept(out[0], effect_rows, taint));
        if out[0].effects.len() > 0 {
            assert(spec_label_kept(out[0].effects[0], effect_rows, taint));
        }
    }
    assert forall|i: int, j: int| 0 <= i < out.len() && 0 <= j < out[i].effects.len() implies (!taint
        ==> !crate::effect_collect::spec_is_taint_effect_label(#[trigger] out[i].effects[j])) && (!effect_rows
        ==> crate::effect_collect::spec_is_taint_effect_label(out[i].effects[j])) by {
        assert(fact_well_kept(out[i], effect_rows, taint));
        assert(spec_label_kept(out[i].effects[j], effect_rows, taint));
    }
}

} // verus!
