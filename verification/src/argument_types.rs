//! Type checks of the arguments of a call against the parameters of the callee: positional
//! arguments, extra positional arguments and `*args` elements against `*args`, keywords against
//! named parameters, unpacked `TypedDict` keys and `**kwargs`, and `**` expansions.
use vstd::prelude::*;
use crate::declarations::string_views;
use crate::diagnostics::{Diagnostic, DiagnosticView, Severity, spec_diagnostic};
use crate::sites::CallSite;
use crate::source_calls::{KeywordExpansion, call_prefix, opt_shape, views_of};
use crate::text::{owned, str_eq};
use crate::typed_dict::TypedDictShape;

verus! {

/// What the type relation says of an expected type and an actual one, both as rendered text:
/// whether the actual is assignable to the expected, whether it matches it (the relation used
/// for keywords), and the notes that explain a mismatch.
#[derive(Debug)]
pub struct TypeVerdict {
    pub expected: String,
    pub actual: String,
    pub assignable: bool,
    pub matches: bool,
    pub notes: Vec<String>,
}

/// The verdict on a pair: the last one listed for it.
pub open spec fn find_verdict(vs: Seq<TypeVerdict>, e: Seq<char>, a: Seq<char>) -> Option<TypeVerdict>
    decreases vs.len(),
{
    if vs.len() == 0 {
        None
    } else if vs.last().expected@ == e && vs.last().actual@ == a {
        Some(vs.last())
    } else {
        find_verdict(vs.drop_last(), e, a)
    }
}

/// A type that was not resolved is written as empty text.
pub open spec fn missing(t: Seq<char>) -> bool {
    t.len() == 0
}

/// Both types are known and the verdict says the actual is not assignable to the expected; a
/// pair with no verdict is taken as assignable.
pub open spec fn fails_assignable(vs: Seq<TypeVerdict>, e: Seq<char>, a: Seq<char>) -> bool {
    !missing(e) && !missing(a) && match find_verdict(vs, e, a) {
        Some(v) => !v.assignable,
        None => false,
    }
}

/// Both types are known and the verdict says the actual does not match the expected.
pub open spec fn fails_matching(vs: Seq<TypeVerdict>, e: Seq<char>, a: Seq<char>) -> bool {
    !missing(e) && !missing(a) && match find_verdict(vs, e, a) {
        Some(v) => !v.matches,
        None => false,
    }
}

/// The notes of the verdict on a pair.
pub open spec fn verdict_notes(vs: Seq<TypeVerdict>, e: Seq<char>, a: Seq<char>) -> Seq<Seq<char>> {
    match find_verdict(vs, e, a) {
        Some(v) => string_views(v.notes@),
        None => Seq::empty(),
    }
}

/// An error with notes and no span.
pub open spec fn noted_error(code: Seq<char>, message: Seq<char>, notes: Seq<Seq<char>>) -> DiagnosticView {
    DiagnosticView { notes, ..spec_diagnostic(Severity::Error, code, message) }
}

/// The mismatch errors of (actual, expected) pairs under the assignable relation, each with the
/// verdict's notes: `lead`, the actual, `mid`, the expected, and a closing backtick.
pub open spec fn spec_pair_checks(
    prefix: Seq<char>,
    lead: Seq<char>,
    mid: Seq<char>,
    pairs: Seq<(Seq<char>, Seq<char>)>,
    vs: Seq<TypeVerdict>,
) -> Seq<DiagnosticView>
    decreases pairs.len(),
{
    if pairs.len() == 0 {
        Seq::empty()
    } else {
        let prev = spec_pair_checks(prefix, lead, mid, pairs.drop_last(), vs);
        let (a, p) = pairs.last();
        if fails_assignable(vs, p, a) {
            prev.push(noted_error("TPY4001"@, prefix + lead + a + mid + p + "`"@, verdict_notes(vs, p, a)))
        } else {
            prev
        }
    }
}

/// The first position of `k` among `names`.
pub open spec fn index_in(names: Seq<Seq<char>>, k: Seq<char>) -> Option<int>
    decreases names.len(),
{
    if names.len() == 0 {
        None
    } else {
        match index_in(names.drop_last(), k) {
            Some(i) => Some(i),
            None => if names.last() == k {
                Some(names.len() - 1)
            } else {
                None
            },
        }
    }
}

/// The value type of the field `k` of the unpacked `TypedDict`, if it declares one.
pub open spec fn unpacked_field(unpack: Option<TypedDictShape>, k: Seq<char>) -> Option<Seq<char>> {
    match unpack {
        Some(s) => match s.field_index(k) {
            Some(i) => Some(s.fields@[i].1.value_type@),
            None => None,
        },
        None => None,
    }
}

/// What keywords that name no parameter are held to: the unpacked `TypedDict`'s extra items
/// where it has them, else the `**kwargs` type.
pub open spec fn extra_keyword_type(unpack: Option<TypedDictShape>, kwargs: Option<Seq<char>>) -> Option<Seq<char>> {
    match unpack {
        Some(s) => match s.extra_items {
            Some(e) => Some(e.value_type@),
            None => kwargs,
        },
        None => kwargs,
    }
}

/// The error for one keyword argument, if any.
pub open spec fn spec_keyword_check(
    prefix: Seq<char>,
    keyword: Seq<char>,
    a: Seq<char>,
    names: Seq<Seq<char>>,
    params: Seq<Seq<char>>,
    unpack: Option<TypedDictShape>,
    kwargs: Option<Seq<char>>,
    vs: Seq<TypeVerdict>,
) -> Option<DiagnosticView> {
    match index_in(names, keyword) {
        Some(i) => if i < params.len() && fails_matching(vs, params[i], a) {
            Some(
                noted_error(
                    "TPY4001"@,
                    prefix + "passes `"@ + a + "` for keyword `"@ + keyword + "` where parameter expects `"@ + params[i] + "`"@,
                    verdict_notes(vs, params[i], a),
                ),
            )
        } else {
            None
        },
        None => match unpacked_field(unpack, keyword) {
            Some(f) => if fails_matching(vs, f, a) {
                Some(
                    noted_error(
                        "TPY4001"@,
                        prefix + "passes `"@ + a + "` for unpacked keyword `"@ + keyword + "` where TypedDict key expects `"@ + f
                            + "`"@,
                        verdict_notes(vs, f, a),
                    ),
                )
            } else {
                None
            },
            None => match extra_keyword_type(unpack, kwargs) {
                Some(p) => if fails_matching(vs, p, a) {
                    Some(
                        noted_error(
                            "TPY4001"@,
                            prefix + "passes `"@ + a + "` for keyword `"@ + keyword
                                + "` where variadic keyword parameter expects `"@ + p + "`"@,
                            verdict_notes(vs, p, a),
                        ),
                    )
                } else {
                    None
                },
                None => None,
            },
        },
    }
}

/// The keyword errors, over the first `n` keyword arguments.
pub open spec fn spec_keyword_checks(
    prefix: Seq<char>,
    keywords: Seq<Seq<char>>,
    kw_types: Seq<Seq<char>>,
    names: Seq<Seq<char>>,
    params: Seq<Seq<char>>,
    unpack: Option<TypedDictShape>,
    kwargs: Option<Seq<char>>,
    vs: Seq<TypeVerdict>,
    n: nat,
) -> Seq<DiagnosticView>
    decreases n,
{
    if n == 0 {
        Seq::empty()
    } else {
        let prev = spec_keyword_checks(prefix, keywords, kw_types, names, params, unpack, kwargs, vs, (n - 1) as nat);
        match spec_keyword_check(prefix, keywords[n - 1], kw_types[n - 1], names, params, unpack, kwargs, vs) {
            Some(d) => prev.push(d),
            None => prev,
        }
    }
}

/// The error for one key of a `**` expanded `TypedDict` named `shape_name`, if any.
pub open spec fn spec_expanded_key_check(
    prefix: Seq<char>,
    shape_name: Seq<char>,
    key: Seq<char>,
    f: Seq<char>,
    names: Seq<Seq<char>>,
    params: Seq<Seq<char>>,
    extra: Option<Seq<char>>,
    vs: Seq<TypeVerdict>,
) -> Option<DiagnosticView> {
    let head = prefix + "expands `**"@ + shape_name + "` key `"@ + key + "` with type `"@ + f;
    match index_in(names, key) {
        Some(i) => if fails_assignable(vs, params[i], f) {
            Some(noted_error("TPY4013"@, head + "` where parameter expects `"@ + params[i] + "`"@, Seq::empty()))
        } else {
            None
        },
        None => match extra {
            Some(p) => if fails_assignable(vs, p, f) {
                Some(noted_error("TPY4013"@, head + "` where `**kwargs` expects `"@ + p + "`"@, Seq::empty()))
            } else {
                None
            },
            None => None,
        },
    }
}

/// The errors for the first `n` keys of a `**` expanded `TypedDict`.
pub open spec fn spec_expanded_keys_checks(
    prefix: Seq<char>,
    shape: TypedDictShape,
    names: Seq<Seq<char>>,
    params: Seq<Seq<char>>,
    extra: Option<Seq<char>>,
    vs: Seq<TypeVerdict>,
    n: nat,
) -> Seq<DiagnosticView>
    decreases n,
{
    if n == 0 {
        Seq::empty()
    } else {
        let prev = spec_expanded_keys_checks(prefix, shape, names, params, extra, vs, (n - 1) as nat);
        let field = shape.fields@[n - 1];
        match spec_expanded_key_check(prefix, shape.name@, field.0@, field.1.value_type@, names, params, extra, vs) {
            Some(d) => prev.push(d),
            None => prev,
        }
    }
}

/// The errors for one `**` expansion.
pub open spec fn spec_expansion_checks(
    prefix: Seq<char>,
    e: KeywordExpansion,
    names: Seq<Seq<char>>,
    params: Seq<Seq<char>>,
    unpack: Option<TypedDictShape>,
    kwargs: Option<Seq<char>>,
    vs: Seq<TypeVerdict>,
) -> Seq<DiagnosticView> {
    let extra = extra_keyword_type(unpack, kwargs);
    match e {
        KeywordExpansion::TypedDict(shape) => {
            let keys = spec_expanded_keys_checks(prefix, shape, names, params, extra, vs, shape.fields@.len());
            match (shape.extra_items, extra) {
                (Some(x), Some(p)) => if fails_assignable(vs, p, x.value_type@) {
                    keys.push(
                        noted_error(
                            "TPY4013"@,
                            prefix + "expands additional `**"@ + shape.name@ + "` keys of type `"@ + x.value_type@
                                + "` where extra keywords expect `"@ + p + "`"@,
                            Seq::empty(),
                        ),
                    )
                } else {
                    keys
                },
                _ => keys,
            }
        },
        KeywordExpansion::Mapping(v) => match kwargs {
            Some(p) => if !missing(p) && match find_verdict(vs, p, v@) {
                Some(verdict) => !verdict.assignable,
                None => false,
            } {
                seq![
                    noted_error(
                        "TPY4001"@,
                        prefix + "expands `**dict[str, "@ + v@ + "]` where `**kwargs` expects `"@ + p + "`"@,
                        Seq::empty(),
                    ),
                ]
            } else {
                Seq::empty()
            },
            None => Seq::empty(),
        },
    }
}

/// The errors for the first `n` `**` expansions.
pub open spec fn spec_expansions_checks(
    prefix: Seq<char>,
    es: Seq<KeywordExpansion>,
    names: Seq<Seq<char>>,
    params: Seq<Seq<char>>,
    unpack: Option<TypedDictShape>,
    kwargs: Option<Seq<char>>,
    vs: Seq<TypeVerdict>,
    n: nat,
) -> Seq<DiagnosticView>
    decreases n,
{
    if n == 0 {
        Seq::empty()
    } else {
        spec_expansions_checks(prefix, es, names, params, unpack, kwargs, vs, (n - 1) as nat) + spec_expansion_checks(
            prefix,
            es[n - 1],
            names,
            params,
            unpack,
            kwargs,
            vs,
        )
    }
}

/// The positional pairs: each argument with the parameter at its position.
pub open spec fn positional_pairs(args: Seq<Seq<char>>, params: Seq<Seq<char>>) -> Seq<(Seq<char>, Seq<char>)> {
    let n = if args.len() < params.len() {
        args.len()
    } else {
        params.len()
    };
    Seq::new(n, |i: int| (args[i], params[i]))
}

/// Each type from position `k` on paired with one parameter type.
pub open spec fn against(types: Seq<Seq<char>>, k: int, p: Seq<char>) -> Seq<(Seq<char>, Seq<char>)> {
    let n = if types.len() > k {
        types.len() - k
    } else {
        0
    };
    Seq::new(n as nat, |i: int| (types[k + i], p))
}

/// The argument type errors of a call, in order: positional arguments against their
/// parameters; extra positional arguments, then `*args` elements, against `*args`; keyword
/// arguments against the parameter they name, else against the unpacked `TypedDict` key, else
/// against the extra keyword type; and the `**` expansions.
pub open spec fn spec_argument_type_diagnostics(
    path: Seq<char>,
    call: CallSite,
    args: Seq<Seq<char>>,
    kw_types: Seq<Seq<char>>,
    params: Seq<Seq<char>>,
    names: Seq<Seq<char>>,
    variadic: Option<Seq<char>>,
    kwargs: Option<Seq<char>>,
    unpack: Option<TypedDictShape>,
    starred: Seq<Seq<char>>,
    expansions: Seq<KeywordExpansion>,
    vs: Seq<TypeVerdict>,
) -> Seq<DiagnosticView> {
    let prefix = call_prefix(call.callee@, path);
    let keywords = string_views(call.keyword_names@);
    let nk = if keywords.len() < kw_types.len() {
        keywords.len()
    } else {
        kw_types.len()
    };
    let positional = spec_pair_checks(prefix, "passes `"@, "` where parameter expects `"@, positional_pairs(args, params), vs);
    let variadic_part = match variadic {
        Some(p) => spec_pair_checks(
            prefix,
            "passes `"@,
            "` where variadic parameter expects `"@,
            against(args, params.len() as int, p),
            vs,
        ) + spec_pair_checks(
            prefix,
            "expands `*args` element type `"@,
            "` where variadic parameter expects `"@,
            against(starred, 0, p),
            vs,
        ),
        None => Seq::empty(),
    };
    positional + variadic_part + spec_keyword_checks(prefix, keywords, kw_types, names, params, unpack, kwargs, vs, nk)
        + spec_expansions_checks(prefix, expansions, names, params, unpack, kwargs, vs, expansions.len())
}


/// An optional borrowed text as an optional value.
pub open spec fn opt_text(o: Option<&str>) -> Option<Seq<char>> {
    match o {
        Some(t) => Some(t@),
        None => None,
    }
}

/// Pairs of strings taken by their characters.
pub open spec fn pair_views(s: Seq<(String, String)>) -> Seq<(Seq<char>, Seq<char>)> {
    s.map_values(|x: (String, String)| (x.0@, x.1@))
}

fn verdict_for<'a>(vs: &'a Vec<TypeVerdict>, e: &str, a: &str) -> (res: Option<&'a TypeVerdict>)
    ensures
        match res {
            Some(v) => find_verdict(vs@, e@, a@) == Some(*v),
            None => find_verdict(vs@, e@, a@) is None,
        },
{
    let mut found: Option<&TypeVerdict> = None;
    let mut i: usize = 0;
    assert(vs@.take(0) =~= Seq::<TypeVerdict>::empty());
    while i < vs.len()
        invariant
            i <= vs@.len(),
            match found {
                Some(v) => find_verdict(vs@.take(i as int), e@, a@) == Some(*v),
                None => find_verdict(vs@.take(i as int), e@, a@) is None,
            },
        decreases vs@.len() - i,
    {
        assert(vs@.take(i + 1).drop_last() =~= vs@.take(i as int));
        assert(vs@.take(i + 1).last() == vs@[i as int]);
        if str_eq(&vs[i].expected, e) && str_eq(&vs[i].actual, a) {
            found = Some(&vs[i]);
        }
        i = i + 1;
    }
    assert(vs@.take(i as int) =~= vs@);
    found
}

fn copy_strings(v: &Vec<String>) -> (res: Vec<String>)
    ensures
        string_views(res@) == string_views(v@),
{
    let mut out: Vec<String> = Vec::new();
    let mut i: usize = 0;
    while i < v.len()
        invariant
            i <= v@.len(),
            out@ == v@.take(i as int),
        decreases v@.len() - i,
    {
        out.push(v[i].clone());
        assert(out@ =~= v@.take(i + 1));
        i = i + 1;
    }
    assert(v@.take(i as int) =~= v@);
    out
}

/// The notes of a failed check: `Some` exactly when both types are known and the verdict on
/// them fails the relation (matching when `by_matching`, else assignability).
fn failed_check(vs: &Vec<TypeVerdict>, e: &str, a: &str, by_matching: bool) -> (res: Option<Vec<String>>)
    ensures
        res is Some <==> (if by_matching {
            fails_matching(vs@, e@, a@)
        } else {
            fails_assignable(vs@, e@, a@)
        }),
        match res {
            Some(n) => string_views(n@) == verdict_notes(vs@, e@, a@),
            None => true,
        },
{
    if e.unicode_len() == 0 || a.unicode_len() == 0 {
        return None;
    }
    match verdict_for(vs, e, a) {
        Some(v) => {
            let fails = if by_matching {
                !v.matches
            } else {
                !v.assignable
            };
            if fails {
                Some(copy_strings(&v.notes))
            } else {
                None
            }
        },
        None => None,
    }
}

fn noted_error_exec(code: &str, message: String, notes: Vec<String>) -> (res: Diagnostic)
    ensures
        res@ == noted_error(code@, message@, string_views(notes@)),
{
    let mut d = Diagnostic::error(code, message);
    d.notes = notes;
    d
}

fn plain_error_exec(code: &str, message: String) -> (res: Diagnostic)
    ensures
        res@ == noted_error(code@, message@, Seq::empty()),
{
    let d = noted_error_exec(code, message, Vec::new());
    assert(d@.notes =~= Seq::<Seq<char>>::empty());
    d
}

fn append_diags(out: &mut Vec<Diagnostic>, more: Vec<Diagnostic>)
    ensures
        views_of(final(out)@) == views_of(old(out)@) + views_of(more@),
{
    let mut more = more;
    let ghost m = more@;
    out.append(&mut more);
    assert(views_of(out@) =~= views_of(old(out)@) + views_of(m));
}

fn check_pairs(
    prefix: &str,
    lead: &str,
    mid: &str,
    pairs: &Vec<(String, String)>,
    vs: &Vec<TypeVerdict>,
) -> (res: Vec<Diagnostic>)
    ensures
        views_of(res@) == spec_pair_checks(prefix@, lead@, mid@, pair_views(pairs@), vs@),
{
    let mut out: Vec<Diagnostic> = Vec::new();
    let mut i: usize = 0;
    assert(pair_views(pairs@.take(0)) =~= Seq::<(Seq<char>, Seq<char>)>::empty());
    assert(views_of(out@) =~= Seq::<DiagnosticView>::empty());
    while i < pairs.len()
        invariant
            i <= pairs@.len(),
            views_of(out@) == spec_pair_checks(prefix@, lead@, mid@, pair_views(pairs@.take(i as int)), vs@),
        decreases pairs@.len() - i,
    {
        assert(pair_views(pairs@.take(i + 1)).drop_last() =~= pair_views(pairs@.take(i as int)));
        assert(pair_views(pairs@.take(i + 1)).last() == (pairs@[i as int].0@, pairs@[i as int].1@));
        let a = &pairs[i].0;
        let p = &pairs[i].1;
        if let Some(notes) = failed_check(vs, p, a, false) {
            let mut m = owned(prefix);
            m.append(lead);
            m.append(a);
            m.append(mid);
            m.append(p);
            m.append("`");
            let ghost before = views_of(out@);
            out.push(noted_error_exec("TPY4001", m, notes));
            assert(views_of(out@) =~= before.push(views_of(out@).last()));
        }
        i = i + 1;
    }
    assert(pairs@.take(i as int) =~= pairs@);
    out
}

fn name_index(names: &Vec<String>, k: &str) -> (res: Option<usize>)
    ensures
        match res {
            Some(i) => index_in(string_views(names@), k@) == Some(i as int),
            None => index_in(string_views(names@), k@) is None,
        },
{
    let ghost sv = string_views(names@);
    let mut i: usize = 0;
    assert(sv.take(0) =~= Seq::<Seq<char>>::empty());
    while i < names.len()
        invariant
            i <= names@.len(),
            sv == string_views(names@),
            sv.len() == names@.len(),
            index_in(sv.take(i as int), k@) is None,
        decreases names@.len() - i,
    {
        assert(sv.take(i + 1).drop_last() =~= sv.take(i as int));
        assert(sv.take(i + 1).last() == names@[i as int]@);
        if str_eq(&names[i], k) {
            proof {
                lemma_index_in_extends(sv, k@, i as int + 1);
            }
            return Some(i);
        }
        i = i + 1;
    }
    assert(sv.take(i as int) =~= sv);
    None
}

proof fn lemma_index_in_extends(names: Seq<Seq<char>>, k: Seq<char>, n: int)
    requires
        0 <= n <= names.len(),
        index_in(names.take(n), k) is Some,
    ensures
        index_in(names, k) == index_in(names.take(n), k),
    decreases names.len() - n,
{
    if n < names.len() {
        assert(names.take(n + 1).drop_last() =~= names.take(n));
        lemma_index_in_extends(names, k, n + 1);
    } else {
        assert(names.take(n) =~= names);
    }
}

fn field_value_type<'a>(shape: &'a TypedDictShape, key: &str) -> (res: Option<&'a str>)
    requires
        shape.wf(),
    ensures
        match res {
            Some(t) => unpacked_field(Some(*shape), key@) == Some(t@),
            None => unpacked_field(Some(*shape), key@) is None,
        },
{
    let n = shape.fields.len();
    let mut i: usize = 0;
    while i < n
        invariant
            n == shape.fields@.len(),
            shape.wf(),
            i <= n,
            forall|j: int| 0 <= j < i ==> shape.fields@[j].0@ != key@,
        decreases n - i,
    {
        if str_eq(&shape.fields[i].0, key) {
            proof {
                let c = choose|c: int| 0 <= c < shape.fields@.len() && shape.fields@[c].0@ == key@;
                if c != i {
                    if c < i {
                        assert(shape.fields@[c].0@ != shape.fields@[i as int].0@);
                    } else {
                        assert(shape.fields@[i as int].0@ != shape.fields@[c].0@);
                    }
                }
            }
            return Some(shape.fields[i].1.value_type.as_str());
        }
        i = i + 1;
    }
    None
}

fn extra_keyword_type_exec<'a>(unpack: Option<&'a TypedDictShape>, kwargs: Option<&'a str>) -> (res: Option<&'a str>)
    ensures
        opt_text(res) == extra_keyword_type(opt_shape(unpack), opt_text(kwargs)),
{
    match unpack {
        Some(s) => match &s.extra_items {
            Some(e) => Some(e.value_type.as_str()),
            None => kwargs,
        },
        None => kwargs,
    }
}

fn keyword_check(
    prefix: &str,
    keyword: &str,
    a: &str,
    names: &Vec<String>,
    params: &Vec<String>,
    unpack: Option<&TypedDictShape>,
    kwargs: Option<&str>,
    vs: &Vec<TypeVerdict>,
) -> (res: Option<Diagnostic>)
    requires
        match unpack {
            Some(s) => s.wf(),
            None => true,
        },
    ensures
        match res {
            Some(d) => spec_keyword_check(
                prefix@,
                keyword@,
                a@,
                string_views(names@),
                string_views(params@),
                opt_shape(unpack),
                opt_text(kwargs),
                vs@,
            ) == Some(d@),
            None => spec_keyword_check(
                prefix@,
                keyword@,
                a@,
                string_views(names@),
                string_views(params@),
                opt_shape(unpack),
                opt_text(kwargs),
                vs@,
            ) is None,
        },
{
    match name_index(names, keyword) {
        Some(i) => {
            if i < params.len() {
                if let Some(notes) = failed_check(vs, &params[i], a, true) {
                    let mut m = owned(prefix);
                    m.append("passes `");
                    m.append(a);
                    m.append("` for keyword `");
                    m.append(keyword);
                    m.append("` where parameter expects `");
                    m.append(&params[i]);
                    m.append("`");
                    return Some(noted_error_exec("TPY4001", m, notes));
                }
            }
            None
        },
        None => {
            let field = match unpack {
                Some(s) => field_value_type(s, keyword),
                None => None,
            };
            match field {
                Some(f) => {
                    if let Some(notes) = failed_check(vs, f, a, true) {
                        let mut m = owned(prefix);
                        m.append("passes `");
                        m.append(a);
                        m.append("` for unpacked keyword `");
                        m.append(keyword);
                        m.append("` where TypedDict key expects `");
                        m.append(f);
                        m.append("`");
                        return Some(noted_error_exec("TPY4001", m, notes));
                    }
                    None
                },
                None => match extra_keyword_type_exec(unpack, kwargs) {
                    Some(p) => {
                        if let Some(notes) = failed_check(vs, p, a, true) {
                            let mut m = owned(prefix);
                            m.append("passes `");
                            m.append(a);
                            m.append("` for keyword `");
                            m.append(keyword);
                            m.append("` where variadic keyword parameter expects `");
                            m.append(p);
                            m.append("`");
                            return Some(noted_error_exec("TPY4001", m, notes));
                        }
                        None
                    },
                    None => None,
                },
            }
        },
    }
}

fn keyword_checks(
    prefix: &str,
    keywords: &Vec<String>,
    kw_types: &Vec<String>,
    names: &Vec<String>,
    params: &Vec<String>,
    unpack: Option<&TypedDictShape>,
    kwargs: Option<&str>,
    vs: &Vec<TypeVerdict>,
) -> (res: Vec<Diagnostic>)
    requires
        match unpack {
            Some(s) => s.wf(),
            None => true,
        },
    ensures
        views_of(res@) == spec_keyword_checks(
            prefix@,
            string_views(keywords@),
            string_views(kw_types@),
            string_views(names@),
            string_views(params@),
            opt_shape(unpack),
            opt_text(kwargs),
            vs@,
            if keywords@.len() < kw_types@.len() {
                keywords@.len()
            } else {
                kw_types@.len()
            },
        ),
{
    let n = if keywords.len() < kw_types.len() {
        keywords.len()
    } else {
        kw_types.len()
    };
    let mut out: Vec<Diagnostic> = Vec::new();
    let mut i: usize = 0;
    assert(views_of(out@) =~= Seq::<DiagnosticView>::empty());
    while i < n
        invariant
            i <= n,
            n <= keywords@.len(),
            n <= kw_types@.len(),
            match unpack {
                Some(s) => s.wf(),
                None => true,
            },
            views_of(out@) == spec_keyword_checks(
                prefix@,
                string_views(keywords@),
                string_views(kw_types@),
                string_views(names@),
                string_views(params@),
                opt_shape(unpack),
                opt_text(kwargs),
                vs@,
                i as nat,
            ),
        decreases n - i,
    {
        let ghost before = views_of(out@);
        match keyword_check(prefix, &keywords[i], &kw_types[i], names, params, unpack, kwargs, vs) {
            Some(d) => {
                out.push(d);
                assert(views_of(out@) =~= before.push(d@));
            },
            None => {},
        }
        i = i + 1;
    }
    out
}

fn expanded_keys_checks(
    prefix: &str,
    shape: &TypedDictShape,
    names: &Vec<String>,
    params: &Vec<String>,
    extra: Option<&str>,
    vs: &Vec<TypeVerdict>,
) -> (res: Vec<Diagnostic>)
    requires
        string_views(names@).len() <= params@.len(),
    ensures
        views_of(res@) == spec_expanded_keys_checks(
            prefix@,
            *shape,
            string_views(names@),
            string_views(params@),
            opt_text(extra),
            vs@,
            shape.fields@.len(),
        ),
{
    let mut out: Vec<Diagnostic> = Vec::new();
    let mut i: usize = 0;
    assert(views_of(out@) =~= Seq::<DiagnosticView>::empty());
    while i < shape.fields.len()
        invariant
            i <= shape.fields@.len(),
            string_views(names@).len() <= params@.len(),
            views_of(out@) == spec_expanded_keys_checks(
                prefix@,
                *shape,
                string_views(names@),
                string_views(params@),
                opt_text(extra),
                vs@,
                i as nat,
            ),
        decreases shape.fields@.len() - i,
    {
        let key = &shape.fields[i].0;
        let f = shape.fields[i].1.value_type.as_str();
        let mut head = owned(prefix);
        head.append("expands `**");
        head.append(&shape.name);
        head.append("` key `");
        head.append(key);
        head.append("` with type `");
        head.append(f);
        let ghost before = views_of(out@);
        let found = name_index(names, key);
        proof {
            if let Some(j) = found {
                lemma_index_in_bounds(string_views(names@), key@);
            }
        }
        let checked: Option<(&str, &str)> = match found {
            Some(j) => Some((params[j].as_str(), "` where parameter expects `")),
            None => match extra {
                Some(p) => Some((p, "` where `**kwargs` expects `")),
                None => None,
            },
        };
        if let Some((p, mid)) = checked {
            if let Some(_notes) = failed_check(vs, p, f, false) {
                head.append(mid);
                head.append(p);
                head.append("`");
                out.push(plain_error_exec("TPY4013", head));
                assert(views_of(out@) =~= before.push(views_of(out@).last()));
            }
        }
        i = i + 1;
    }
    out
}

proof fn lemma_index_in_bounds(names: Seq<Seq<char>>, k: Seq<char>)
    ensures
        match index_in(names, k) {
            Some(i) => 0 <= i < names.len() && names[i] == k,
            None => true,
        },
    decreases names.len(),
{
    if names.len() > 0 {
        lemma_index_in_bounds(names.drop_last(), k);
    }
}

fn expansion_checks(
    prefix: &str,
    e: &KeywordExpansion,
    names: &Vec<String>,
    params: &Vec<String>,
    unpack: Option<&TypedDictShape>,
    kwargs: Option<&str>,
    vs: &Vec<TypeVerdict>,
) -> (res: Vec<Diagnostic>)
    requires
        string_views(names@).len() <= params@.len(),
    ensures
        views_of(res@) == spec_expansion_checks(
            prefix@,
            *e,
            string_views(names@),
            string_views(params@),
            opt_shape(unpack),
            opt_text(kwargs),
            vs@,
        ),
{
    let extra = extra_keyword_type_exec(unpack, kwargs);
    match e {
        KeywordExpansion::TypedDict(shape) => {
            let mut out = expanded_keys_checks(prefix, shape, names, params, extra, vs);
            if let (Some(x), Some(p)) = (&shape.extra_items, extra) {
                if let Some(_notes) = failed_check(vs, p, &x.value_type, false) {
                    let mut m = owned(prefix);
                    m.append("expands additional `**");
                    m.append(&shape.name);
                    m.append("` keys of type `");
                    m.append(&x.value_type);
                    m.append("` where extra keywords expect `");
                    m.append(p);
                    m.append("`");
                    let ghost before = views_of(out@);
                    out.push(plain_error_exec("TPY4013", m));
                    assert(views_of(out@) =~= before.push(views_of(out@).last()));
                }
            }
            out
        },
        KeywordExpansion::Mapping(v) => {
            let mut out: Vec<Diagnostic> = Vec::new();
            if let Some(p) = kwargs {
                if p.unicode_len() > 0 {
                    let fails = match verdict_for(vs, p, v) {
                        Some(verdict) => !verdict.assignable,
                        None => false,
                    };
                    if fails {
                        let mut m = owned(prefix);
                        m.append("expands `**dict[str, ");
                        m.append(v);
                        m.append("]` where `**kwargs` expects `");
                        m.append(p);
                        m.append("`");
                        out.push(plain_error_exec("TPY4001", m));
                    }
                }
            }
            assert(views_of(out@) =~= spec_expansion_checks(
                prefix@,
                *e,
                string_views(names@),
                string_views(params@),
                opt_shape(unpack),
                opt_text(kwargs),
                vs@,
            ));
            out
        },
    }
}

fn pairs_against(types: &Vec<String>, k: usize, p: &str) -> (res: Vec<(String, String)>)
    ensures
        pair_views(res@) == against(string_views(types@), k as int, p@),
{
    let mut out: Vec<(String, String)> = Vec::new();
    let mut i: usize = k;
    while i < types.len()
        invariant
            i >= k,
            i > k ==> i <= types@.len(),
            out@.len() == i - k,
            forall|j: int| 0 <= j < out@.len() ==> (#[trigger] out@[j]).0@ == types@[k + j]@ && out@[j].1@ == p@,
        decreases types@.len() - i,
    {
        out.push((types[i].clone(), owned(p)));
        i = i + 1;
    }
    assert(pair_views(out@) =~= against(string_views(types@), k as int, p@));
    out
}

fn positional_pairs_exec(args: &Vec<String>, params: &Vec<String>) -> (res: Vec<(String, String)>)
    ensures
        pair_views(res@) == positional_pairs(string_views(args@), string_views(params@)),
{
    let n = if args.len() < params.len() {
        args.len()
    } else {
        params.len()
    };
    let mut out: Vec<(String, String)> = Vec::new();
    let mut i: usize = 0;
    while i < n
        invariant
            i <= n,
            n <= args@.len(),
            n <= params@.len(),
            out@.len() == i,
            forall|j: int| 0 <= j < i ==> (#[trigger] out@[j]).0@ == args@[j]@ && out@[j].1@ == params@[j]@,
        decreases n - i,
    {
        out.push((args[i].clone(), params[i].clone()));
        i = i + 1;
    }
    assert(pair_views(out@) =~= positional_pairs(string_views(args@), string_views(params@)));
    out
}

/// The argument type errors of a call to a function with parameter types `param_types` named
/// `param_names`, `*args` of type `variadic_type` and `**kwargs` of type
/// `keyword_variadic_type` (or unpacking the `TypedDict` `unpack_shape`). Types are rendered
/// text, empty where unresolved; `verdicts` gives what the type relation says of each pair
/// compared, and a pair it does not list is taken as fitting. The call's keywords are paired
/// with `keyword_arg_types`, `variadic_starred_types` are the element types of its `*`
/// arguments, and `keyword_expansions` its `**` arguments whose types are known.
pub fn positional_and_keyword_type_diagnostics(
    source_path: &str,
    call: &CallSite,
    arg_types: &Vec<String>,
    keyword_arg_types: &Vec<String>,
    param_types: &Vec<String>,
    param_names: &Vec<String>,
    variadic_type: Option<&str>,
    keyword_variadic_type: Option<&str>,
    unpack_shape: Option<&TypedDictShape>,
    variadic_starred_types: &Vec<String>,
    keyword_expansions: &Vec<KeywordExpansion>,
    verdicts: &Vec<TypeVerdict>,
) -> (res: Vec<Diagnostic>)
    requires
        param_names@.len() <= param_types@.len(),
        match unpack_shape {
            Some(s) => s.wf(),
            None => true,
        },
    ensures
        views_of(res@) == spec_argument_type_diagnostics(
            source_path@,
            *call,
            string_views(arg_types@),
            string_views(keyword_arg_types@),
            string_views(param_types@),
            string_views(param_names@),
            opt_text(variadic_type),
            opt_text(keyword_variadic_type),
            opt_shape(unpack_shape),
            string_views(variadic_starred_types@),
            keyword_expansions@,
            verdicts@,
        ),
{
    let mut prefix = owned("call to `");
    prefix.append(&call.callee);
    prefix.append("` in module `");
    prefix.append(source_path);
    prefix.append("` ");
    let pairs = positional_pairs_exec(arg_types, param_types);
    let mut out = check_pairs(&prefix, "passes `", "` where parameter expects `", &pairs, verdicts);
    if let Some(p) = variadic_type {
        let extra = pairs_against(arg_types, param_types.len(), p);
        append_diags(&mut out, check_pairs(&prefix, "passes `", "` where variadic parameter expects `", &extra, verdicts));
        let starred = pairs_against(variadic_starred_types, 0, p);
        append_diags(
            &mut out,
            check_pairs(&prefix, "expands `*args` element type `", "` where variadic parameter expects `", &starred, verdicts),
        );
    }
    append_diags(
        &mut out,
        keyword_checks(
            &prefix,
            &call.keyword_names,
            keyword_arg_types,
            param_names,
            param_types,
            unpack_shape,
            keyword_variadic_type,
            verdicts,
        ),
    );
    let ghost base = views_of(out@);
    let mut i: usize = 0;
    assert(base =~= base + spec_expansions_checks(
        prefix@,
        keyword_expansions@,
        string_views(param_names@),
        string_views(param_types@),
        opt_shape(unpack_shape),
        opt_text(keyword_variadic_type),
        verdicts@,
        0,
    ));
    while i < keyword_expansions.len()
        invariant
            i <= keyword_expansions@.len(),
            string_views(param_names@).len() <= param_types@.len(),
            views_of(out@) == base + spec_expansions_checks(
                prefix@,
                keyword_expansions@,
                string_views(param_names@),
                string_views(param_types@),
                opt_shape(unpack_shape),
                opt_text(keyword_variadic_type),
                verdicts@,
                i as nat,
            ),
        decreases keyword_expansions@.len() - i,
    {
        let more = expansion_checks(
            &prefix,
            &keyword_expansions[i],
            param_names,
            param_types,
            unpack_shape,
            keyword_variadic_type,
            verdicts,
        );
        append_diags(&mut out, more);
        assert(views_of(out@) =~= base + spec_expansions_checks(
            prefix@,
            keyword_expansions@,
            string_views(param_names@),
            string_views(param_types@),
            opt_shape(unpack_shape),
            opt_text(keyword_variadic_type),
            verdicts@,
            (i + 1) as nat,
        ));
        i = i + 1;
    }
    out
}

} // verus!
