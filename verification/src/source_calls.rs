//! Arguments of a call to a source function, checked against its signature: how many are
//! passed by position, which required parameters are left out, keywords that name
//! positional-only or unknown parameters, parameters bound twice, and `**` expansions of a
//! `TypedDict` or a mapping.
use vstd::prelude::*;
use crate::declarations::string_views;
use crate::diagnostics::{Diagnostic, DiagnosticView, Severity, spec_diagnostic};
use crate::generic_solution::FunctionParamSite;
use crate::hierarchy::{first_index, lemma_first_index};
use crate::semantic_types::names_contain;
use crate::sites::CallSite;
use crate::text::{contains_char, decimal, decimal_string, join_strings, join_with, owned, str_eq};
use crate::typed_dict::{TypedDictFieldShape, TypedDictShape, typed_dict_shape_has_unbounded_extra_keys};

verus! {

/// A `**expr` argument of a call, as far as its type is known: a `TypedDict`, or a mapping with
/// string keys whose value type is given rendered.
#[derive(Debug)]
pub enum KeywordExpansion {
    TypedDict(TypedDictShape),
    Mapping(String),
}

/// The start that every message of these checks shares.
pub open spec fn call_prefix(callee: Seq<char>, path: Seq<char>) -> Seq<char> {
    "call to `"@ + callee + "` in module `"@ + path + "` "@
}

/// A parameter named `k`.
pub open spec fn named(k: Seq<char>) -> spec_fn(FunctionParamSite) -> bool {
    |p: FunctionParamSite| p.name@ == k
}

/// Whether the signature takes keywords it does not name: it has `**kwargs`, or its `**kwargs`
/// unpack a `TypedDict` with extra items.
pub open spec fn spec_accepts_extra_keywords(sig: Seq<FunctionParamSite>, unpack: Option<TypedDictShape>) -> bool {
    (exists|i: int| 0 <= i < sig.len() && #[trigger] sig[i].keyword_variadic) || (unpack matches Some(s)
        && s.extra_items is Some)
}

/// Whether a `TypedDict` declares the key `k`.
pub open spec fn shape_has_key(s: TypedDictShape, k: Seq<char>) -> bool {
    exists|i: int| 0 <= i < s.fields@.len() && #[trigger] s.fields@[i].0@ == k
}

/// The error for one keyword of the call: it names a positional-only parameter, or it names no
/// parameter and neither the unpacked `TypedDict` nor extra keywords take it.
pub open spec fn spec_keyword_diag(
    path: Seq<char>,
    callee: Seq<char>,
    sig: Seq<FunctionParamSite>,
    unpack: Option<TypedDictShape>,
    k: Seq<char>,
) -> Option<DiagnosticView> {
    let pre = call_prefix(callee, path);
    match first_index(sig, named(k)) {
        Some(i) => if sig[i].positional_only {
            Some(
                spec_diagnostic(
                    Severity::Error,
                    "TPY4001"@,
                    pre + "passes positional-only parameter `"@ + k + "` as a keyword"@,
                ),
            )
        } else {
            None
        },
        None => match unpack {
            Some(s) => if shape_has_key(s, k) || s.extra_items is Some {
                None
            } else {
                Some(spec_diagnostic(Severity::Error, "TPY4001"@, pre + "uses unknown unpacked keyword `"@ + k + "`"@))
            },
            None => if spec_accepts_extra_keywords(sig, unpack) {
                None
            } else {
                Some(spec_diagnostic(Severity::Error, "TPY4001"@, pre + "uses unknown keyword `"@ + k + "`"@))
            },
        },
    }
}

/// The errors for the first keywords of the call, in order.
pub open spec fn spec_keyword_diags(
    path: Seq<char>,
    callee: Seq<char>,
    sig: Seq<FunctionParamSite>,
    unpack: Option<TypedDictShape>,
    keywords: Seq<Seq<char>>,
) -> Seq<DiagnosticView>
    decreases keywords.len(),
{
    if keywords.len() == 0 {
        Seq::empty()
    } else {
        let prev = spec_keyword_diags(path, callee, sig, unpack, keywords.drop_last());
        match spec_keyword_diag(path, callee, sig, unpack, keywords.last()) {
            Some(d) => prev.push(d),
            None => prev,
        }
    }
}

/// The names of the parameters that can be passed by position, in order.
pub open spec fn positional_site_names(sig: Seq<FunctionParamSite>) -> Seq<Seq<char>>
    decreases sig.len(),
{
    if sig.len() == 0 {
        Seq::empty()
    } else {
        let prev = positional_site_names(sig.drop_last());
        let p = sig.last();
        if !p.keyword_only && !p.variadic && !p.keyword_variadic {
            prev.push(p.name@)
        } else {
            prev
        }
    }
}

/// The parameters that `count` positional arguments fill.
pub open spec fn filled_names(sig: Seq<FunctionParamSite>, count: nat) -> Seq<Seq<char>> {
    let names = positional_site_names(sig);
    names.take(
        if count < names.len() {
            count as int
        } else {
            names.len() as int
        },
    )
}

/// The errors for keywords of `keywords` that name a parameter already filled by position.
pub open spec fn spec_bound_twice_diags(
    path: Seq<char>,
    callee: Seq<char>,
    filled: Seq<Seq<char>>,
    keywords: Seq<Seq<char>>,
) -> Seq<DiagnosticView>
    decreases keywords.len(),
{
    if keywords.len() == 0 {
        Seq::empty()
    } else {
        let prev = spec_bound_twice_diags(path, callee, filled, keywords.drop_last());
        let k = keywords.last();
        if filled.contains(k) {
            prev.push(
                spec_diagnostic(
                    Severity::Error,
                    "TPY4001"@,
                    call_prefix(callee, path) + "binds parameter `"@ + k + "` both positionally and by keyword"@,
                ),
            )
        } else {
            prev
        }
    }
}

/// The error for one key of a `TypedDict` expanded with `**`: a key also passed by keyword or
/// by position, one that lands on a positional-only parameter, an optional key for a parameter
/// without default, or a key that names no parameter where extra keywords are not taken.
pub open spec fn spec_field_diag(
    path: Seq<char>,
    callee: Seq<char>,
    sig: Seq<FunctionParamSite>,
    keywords: Seq<Seq<char>>,
    filled: Seq<Seq<char>>,
    accepts: bool,
    name: Seq<char>,
    key: Seq<char>,
    field: TypedDictFieldShape,
) -> Option<DiagnosticView> {
    let pre = call_prefix(callee, path);
    if keywords.contains(key) || filled.contains(key) {
        Some(
            spec_diagnostic(
                Severity::Error,
                "TPY4013"@,
                pre + "expands `**"@ + name + "` with duplicate key `"@ + key + "`"@,
            ),
        )
    } else {
        match first_index(sig, named(key)) {
            Some(i) => if sig[i].positional_only {
                Some(
                    spec_diagnostic(
                        Severity::Error,
                        "TPY4013"@,
                        pre + "cannot satisfy positional-only parameter `"@ + key + "` via `**"@ + name + "`"@,
                    ),
                )
            } else if !field.required && !sig[i].has_default {
                Some(
                    spec_diagnostic(
                        Severity::Error,
                        "TPY4013"@,
                        pre + "cannot satisfy required parameter `"@ + key + "` from optional TypedDict key in `**"@
                            + name + "`"@,
                    ),
                )
            } else {
                None
            },
            None => if accepts {
                None
            } else {
                Some(
                    spec_diagnostic(
                        Severity::Error,
                        "TPY4013"@,
                        pre + "uses unknown `**"@ + name + "` key `"@ + key + "`"@,
                    ),
                )
            },
        }
    }
}

/// The errors for the first keys of a `TypedDict` expanded with `**`, in the order the shape
/// lists them.
pub open spec fn spec_field_diags(
    path: Seq<char>,
    callee: Seq<char>,
    sig: Seq<FunctionParamSite>,
    keywords: Seq<Seq<char>>,
    filled: Seq<Seq<char>>,
    accepts: bool,
    name: Seq<char>,
    fields: Seq<(String, TypedDictFieldShape)>,
) -> Seq<DiagnosticView>
    decreases fields.len(),
{
    if fields.len() == 0 {
        Seq::empty()
    } else {
        let prev = spec_field_diags(path, callee, sig, keywords, filled, accepts, name, fields.drop_last());
        match spec_field_diag(path, callee, sig, keywords, filled, accepts, name, fields.last().0@, fields.last().1) {
            Some(d) => prev.push(d),
            None => prev,
        }
    }
}

/// The errors for one `**` expansion: for a `TypedDict`, those of its keys, then, where extra
/// keywords are not taken, one if it may hold undeclared keys and one for its extra items; for
/// a mapping, one where extra keywords are not taken.
pub open spec fn spec_expansion_diags(
    path: Seq<char>,
    callee: Seq<char>,
    sig: Seq<FunctionParamSite>,
    keywords: Seq<Seq<char>>,
    filled: Seq<Seq<char>>,
    accepts: bool,
    e: KeywordExpansion,
) -> Seq<DiagnosticView> {
    let pre = call_prefix(callee, path);
    match e {
        KeywordExpansion::TypedDict(s) => {
            let keys = spec_field_diags(path, callee, sig, keywords, filled, accepts, s.name@, s.fields@);
            let open = if !s.closed && s.extra_items is None && !accepts {
                seq![
                    spec_diagnostic(
                        Severity::Error,
                        "TPY4013"@,
                        pre + "cannot expand open TypedDict `"@ + s.name@ + "` because it may contain undeclared keys"@,
                    ),
                ]
            } else {
                Seq::empty()
            };
            let extra = match s.extra_items {
                Some(x) => if !accepts {
                    seq![
                        spec_diagnostic(
                            Severity::Error,
                            "TPY4013"@,
                            pre + "cannot expand additional `**"@ + s.name@ + "` keys of type `"@ + x.value_type@
                                + "` without `**kwargs`"@,
                        ),
                    ]
                } else {
                    Seq::empty()
                },
                None => Seq::empty(),
            };
            keys + open + extra
        },
        KeywordExpansion::Mapping(v) => if accepts {
            Seq::empty()
        } else {
            seq![
                spec_diagnostic(
                    Severity::Error,
                    "TPY4001"@,
                    pre + "cannot expand `**dict[str, "@ + v@ + "]` without `**kwargs`"@,
                ),
            ]
        },
    }
}

/// The errors for the first `**` expansions of the call, in order.
pub open spec fn spec_expansions_diags(
    path: Seq<char>,
    callee: Seq<char>,
    sig: Seq<FunctionParamSite>,
    keywords: Seq<Seq<char>>,
    filled: Seq<Seq<char>>,
    accepts: bool,
    es: Seq<KeywordExpansion>,
) -> Seq<DiagnosticView>
    decreases es.len(),
{
    if es.len() == 0 {
        Seq::empty()
    } else {
        spec_expansions_diags(path, callee, sig, keywords, filled, accepts, es.drop_last()) + spec_expansion_diags(
            path,
            callee,
            sig,
            keywords,
            filled,
            accepts,
            es.last(),
        )
    }
}

/// All keyword errors of a call: those of its keywords, then the parameters bound both by
/// position and by keyword, then those of its `**` expansions.
pub open spec fn spec_source_function_keyword_diagnostics(
    path: Seq<char>,
    call: CallSite,
    sig: Seq<FunctionParamSite>,
    unpack: Option<TypedDictShape>,
    positional_count: nat,
    expansions: Seq<KeywordExpansion>,
) -> Seq<DiagnosticView> {
    let keywords = string_views(call.keyword_names@);
    let filled = filled_names(sig, positional_count);
    let accepts = spec_accepts_extra_keywords(sig, unpack);
    spec_keyword_diags(path, call.callee@, sig, unpack, keywords) + spec_bound_twice_diags(
        path,
        call.callee@,
        filled,
        keywords,
    ) + spec_expansions_diags(path, call.callee@, sig, keywords, filled, accepts, expansions)
}

fn call_prefix_string(callee: &str, path: &str) -> (res: String)
    ensures
        res@ == call_prefix(callee@, path@),
{
    let mut m = owned("call to `");
    m.append(callee);
    m.append("` in module `");
    m.append(path);
    m.append("` ");
    m
}

fn call_message(callee: &str, path: &str, a: &str, x: &str, b: &str) -> (res: String)
    ensures
        res@ == call_prefix(callee@, path@) + a@ + x@ + b@,
{
    let mut m = call_prefix_string(callee, path);
    m.append(a);
    m.append(x);
    m.append(b);
    m
}

fn call_message2(callee: &str, path: &str, a: &str, x: &str, b: &str, y: &str, c: &str) -> (res: String)
    ensures
        res@ == call_prefix(callee@, path@) + a@ + x@ + b@ + y@ + c@,
{
    let mut m = call_message(callee, path, a, x, b);
    m.append(y);
    m.append(c);
    m
}

fn first_named(sig: &Vec<FunctionParamSite>, k: &str) -> (res: Option<usize>)
    ensures
        match res {
            Some(i) => i < sig@.len() && first_index(sig@, named(k@)) == Some(i as int),
            None => first_index(sig@, named(k@)) is None,
        },
{
    let ghost p = named(k@);
    proof {
        lemma_first_index(sig@, p);
    }
    let mut i: usize = 0;
    while i < sig.len()
        invariant
            i <= sig@.len(),
            p == named(k@),
            forall|j: int| 0 <= j < i ==> !p(#[trigger] sig@[j]),
        decreases sig@.len() - i,
    {
        if str_eq(&sig[i].name, k) {
            proof {
                assert(p(sig@[i as int]));
                lemma_first_index(sig@, p);
                if first_index(sig@, p) != Some(i as int) {
                    let f = first_index(sig@, p).unwrap();
                    assert(!p(sig@[f]));
                }
            }
            return Some(i);
        }
        assert(!p(sig@[i as int]));
        i = i + 1;
    }
    proof {
        lemma_first_index(sig@, p);
        if first_index(sig@, p) is Some {
            let f = first_index(sig@, p).unwrap();
            assert(p(sig@[f]));
        }
    }
    None
}

fn has_key(s: &TypedDictShape, k: &str) -> (res: bool)
    ensures
        res == shape_has_key(*s, k@),
{
    let mut i: usize = 0;
    while i < s.fields.len()
        invariant
            i <= s.fields@.len(),
            forall|j: int| 0 <= j < i ==> #[trigger] s.fields@[j].0@ != k@,
        decreases s.fields@.len() - i,
    {
        if str_eq(&s.fields[i].0, k) {
            return true;
        }
        i = i + 1;
    }
    false
}

fn accepts_extra_keywords(sig: &Vec<FunctionParamSite>, unpack: Option<&TypedDictShape>) -> (res: bool)
    ensures
        res == spec_accepts_extra_keywords(
            sig@,
            match unpack {
                Some(s) => Some(*s),
                None => None,
            },
        ),
{
    let mut i: usize = 0;
    while i < sig.len()
        invariant
            i <= sig@.len(),
            forall|j: int| 0 <= j < i ==> !(#[trigger] sig@[j]).keyword_variadic,
        decreases sig@.len() - i,
    {
        if sig[i].keyword_variadic {
            assert(sig@[i as int].keyword_variadic);
            return true;
        }
        i = i + 1;
    }
    match unpack {
        Some(s) => s.extra_items.is_some(),
        None => false,
    }
}

fn positional_names(sig: &Vec<FunctionParamSite>) -> (res: Vec<String>)
    ensures
        string_views(res@) == positional_site_names(sig@),
{
    let mut out: Vec<String> = Vec::new();
    let mut i: usize = 0;
    assert(sig@.take(0) =~= Seq::<FunctionParamSite>::empty());
    while i < sig.len()
        invariant
            i <= sig@.len(),
            string_views(out@) == positional_site_names(sig@.take(i as int)),
        decreases sig@.len() - i,
    {
        assert(sig@.take(i + 1).drop_last() =~= sig@.take(i as int));
        assert(sig@.take(i + 1).last() == sig@[i as int]);
        let p = &sig[i];
        if !p.keyword_only && !p.variadic && !p.keyword_variadic {
            let ghost before = string_views(out@);
            out.push(p.name.clone());
            assert(string_views(out@) =~= before.push(p.name@));
        }
        i = i + 1;
    }
    assert(sig@.take(sig@.len() as int) =~= sig@);
    out
}

/// The diagnostics taken by their views.
pub open spec fn views_of(s: Seq<Diagnostic>) -> Seq<DiagnosticView> {
    s.map_values(|d: Diagnostic| d@)
}

/// An optional borrowed shape as an optional value.
pub open spec fn opt_shape(o: Option<&TypedDictShape>) -> Option<TypedDictShape> {
    match o {
        Some(s) => Some(*s),
        None => None,
    }
}

fn keyword_diags(
    path: &str,
    call: &CallSite,
    sig: &Vec<FunctionParamSite>,
    unpack: Option<&TypedDictShape>,
) -> (res: Vec<Diagnostic>)
    ensures
        views_of(res@) == spec_keyword_diags(path@, call.callee@, sig@, opt_shape(unpack), string_views(call.keyword_names@)),
{
    let ghost kws = string_views(call.keyword_names@);
    let accepts = accepts_extra_keywords(sig, unpack);
    let mut out: Vec<Diagnostic> = Vec::new();
    let mut k: usize = 0;
    assert(kws.take(0) =~= Seq::<Seq<char>>::empty());
    assert(views_of(out@) =~= Seq::<DiagnosticView>::empty());
    while k < call.keyword_names.len()
        invariant
            k <= call.keyword_names@.len(),
            kws == string_views(call.keyword_names@),
            accepts == spec_accepts_extra_keywords(sig@, opt_shape(unpack)),
            views_of(out@) == spec_keyword_diags(path@, call.callee@, sig@, opt_shape(unpack), kws.take(k as int)),
        decreases call.keyword_names@.len() - k,
    {
        let kw = &call.keyword_names[k];
        assert(kws.take(k + 1).drop_last() =~= kws.take(k as int));
        assert(kws.take(k + 1).last() == kw@);
        let d: Option<Diagnostic> = match first_named(sig, kw) {
            Some(i) => if sig[i].positional_only {
                Some(
                    Diagnostic::error(
                        "TPY4001",
                        call_message(&call.callee, path, "passes positional-only parameter `", kw, "` as a keyword"),
                    ),
                )
            } else {
                None
            },
            None => match unpack {
                Some(s) => if has_key(s, kw) || s.extra_items.is_some() {
                    None
                } else {
                    Some(
                        Diagnostic::error(
                            "TPY4001",
                            call_message(&call.callee, path, "uses unknown unpacked keyword `", kw, "`"),
                        ),
                    )
                },
                None => if accepts {
                    None
                } else {
                    Some(Diagnostic::error("TPY4001", call_message(&call.callee, path, "uses unknown keyword `", kw, "`")))
                },
            },
        };
        assert(match d {
            Some(x) => spec_keyword_diag(path@, call.callee@, sig@, opt_shape(unpack), kw@) == Some(x@),
            None => spec_keyword_diag(path@, call.callee@, sig@, opt_shape(unpack), kw@) is None,
        });
        match d {
            Some(x) => {
                let ghost before = views_of(out@);
                out.push(x);
                assert(views_of(out@) =~= before.push(x@));
            },
            None => {},
        }
        k = k + 1;
    }
    assert(kws.take(kws.len() as int) =~= kws);
    out
}

fn filled_list(sig: &Vec<FunctionParamSite>, count: usize) -> (res: Vec<String>)
    ensures
        string_views(res@) == filled_names(sig@, count as nat),
{
    let names = positional_names(sig);
    let ghost nv = string_views(names@);
    let reach = if count < names.len() {
        count
    } else {
        names.len()
    };
    let mut out: Vec<String> = Vec::new();
    let mut i: usize = 0;
    while i < reach
        invariant
            i <= reach,
            reach <= names@.len(),
            nv == string_views(names@),
            string_views(out@) == nv.take(i as int),
        decreases reach - i,
    {
        let ghost before = string_views(out@);
        out.push(names[i].clone());
        assert(string_views(out@) =~= before.push(nv[i as int]));
        assert(nv.take(i + 1) =~= nv.take(i as int).push(nv[i as int]));
        i = i + 1;
    }
    out
}

fn bound_twice_diags(path: &str, call: &CallSite, filled: &Vec<String>) -> (res: Vec<Diagnostic>)
    ensures
        views_of(res@) == spec_bound_twice_diags(path@, call.callee@, string_views(filled@), string_views(call.keyword_names@)),
{
    let ghost kws = string_views(call.keyword_names@);
    let mut out: Vec<Diagnostic> = Vec::new();
    let mut k: usize = 0;
    assert(kws.take(0) =~= Seq::<Seq<char>>::empty());
    assert(views_of(out@) =~= Seq::<DiagnosticView>::empty());
    while k < call.keyword_names.len()
        invariant
            k <= call.keyword_names@.len(),
            kws == string_views(call.keyword_names@),
            views_of(out@) == spec_bound_twice_diags(path@, call.callee@, string_views(filled@), kws.take(k as int)),
        decreases call.keyword_names@.len() - k,
    {
        let kw = &call.keyword_names[k];
        assert(kws.take(k + 1).drop_last() =~= kws.take(k as int));
        assert(kws.take(k + 1).last() == kw@);
        if names_contain(filled, kw) {
            let d = Diagnostic::error(
                "TPY4001",
                call_message(&call.callee, path, "binds parameter `", kw, "` both positionally and by keyword"),
            );
            let ghost before = views_of(out@);
            out.push(d);
            assert(views_of(out@) =~= before.push(d@));
        }
        k = k + 1;
    }
    assert(kws.take(kws.len() as int) =~= kws);
    out
}

fn field_diag(
    path: &str,
    callee: &str,
    sig: &Vec<FunctionParamSite>,
    keywords: &Vec<String>,
    filled: &Vec<String>,
    accepts: bool,
    name: &str,
    key: &str,
    field: &TypedDictFieldShape,
) -> (res: Option<Diagnostic>)
    ensures
        match res {
            Some(d) => spec_field_diag(
                path@,
                callee@,
                sig@,
                string_views(keywords@),
                string_views(filled@),
                accepts,
                name@,
                key@,
                *field,
            ) == Some(d@),
            None => spec_field_diag(
                path@,
                callee@,
                sig@,
                string_views(keywords@),
                string_views(filled@),
                accepts,
                name@,
                key@,
                *field,
            ) is None,
        },
{
    if names_contain(keywords, key) || names_contain(filled, key) {
        return Some(
            Diagnostic::error("TPY4013", call_message2(callee, path, "expands `**", name, "` with duplicate key `", key, "`")),
        );
    }
    match first_named(sig, key) {
        Some(i) => if sig[i].positional_only {
            Some(
                Diagnostic::error(
                    "TPY4013",
                    call_message2(callee, path, "cannot satisfy positional-only parameter `", key, "` via `**", name, "`"),
                ),
            )
        } else if !field.required && !sig[i].has_default {
            Some(
                Diagnostic::error(
                    "TPY4013",
                    call_message2(
                        callee,
                        path,
                        "cannot satisfy required parameter `",
                        key,
                        "` from optional TypedDict key in `**",
                        name,
                        "`",
                    ),
                ),
            )
        } else {
            None
        },
        None => if accepts {
            None
        } else {
            Some(Diagnostic::error("TPY4013", call_message2(callee, path, "uses unknown `**", name, "` key `", key, "`")))
        },
    }
}

fn expansion_diags(
    path: &str,
    callee: &str,
    sig: &Vec<FunctionParamSite>,
    keywords: &Vec<String>,
    filled: &Vec<String>,
    accepts: bool,
    e: &KeywordExpansion,
) -> (res: Vec<Diagnostic>)
    ensures
        views_of(res@) == spec_expansion_diags(
            path@,
            callee@,
            sig@,
            string_views(keywords@),
            string_views(filled@),
            accepts,
            *e,
        ),
{
    let ghost kv = string_views(keywords@);
    let ghost fv = string_views(filled@);
    let mut out: Vec<Diagnostic> = Vec::new();
    match e {
        KeywordExpansion::TypedDict(s) => {
            let mut j: usize = 0;
            assert(s.fields@.take(0) =~= Seq::<(String, TypedDictFieldShape)>::empty());
            assert(views_of(out@) =~= Seq::<DiagnosticView>::empty());
            while j < s.fields.len()
                invariant
                    j <= s.fields@.len(),
                    kv == string_views(keywords@),
                    fv == string_views(filled@),
                    views_of(out@) == spec_field_diags(path@, callee@, sig@, kv, fv, accepts, s.name@, s.fields@.take(j as int)),
                decreases s.fields@.len() - j,
            {
                assert(s.fields@.take(j + 1).drop_last() =~= s.fields@.take(j as int));
                assert(s.fields@.take(j + 1).last() == s.fields@[j as int]);
                match field_diag(path, callee, sig, keywords, filled, accepts, &s.name, &s.fields[j].0, &s.fields[j].1) {
                    Some(d) => {
                        let ghost before = views_of(out@);
                        out.push(d);
                        assert(views_of(out@) =~= before.push(d@));
                    },
                    None => {},
                }
                j = j + 1;
            }
            assert(s.fields@.take(s.fields@.len() as int) =~= s.fields@);
            let ghost keys = views_of(out@);
            if typed_dict_shape_has_unbounded_extra_keys(s) && !accepts {
                let d = Diagnostic::error(
                    "TPY4013",
                    call_message(callee, path, "cannot expand open TypedDict `", &s.name, "` because it may contain undeclared keys"),
                );
                out.push(d);
                assert(views_of(out@) =~= keys + seq![d@]);
            } else {
                assert(views_of(out@) =~= keys + Seq::<DiagnosticView>::empty());
            }
            let ghost mid = views_of(out@);
            match &s.extra_items {
                Some(x) => if !accepts {
                    let d = Diagnostic::error(
                        "TPY4013",
                        call_message2(
                            callee,
                            path,
                            "cannot expand additional `**",
                            &s.name,
                            "` keys of type `",
                            &x.value_type,
                            "` without `**kwargs`",
                        ),
                    );
                    out.push(d);
                    assert(views_of(out@) =~= mid + seq![d@]);
                } else {
                    assert(views_of(out@) =~= mid + Seq::<DiagnosticView>::empty());
                },
                None => {
                    assert(views_of(out@) =~= mid + Seq::<DiagnosticView>::empty());
                },
            }
        },
        KeywordExpansion::Mapping(v) => {
            if !accepts {
                let d = Diagnostic::error(
                    "TPY4001",
                    call_message(callee, path, "cannot expand `**dict[str, ", v, "]` without `**kwargs`"),
                );
                out.push(d);
                assert(views_of(out@) =~= seq![d@]);
            } else {
                assert(views_of(out@) =~= Seq::<DiagnosticView>::empty());
            }
        },
    }
    out
}

/// The keyword errors of a call to a source function with the parameters `signature`: keywords
/// that name a positional-only parameter or no parameter, parameters bound both by position and
/// by keyword, and the `**` expansions. `unpack` is the `TypedDict` that the signature's
/// `**kwargs` unpack, where they do; `positional_count` is the number of positional argument
/// types after `*` expansion; `expansions` are the call's `**` arguments whose types are known.
pub fn direct_source_function_keyword_diagnostics(
    source_path: &str,
    call: &CallSite,
    signature: &Vec<FunctionParamSite>,
    unpack: Option<&TypedDictShape>,
    positional_count: usize,
    expansions: &Vec<KeywordExpansion>,
) -> (res: Vec<Diagnostic>)
    ensures
        views_of(res@) == spec_source_function_keyword_diagnostics(
            source_path@,
            *call,
            signature@,
            opt_shape(unpack),
            positional_count as nat,
            expansions@,
        ),
{
    let ghost kws = string_views(call.keyword_names@);
    let accepts = accepts_extra_keywords(signature, unpack);
    let filled = filled_list(signature, positional_count);
    let ghost fv = string_views(filled@);
    let mut out = keyword_diags(source_path, call, signature, unpack);
    let mut twice = bound_twice_diags(source_path, call, &filled);
    let ghost a = views_of(out@);
    let ghost b = views_of(twice@);
    out.append(&mut twice);
    assert(views_of(out@) =~= a + b);
    let ghost ab = views_of(out@);
    let mut e: usize = 0;
    assert(expansions@.take(0) =~= Seq::<KeywordExpansion>::empty());
    assert(ab =~= ab + spec_expansions_diags(source_path@, call.callee@, signature@, kws, fv, accepts, expansions@.take(0)));
    while e < expansions.len()
        invariant
            e <= expansions@.len(),
            kws == string_views(call.keyword_names@),
            fv == string_views(filled@),
            accepts == spec_accepts_extra_keywords(signature@, opt_shape(unpack)),
            views_of(out@) == ab + spec_expansions_diags(
                source_path@,
                call.callee@,
                signature@,
                kws,
                fv,
                accepts,
                expansions@.take(e as int),
            ),
        decreases expansions@.len() - e,
    {
        assert(expansions@.take(e + 1).drop_last() =~= expansions@.take(e as int));
        assert(expansions@.take(e + 1).last() == expansions@[e as int]);
        let mut more = expansion_diags(source_path, &call.callee, signature, &call.keyword_names, &filled, accepts, &expansions[e]);
        let ghost before = views_of(out@);
        let ghost mv = views_of(more@);
        out.append(&mut more);
        assert(views_of(out@) =~= before + mv);
        assert(views_of(out@) =~= ab + spec_expansions_diags(
            source_path@,
            call.callee@,
            signature@,
            kws,
            fv,
            accepts,
            expansions@.take(e + 1),
        ));
        e = e + 1;
    }
    assert(expansions@.take(expansions@.len() as int) =~= expansions@);
    out
}

/// An entry of a `TypedDict` under the key `k`.
pub open spec fn keyed(k: Seq<char>) -> spec_fn((String, TypedDictFieldShape)) -> bool {
    |f: (String, TypedDictFieldShape)| f.0@ == k
}

/// Whether a `**` argument surely supplies the parameter `name`: a `TypedDict` whose entry for
/// that key is required.
pub open spec fn expansion_supplies(e: KeywordExpansion, name: Seq<char>) -> bool {
    match e {
        KeywordExpansion::TypedDict(s) => match first_index(s.fields@, keyed(name)) {
            Some(i) => s.fields@[i].1.required,
            None => false,
        },
        KeywordExpansion::Mapping(_) => false,
    }
}

/// Whether some `**` argument surely supplies the parameter `name`.
pub open spec fn supplied_by_expansion(es: Seq<KeywordExpansion>, name: Seq<char>) -> bool {
    exists|i: int| 0 <= i < es.len() && expansion_supplies(#[trigger] es[i], name)
}

/// Whether the parameter at `index` is required and the call leaves it out: one without
/// default that is keyword-only and neither passed by keyword nor supplied by a `**` argument,
/// or that may be passed by position, lies beyond the positional arguments, and is neither
/// passed by keyword nor supplied by a `**` argument.
pub open spec fn param_missing(
    p: FunctionParamSite,
    index: int,
    positional_count: nat,
    keywords: Seq<Seq<char>>,
    es: Seq<KeywordExpansion>,
) -> bool {
    if p.has_default {
        false
    } else if p.keyword_only {
        !keywords.contains(p.name@) && !supplied_by_expansion(es, p.name@)
    } else if p.variadic || p.keyword_variadic {
        false
    } else {
        index >= positional_count && !keywords.contains(p.name@) && !supplied_by_expansion(es, p.name@)
    }
}

/// The names of the first parameters that the call leaves out, in order.
pub open spec fn spec_missing_params(
    sig: Seq<FunctionParamSite>,
    positional_count: nat,
    keywords: Seq<Seq<char>>,
    es: Seq<KeywordExpansion>,
) -> Seq<Seq<char>>
    decreases sig.len(),
{
    if sig.len() == 0 {
        Seq::empty()
    } else {
        let prev = spec_missing_params(sig.drop_last(), positional_count, keywords, es);
        if param_missing(sig.last(), sig.len() - 1, positional_count, keywords, es) {
            prev.push(sig.last().name@)
        } else {
            prev
        }
    }
}

/// The required keys of the first entries of an unpacked `TypedDict` that no keyword passes.
pub open spec fn spec_missing_unpacked(fields: Seq<(String, TypedDictFieldShape)>, keywords: Seq<Seq<char>>) -> Seq<
    Seq<char>,
>
    decreases fields.len(),
{
    if fields.len() == 0 {
        Seq::empty()
    } else {
        let prev = spec_missing_unpacked(fields.drop_last(), keywords);
        if fields.last().1.required && !keywords.contains(fields.last().0@) {
            prev.push(fields.last().0@)
        } else {
            prev
        }
    }
}

/// The arity error of a call to a source function: more positional arguments than positional
/// parameters (or a `*` argument) where the signature has no `*args` (none when the `*`
/// argument goes to a dotted callee), or else the required parameters and unpacked keys that
/// the call leaves out.
pub open spec fn spec_source_function_arity_diagnostic(
    path: Seq<char>,
    call: CallSite,
    sig: Seq<FunctionParamSite>,
    unpack: Option<TypedDictShape>,
    positional_count: nat,
    starred_count: nat,
    es: Seq<KeywordExpansion>,
) -> Option<DiagnosticView> {
    let pre = call_prefix(call.callee@, path);
    let params = positional_site_names(sig).len();
    let has_variadic = exists|i: int| 0 <= i < sig.len() && #[trigger] sig[i].variadic;
    if !has_variadic && (positional_count > params || starred_count > 0) {
        if starred_count > 0 && call.callee@.contains('.') {
            None
        } else {
            Some(
                spec_diagnostic(
                    Severity::Error,
                    "TPY4001"@,
                    pre + "expects at most "@ + decimal(params) + " positional argument(s) but received "@ + decimal(
                        positional_count,
                    ),
                ),
            )
        }
    } else {
        let keywords = string_views(call.keyword_names@);
        let missing = spec_missing_params(sig, positional_count, keywords, es) + match unpack {
            Some(s) => spec_missing_unpacked(s.fields@, keywords),
            None => Seq::empty(),
        };
        if missing.len() == 0 {
            None
        } else {
            Some(
                spec_diagnostic(
                    Severity::Error,
                    "TPY4001"@,
                    pre + "is missing required argument(s): "@ + join_with(missing, ", "@),
                ),
            )
        }
    }
}

fn field_required(s: &TypedDictShape, name: &str) -> (res: bool)
    ensures
        res == match first_index(s.fields@, keyed(name@)) {
            Some(i) => s.fields@[i].1.required,
            None => false,
        },
{
    let ghost p = keyed(name@);
    proof {
        lemma_first_index(s.fields@, p);
    }
    let mut i: usize = 0;
    while i < s.fields.len()
        invariant
            i <= s.fields@.len(),
            p == keyed(name@),
            forall|j: int| 0 <= j < i ==> !p(#[trigger] s.fields@[j]),
        decreases s.fields@.len() - i,
    {
        if str_eq(&s.fields[i].0, name) {
            proof {
                assert(p(s.fields@[i as int]));
                lemma_first_index(s.fields@, p);
                if first_index(s.fields@, p) != Some(i as int) {
                    let f = first_index(s.fields@, p).unwrap();
                    assert(!p(s.fields@[f]));
                }
            }
            return s.fields[i].1.required;
        }
        assert(!p(s.fields@[i as int]));
        i = i + 1;
    }
    proof {
        lemma_first_index(s.fields@, p);
        if first_index(s.fields@, p) is Some {
            let f = first_index(s.fields@, p).unwrap();
            assert(p(s.fields@[f]));
        }
    }
    false
}

fn supplied(es: &Vec<KeywordExpansion>, name: &str) -> (res: bool)
    ensures
        res == supplied_by_expansion(es@, name@),
{
    let mut i: usize = 0;
    while i < es.len()
        invariant
            i <= es@.len(),
            forall|j: int| 0 <= j < i ==> !expansion_supplies(#[trigger] es@[j], name@),
        decreases es@.len() - i,
    {
        let hit = match &es[i] {
            KeywordExpansion::TypedDict(s) => field_required(s, name),
            KeywordExpansion::Mapping(_) => false,
        };
        if hit {
            assert(expansion_supplies(es@[i as int], name@));
            return true;
        }
        i = i + 1;
    }
    false
}

/// The arity error of a call to a source function with the parameters `signature`.
/// `positional_count` is the number of positional argument types after `*` expansion and
/// `starred_count` the number of `*` arguments of unknown length left over; `unpack` is the
/// `TypedDict` that the signature's `**kwargs` unpack, where they do, and `expansions` are the
/// call's `**` arguments whose types are known.
pub fn direct_source_function_arity_diagnostic(
    source_path: &str,
    call: &CallSite,
    signature: &Vec<FunctionParamSite>,
    unpack: Option<&TypedDictShape>,
    positional_count: usize,
    starred_count: usize,
    expansions: &Vec<KeywordExpansion>,
) -> (res: Option<Diagnostic>)
    ensures
        match res {
            Some(d) => spec_source_function_arity_diagnostic(
                source_path@,
                *call,
                signature@,
                opt_shape(unpack),
                positional_count as nat,
                starred_count as nat,
                expansions@,
            ) == Some(d@),
            None => spec_source_function_arity_diagnostic(
                source_path@,
                *call,
                signature@,
                opt_shape(unpack),
                positional_count as nat,
                starred_count as nat,
                expansions@,
            ) is None,
        },
{
    let names = positional_names(signature);
    assert(string_views(names@).len() == names@.len());
    let params = names.len();
    let mut has_variadic = false;
    let mut v: usize = 0;
    while v < signature.len()
        invariant
            v <= signature@.len(),
            has_variadic == exists|i: int| 0 <= i < v && #[trigger] signature@[i].variadic,
        decreases signature@.len() - v,
    {
        if signature[v].variadic {
            assert(signature@[v as int].variadic);
            has_variadic = true;
        }
        v = v + 1;
    }
    if !has_variadic && (positional_count > params || starred_count > 0) {
        if starred_count > 0 && contains_char(&call.callee, '.') {
            return None;
        }
        let mut m = call_message(
            &call.callee,
            source_path,
            "expects at most ",
            &decimal_string(params),
            " positional argument(s) but received ",
        );
        m.append(&decimal_string(positional_count));
        return Some(Diagnostic::error("TPY4001", m));
    }
    let ghost kws = string_views(call.keyword_names@);
    let mut missing: Vec<String> = Vec::new();
    let mut i: usize = 0;
    assert(signature@.take(0) =~= Seq::<FunctionParamSite>::empty());
    while i < signature.len()
        invariant
            i <= signature@.len(),
            kws == string_views(call.keyword_names@),
            string_views(missing@) == spec_missing_params(signature@.take(i as int), positional_count as nat, kws, expansions@),
        decreases signature@.len() - i,
    {
        assert(signature@.take(i + 1).drop_last() =~= signature@.take(i as int));
        assert(signature@.take(i + 1).last() == signature@[i as int]);
        let p = &signature[i];
        let is_missing = if p.has_default {
            false
        } else if p.keyword_only {
            !names_contain(&call.keyword_names, &p.name) && !supplied(expansions, &p.name)
        } else if p.variadic || p.keyword_variadic {
            false
        } else {
            i >= positional_count && !names_contain(&call.keyword_names, &p.name) && !supplied(expansions, &p.name)
        };
        if is_missing {
            let ghost before = string_views(missing@);
            missing.push(p.name.clone());
            assert(string_views(missing@) =~= before.push(p.name@));
        }
        i = i + 1;
    }
    assert(signature@.take(signature@.len() as int) =~= signature@);
    let ghost from_params = string_views(missing@);
    match unpack {
        Some(s) => {
            let mut j: usize = 0;
            assert(s.fields@.take(0) =~= Seq::<(String, TypedDictFieldShape)>::empty());
            assert(string_views(missing@) =~= from_params + spec_missing_unpacked(s.fields@.take(0), kws));
            while j < s.fields.len()
                invariant
                    j <= s.fields@.len(),
                    kws == string_views(call.keyword_names@),
                    string_views(missing@) == from_params + spec_missing_unpacked(s.fields@.take(j as int), kws),
                decreases s.fields@.len() - j,
            {
                assert(s.fields@.take(j + 1).drop_last() =~= s.fields@.take(j as int));
                assert(s.fields@.take(j + 1).last() == s.fields@[j as int]);
                if s.fields[j].1.required && !names_contain(&call.keyword_names, &s.fields[j].0) {
                    let ghost before = string_views(missing@);
                    missing.push(s.fields[j].0.clone());
                    assert(string_views(missing@) =~= before.push(s.fields@[j as int].0@));
                }
                j = j + 1;
            }
            assert(s.fields@.take(s.fields@.len() as int) =~= s.fields@);
        },
        None => {
            assert(string_views(missing@) =~= from_params + Seq::<Seq<char>>::empty());
        },
    }
    if missing.len() == 0 {
        assert(string_views(missing@).len() == 0);
        return None;
    }
    let mut m = call_prefix_string(&call.callee, source_path);
    m.append("is missing required argument(s): ");
    let joined = join_strings(&missing, ", ");
    assert(missing@.map_values(|x: String| x@) =~= string_views(missing@));
    m.append(&joined);
    Some(Diagnostic::error("TPY4001", m))
}

} // verus!
