//! Reading rendered signatures and type arguments: splitting at top-level commas, the
//! parameters of a signature `(a: int, /, *args, b: str = ...) -> T`, unresolved parameter
//! lists, and import targets.
use vstd::prelude::*;
use crate::declarations::string_views;
use crate::text::{
    owned, str_eq, str_trim, str_starts_with, str_ends_with, substring, trim, starts_with, ends_with,
    split_once, rsplit_once, str_split_once, str_rsplit_once, trim_start, trim_end, is_ws,
};

verus! {

/// Whether a character opens a bracket.
pub open spec fn is_open_bracket(c: char) -> bool {
    c == '[' || c == '(' || c == '{'
}

/// Whether a character closes a bracket.
pub open spec fn is_close_bracket(c: char) -> bool {
    c == ']' || c == ')' || c == '}'
}

/// Where a left-to-right split at top-level commas stands: the parts already closed, the part
/// being read, and the bracket depth.
pub struct SplitState {
    pub parts: Seq<Seq<char>>,
    pub current: Seq<char>,
    pub depth: nat,
}

/// One character of the split: a comma outside brackets closes the current part; brackets
/// change the depth (never below zero); every other character joins the current part.
pub open spec fn split_step(st: SplitState, c: char) -> SplitState {
    if c == ',' && st.depth == 0 {
        SplitState { parts: st.parts.push(st.current), current: Seq::empty(), depth: 0 }
    } else if is_open_bracket(c) {
        SplitState { parts: st.parts, current: st.current.push(c), depth: st.depth + 1 }
    } else if is_close_bracket(c) {
        SplitState {
            parts: st.parts,
            current: st.current.push(c),
            depth: if st.depth > 0 {
                (st.depth - 1) as nat
            } else {
                0
            },
        }
    } else {
        SplitState { parts: st.parts, current: st.current.push(c), depth: st.depth }
    }
}

/// The split state after reading all of `s`.
pub open spec fn split_run(s: Seq<char>) -> SplitState
    decreases s.len(),
{
    if s.len() == 0 {
        SplitState { parts: Seq::empty(), current: Seq::empty(), depth: 0 }
    } else {
        split_step(split_run(s.drop_last()), s.last())
    }
}

/// The parts of `s` between commas that stand outside any brackets, untrimmed.
pub open spec fn spec_split_top_level(s: Seq<char>) -> Seq<Seq<char>> {
    let st = split_run(s);
    st.parts.push(st.current)
}

/// Every part of a split is no longer than what was split.
pub proof fn lemma_split_parts_short(s: Seq<char>)
    ensures
        forall|j: int|
            0 <= j < spec_split_top_level(s).len() ==> #[trigger] spec_split_top_level(s)[j].len()
                <= s.len(),
        split_run(s).depth <= s.len(),
    decreases s.len(),
{
    if s.len() > 0 {
        lemma_split_parts_short(s.drop_last());
        let st = split_run(s.drop_last());
        assert(forall|j: int| 0 <= j < st.parts.len() ==> st.parts[j].len() <= s.len() - 1) by {
            assert forall|j: int| 0 <= j < st.parts.len() implies st.parts[j].len() <= s.len() - 1 by {
                assert(spec_split_top_level(s.drop_last())[j] == st.parts[j]);
            }
        }
        assert(spec_split_top_level(s.drop_last())[st.parts.len() as int] == st.current);
    }
}

/// Splits type arguments or parameters at the commas that stand outside any brackets.
pub fn split_top_level_type_args(s: &str) -> (res: Vec<String>)
    ensures
        string_views(res@) == spec_split_top_level(s@),
{
    let n = s.unicode_len();
    let mut parts: Vec<String> = Vec::new();
    let mut start: usize = 0;
    let mut depth: usize = 0;
    let mut i: usize = 0;
    assert(s@.take(0) =~= Seq::<char>::empty());
    while i < n
        invariant
            n == s@.len(),
            i <= n,
            start <= i,
            depth <= i,
            string_views(parts@) == split_run(s@.take(i as int)).parts,
            s@.subrange(start as int, i as int) == split_run(s@.take(i as int)).current,
            depth == split_run(s@.take(i as int)).depth,
        decreases n - i,
    {
        let c = s.get_char(i);
        assert(s@.take(i + 1).drop_last() =~= s@.take(i as int));
        assert(s@.take(i + 1).last() == c);
        assert(s@.subrange(start as int, i + 1) =~= s@.subrange(start as int, i as int).push(c));
        if c == ',' && depth == 0 {
            let part = substring(s, start, i);
            let ghost before = parts@;
            parts.push(part);
            assert(string_views(parts@) =~= string_views(before).push(part@));
            start = i + 1;
            assert(s@.subrange(start as int, i + 1) =~= Seq::<char>::empty());
        } else if c == '[' || c == '(' || c == '{' {
            depth = depth + 1;
        } else if c == ']' || c == ')' || c == '}' {
            if depth > 0 {
                depth = depth - 1;
            }
        }
        i = i + 1;
    }
    assert(s@.take(n as int) =~= s@);
    let last = substring(s, start, n);
    let ghost before = parts@;
    parts.push(last);
    assert(string_views(parts@) =~= string_views(before).push(last@));
    parts
}

/// A parameter of a rendered signature.
#[derive(Debug)]
pub struct DirectSignatureParam {
    pub name: String,
    pub annotation: String,
    pub has_default: bool,
    pub positional_only: bool,
    pub keyword_only: bool,
    pub variadic: bool,
    pub keyword_variadic: bool,
}

/// The plain-value view of a parameter.
pub struct ParamView {
    pub name: Seq<char>,
    pub annotation: Seq<char>,
    pub has_default: bool,
    pub positional_only: bool,
    pub keyword_only: bool,
    pub variadic: bool,
    pub keyword_variadic: bool,
}

impl View for DirectSignatureParam {
    type V = ParamView;

    open spec fn view(&self) -> ParamView {
        ParamView {
            name: self.name@,
            annotation: self.annotation@,
            has_default: self.has_default,
            positional_only: self.positional_only,
            keyword_only: self.keyword_only,
            variadic: self.variadic,
            keyword_variadic: self.keyword_variadic,
        }
    }
}

impl DirectSignatureParam {
    /// A copy of this parameter.
    pub fn duplicate(&self) -> (res: DirectSignatureParam)
        ensures
            res@ == self@,
    {
        DirectSignatureParam {
            name: self.name.clone(),
            annotation: self.annotation.clone(),
            has_default: self.has_default,
            positional_only: self.positional_only,
            keyword_only: self.keyword_only,
            variadic: self.variadic,
            keyword_variadic: self.keyword_variadic,
        }
    }
}

/// Copies of the parameters.
pub fn clone_params(ps: &Vec<DirectSignatureParam>) -> (res: Vec<DirectSignatureParam>)
    ensures
        param_views(res@) == param_views(ps@),
{
    let mut out: Vec<DirectSignatureParam> = Vec::new();
    let mut i: usize = 0;
    while i < ps.len()
        invariant
            i <= ps@.len(),
            out@.len() == i,
            forall|j: int| 0 <= j < i ==> out@[j]@ == ps@[j]@,
        decreases ps@.len() - i,
    {
        out.push(ps[i].duplicate());
        i = i + 1;
    }
    assert(param_views(out@) =~= param_views(ps@));
    out
}

/// The parameters taken by their views.
pub open spec fn param_views(s: Seq<DirectSignatureParam>) -> Seq<ParamView> {
    s.map_values(|p: DirectSignatureParam| p@)
}

/// What lies between the opening `(` of a signature and its first `)`.
pub open spec fn spec_signature_inner(signature: Seq<char>) -> Option<Seq<char>> {
    if starts_with(signature, "("@) {
        match split_once(signature.skip(1), ')') {
            Some((inner, _)) => Some(inner),
            None => None,
        }
    } else {
        None
    }
}

/// `s` without its trailing `=` characters.
pub open spec fn trim_end_eq(s: Seq<char>) -> Seq<char>
    decreases s.len(),
{
    if s.len() > 0 && s.last() == '=' {
        trim_end_eq(s.drop_last())
    } else {
        s
    }
}

/// The index of the first part that is `target` once trimmed.
pub open spec fn first_trimmed_index(parts: Seq<Seq<char>>, target: Seq<char>) -> Option<int> {
    if exists|i: int| 0 <= i < parts.len() && trim(parts[i]) == target {
        Some(
            choose|i: int|
                0 <= i < parts.len() && trim(parts[i]) == target && forall|j: int|
                    0 <= j < i ==> trim(parts[j]) != target,
        )
    } else {
        None
    }
}

/// The parameter read from the part at `index`, and whether keyword-only parameters have begun
/// after it, given whether they had begun before it.
pub open spec fn spec_param_of_part(
    part: Seq<char>,
    index: int,
    slash: Option<int>,
    star: Option<int>,
    keyword_only_active: bool,
) -> (ParamView, bool) {
    let has_default = ends_with(part, "="@);
    let p1 = trim(trim_end_eq(part));
    let double = starts_with(p1, "**"@);
    let single = !double && starts_with(p1, "*"@);
    let p2 = if double {
        trim(p1.skip(2))
    } else if single {
        trim(p1.skip(1))
    } else {
        p1
    };
    let active = keyword_only_active || single;
    let (name, annotation) = match split_once(p2, ':') {
        Some((a, b)) => (trim(a), trim(b)),
        None => (p2, Seq::empty()),
    };
    (
        ParamView {
            name,
            annotation,
            has_default,
            positional_only: match slash {
                Some(s) => index < s,
                None => false,
            },
            keyword_only: !single && !double && ((match star {
                Some(s) => index > s,
                None => false,
            }) || active),
            variadic: single,
            keyword_variadic: double,
        },
        active,
    )
}

/// The parameters read from the first `n` parts, and whether keyword-only parameters have begun.
pub open spec fn spec_params_prefix(
    parts: Seq<Seq<char>>,
    slash: Option<int>,
    star: Option<int>,
    n: nat,
) -> (Seq<ParamView>, bool)
    decreases n,
{
    if n == 0 {
        (Seq::empty(), false)
    } else {
        let (ps, active) = spec_params_prefix(parts, slash, star, (n - 1) as nat);
        let part = trim(parts[n - 1]);
        if part == "/"@ {
            (ps, active)
        } else if part == "*"@ {
            (ps, true)
        } else {
            let (p, a) = spec_param_of_part(part, n - 1, slash, star, active);
            (ps.push(p), a)
        }
    }
}

/// The parameters of a rendered signature, or `None` when it does not open with `(` or has no
/// `)`; an empty list is empty.
pub open spec fn spec_direct_signature_params(signature: Seq<char>) -> Option<Seq<ParamView>> {
    match spec_signature_inner(signature) {
        Some(inner) => if inner.len() == 0 {
            Some(Seq::empty())
        } else {
            let parts = spec_split_top_level(inner);
            Some(
                spec_params_prefix(
                    parts,
                    first_trimmed_index(parts, "/"@),
                    first_trimmed_index(parts, "*"@),
                    parts.len(),
                ).0,
            )
        },
        None => None,
    }
}

fn signature_inner(signature: &str) -> (res: Option<String>)
    ensures
        match res {
            Some(s) => spec_signature_inner(signature@) == Some(s@),
            None => spec_signature_inner(signature@) is None,
        },
{
    if !str_starts_with(signature, "(") {
        return None;
    }
    proof {
        reveal_strlit("(");
    }
    let n = signature.unicode_len();
    let rest = substring(signature, 1, n);
    assert(rest@ =~= signature@.skip(1));
    match str_split_once(&rest, ')') {
        Some((inner, _)) => Some(inner),
        None => None,
    }
}

fn str_trim_end_eq(s: &str) -> (res: String)
    ensures
        res@ == trim_end_eq(s@),
{
    let mut end = s.unicode_len();
    assert(s@.take(end as int) =~= s@);
    while end > 0 && s.get_char(end - 1) == '='
        invariant
            end <= s@.len(),
            trim_end_eq(s@) == trim_end_eq(s@.take(end as int)),
        decreases end,
    {
        assert(s@.take(end as int).drop_last() =~= s@.take(end - 1));
        end = end - 1;
    }
    assert(s@.take(end as int) =~= s@.subrange(0, end as int));
    substring(s, 0, end)
}

fn first_trimmed(parts: &Vec<String>, target: &str) -> (res: Option<usize>)
    ensures
        match res {
            Some(i) => first_trimmed_index(string_views(parts@), target@) == Some(i as int),
            None => first_trimmed_index(string_views(parts@), target@) is None,
        },
{
    let ghost ps = string_views(parts@);
    let mut i: usize = 0;
    while i < parts.len()
        invariant
            ps == string_views(parts@),
            ps.len() == parts@.len(),
            i <= parts@.len(),
            forall|j: int| 0 <= j < i ==> trim(ps[j]) != target@,
        decreases parts@.len() - i,
    {
        let t = str_trim(&parts[i]);
        if str_eq(&t, target) {
            proof {
                assert(ps[i as int] == parts@[i as int]@);
                assert(trim(ps[i as int]) == target@);
                assert(0 <= i < ps.len() && trim(ps[i as int]) == target@ && forall|j: int|
                    0 <= j < i ==> trim(ps[j]) != target@);
                let c = choose|c: int|
                    0 <= c < ps.len() && trim(ps[c]) == target@ && forall|j: int|
                        0 <= j < c ==> trim(ps[j]) != target@;
                if c < i {
                } else if c > i {
                    assert(trim(ps[i as int]) != target@);
                }
            }
            return Some(i);
        }
        i = i + 1;
    }
    None
}

fn param_of_part(
    part: &str,
    index: usize,
    slash: Option<usize>,
    star: Option<usize>,
    keyword_only_active: bool,
) -> (res: (DirectSignatureParam, bool))
    ensures
        (res.0@, res.1) == spec_param_of_part(
            part@,
            index as int,
            match slash {
                Some(s) => Some(s as int),
                None => None,
            },
            match star {
                Some(s) => Some(s as int),
                None => None,
            },
            keyword_only_active,
        ),
{
    let has_default = str_ends_with(part, "=");
    let stripped = str_trim_end_eq(part);
    let p1 = str_trim(&stripped);
    let double = str_starts_with(&p1, "**");
    let single = !double && str_starts_with(&p1, "*");
    let n = p1.unicode_len();
    proof {
        reveal_strlit("**");
        reveal_strlit("*");
    }
    let p2 = if double {
        let rest = substring(&p1, 2, n);
        assert(rest@ =~= p1@.skip(2));
        str_trim(&rest)
    } else if single {
        let rest = substring(&p1, 1, n);
        assert(rest@ =~= p1@.skip(1));
        str_trim(&rest)
    } else {
        p1
    };
    let active = keyword_only_active || single;
    let (name, annotation) = match str_split_once(&p2, ':') {
        Some((a, b)) => (str_trim(&a), str_trim(&b)),
        None => (p2, String::new()),
    };
    let positional_only = match slash {
        Some(s) => index < s,
        None => false,
    };
    let after_star = match star {
        Some(s) => index > s,
        None => false,
    };
    (
        DirectSignatureParam {
            name,
            annotation,
            has_default,
            positional_only,
            keyword_only: !single && !double && (after_star || active),
            variadic: single,
            keyword_variadic: double,
        },
        active,
    )
}

/// The parameters of a rendered signature such as `(a: int, /, *args, b: str = ...) -> T`, or
/// `None` when it does not open with `(` or has no `)`.
pub fn direct_signature_params(signature: &str) -> (res: Option<Vec<DirectSignatureParam>>)
    ensures
        match res {
            Some(ps) => spec_direct_signature_params(signature@) == Some(param_views(ps@)),
            None => spec_direct_signature_params(signature@) is None,
        },
{
    let inner = match signature_inner(signature) {
        Some(inner) => inner,
        None => return None,
    };
    if inner.unicode_len() == 0 {
        let empty: Vec<DirectSignatureParam> = Vec::new();
        assert(param_views(empty@) =~= Seq::<ParamView>::empty());
        return Some(empty);
    }
    let parts = split_top_level_type_args(&inner);
    let ghost ps = string_views(parts@);
    let slash = first_trimmed(&parts, "/");
    let star = first_trimmed(&parts, "*");
    let ghost gslash = match slash {
        Some(s) => Some(s as int),
        None => None::<int>,
    };
    let ghost gstar = match star {
        Some(s) => Some(s as int),
        None => None::<int>,
    };
    let mut params: Vec<DirectSignatureParam> = Vec::new();
    let mut active = false;
    let mut index: usize = 0;
    assert(param_views(params@) =~= Seq::<ParamView>::empty());
    while index < parts.len()
        invariant
            ps == string_views(parts@),
            ps.len() == parts@.len(),
            index <= parts@.len(),
            gslash == match slash {
                Some(s) => Some(s as int),
                None => None::<int>,
            },
            gstar == match star {
                Some(s) => Some(s as int),
                None => None::<int>,
            },
            (param_views(params@), active) == spec_params_prefix(ps, gslash, gstar, index as nat),
        decreases parts@.len() - index,
    {
        let part = str_trim(&parts[index]);
        if str_eq(&part, "/") {
        } else if str_eq(&part, "*") {
            active = true;
        } else {
            let (param, a) = param_of_part(&part, index, slash, star, active);
            let ghost before = params@;
            params.push(param);
            assert(param_views(params@) =~= param_views(before).push(param@));
            active = a;
        }
        index = index + 1;
    }
    Some(params)
}

/// The parameters of a rendered signature; the same reading as `direct_signature_params`.
pub fn parse_direct_signature_params(signature: &str) -> (res: Option<Vec<DirectSignatureParam>>)
    ensures
        match res {
            Some(ps) => spec_direct_signature_params(signature@) == Some(param_views(ps@)),
            None => spec_direct_signature_params(signature@) is None,
        },
{
    direct_signature_params(signature)
}

/// The names of parameters.
pub open spec fn param_names(s: Seq<ParamView>) -> Seq<Seq<char>> {
    s.map_values(|p: ParamView| p.name)
}

/// The annotations of parameters.
pub open spec fn param_annotations(s: Seq<ParamView>) -> Seq<Seq<char>> {
    s.map_values(|p: ParamView| p.annotation)
}

/// How many parameters a rendered signature has.
pub fn direct_param_count(signature: &str) -> (res: Option<usize>)
    ensures
        match res {
            Some(n) => spec_direct_signature_params(signature@) is Some && n
                == spec_direct_signature_params(signature@).unwrap().len(),
            None => spec_direct_signature_params(signature@) is None,
        },
{
    match direct_signature_params(signature) {
        Some(ps) => Some(ps.len()),
        None => None,
    }
}

/// The names of the parameters of a rendered signature.
pub fn direct_param_names(signature: &str) -> (res: Option<Vec<String>>)
    ensures
        match res {
            Some(ns) => spec_direct_signature_params(signature@) is Some && string_views(ns@)
                == param_names(spec_direct_signature_params(signature@).unwrap()),
            None => spec_direct_signature_params(signature@) is None,
        },
{
    let ps = match direct_signature_params(signature) {
        Some(ps) => ps,
        None => return None,
    };
    let ghost pv = param_views(ps@);
    let mut names: Vec<String> = Vec::new();
    let mut i: usize = 0;
    while i < ps.len()
        invariant
            pv == param_views(ps@),
            pv.len() == ps@.len(),
            i <= ps@.len(),
            string_views(names@) == param_names(pv.take(i as int)),
        decreases ps@.len() - i,
    {
        let ghost before = names@;
        names.push(ps[i].name.clone());
        assert(pv[i as int].name == ps@[i as int].name@);
        assert(string_views(names@) =~= string_views(before).push(pv[i as int].name));
        assert(param_names(pv.take(i + 1)) =~= param_names(pv.take(i as int)).push(pv[i as int].name));
        i = i + 1;
    }
    assert(pv.take(ps@.len() as int) =~= pv);
    Some(names)
}

/// The annotations of the parameters of a rendered signature, empty where there is none.
pub fn direct_param_types(signature: &str) -> (res: Option<Vec<String>>)
    ensures
        match res {
            Some(ts) => spec_direct_signature_params(signature@) is Some && string_views(ts@)
                == param_annotations(spec_direct_signature_params(signature@).unwrap()),
            None => spec_direct_signature_params(signature@) is None,
        },
{
    let ps = match direct_signature_params(signature) {
        Some(ps) => ps,
        None => return None,
    };
    let ghost pv = param_views(ps@);
    let mut types: Vec<String> = Vec::new();
    let mut i: usize = 0;
    while i < ps.len()
        invariant
            pv == param_views(ps@),
            pv.len() == ps@.len(),
            i <= ps@.len(),
            string_views(types@) == param_annotations(pv.take(i as int)),
        decreases ps@.len() - i,
    {
        let ghost before = types@;
        types.push(ps[i].annotation.clone());
        assert(pv[i as int].annotation == ps@[i as int].annotation@);
        assert(string_views(types@) =~= string_views(before).push(pv[i as int].annotation));
        assert(param_annotations(pv.take(i + 1)) =~= param_annotations(pv.take(i as int)).push(pv[i as int].annotation));
        i = i + 1;
    }
    assert(pv.take(ps@.len() as int) =~= pv);
    Some(types)
}

/// The argument list of `Concatenate[...]`, when `t` is written so.
pub open spec fn spec_concatenate_inner(t: Seq<char>) -> Option<Seq<char>> {
    if starts_with(t, "Concatenate["@) && ends_with(t, "]"@) && t.len() >= 13 {
        Some(t.subrange(12, t.len() - 1))
    } else {
        None
    }
}

/// Whether a callable's parameter expression still waits for a parameter specification: it is
/// not `...`, not empty and not a bracketed list, and a `Concatenate[...]` ends with such an
/// expression.
pub open spec fn spec_callable_params_are_unresolved(params: Seq<char>) -> bool
    decreases params.len(),
{
    let t = trim(params);
    if t == "..."@ || t.len() == 0 {
        false
    } else if starts_with(t, "["@) && ends_with(t, "]"@) {
        false
    } else {
        match spec_concatenate_inner(t) {
            Some(inner) => {
                let parts = spec_split_top_level(inner);
                proof {
                    lemma_split_parts_short(inner);
                    lemma_trim_short(params);
                }
                spec_callable_params_are_unresolved(parts.last())
            },
            None => true,
        }
    }
}

proof fn lemma_trim_start_short(s: Seq<char>)
    ensures
        trim_start(s).len() <= s.len(),
    decreases s.len(),
{
    if s.len() > 0 && is_ws(s[0]) {
        lemma_trim_start_short(s.drop_first());
    }
}

proof fn lemma_trim_end_short(s: Seq<char>)
    ensures
        trim_end(s).len() <= s.len(),
    decreases s.len(),
{
    if s.len() > 0 && is_ws(s.last()) {
        lemma_trim_end_short(s.drop_last());
    }
}

/// Trimming never lengthens.
pub proof fn lemma_trim_short(s: Seq<char>)
    ensures
        trim(s).len() <= s.len(),
{
    lemma_trim_start_short(s);
    lemma_trim_end_short(trim_start(s));
}

fn concatenate_inner(t: &str) -> (res: Option<String>)
    ensures
        match res {
            Some(s) => spec_concatenate_inner(t@) == Some(s@),
            None => spec_concatenate_inner(t@) is None,
        },
{
    let n = t.unicode_len();
    if str_starts_with(t, "Concatenate[") && str_ends_with(t, "]") && n >= 13 {
        Some(substring(t, 12, n - 1))
    } else {
        None
    }
}

/// Whether a callable's parameter expression still waits for a parameter specification.
pub fn callable_params_are_unresolved(params: &str) -> (res: bool)
    ensures
        res == spec_callable_params_are_unresolved(params@),
    decreases params@.len(),
{
    let t = str_trim(params);
    if str_eq(&t, "...") || t.unicode_len() == 0 {
        return false;
    }
    if str_starts_with(&t, "[") && str_ends_with(&t, "]") {
        return false;
    }
    match concatenate_inner(&t) {
        Some(inner) => {
            let parts = split_top_level_type_args(&inner);
            proof {
                lemma_split_parts_short(inner@);
                lemma_trim_short(params@);
            }
            assert(string_views(parts@).len() == parts@.len());
            let k = parts.len();
            assert(string_views(parts@)[k - 1] == parts@[k - 1]@);
            callable_params_are_unresolved(&parts[k - 1])
        },
        None => true,
    }
}

/// Whether a callable type, given by its normalized text, is `Callable[P, R]` with a parameter
/// expression `P` that still waits for a parameter specification.
pub open spec fn spec_callable_has_unresolved_paramlist(text: Seq<char>) -> bool {
    if starts_with(text, "Callable["@) && ends_with(text, "]"@) && text.len() >= 10 {
        let parts = spec_split_top_level(text.subrange(9, text.len() - 1));
        parts.len() == 2 && spec_callable_params_are_unresolved(parts[0])
    } else {
        false
    }
}

/// Whether a callable type, given by its normalized text, still waits for a parameter
/// specification in its parameter expression.
pub fn callable_has_unresolved_paramlist(normalized: &str) -> (res: bool)
    ensures
        res == spec_callable_has_unresolved_paramlist(normalized@),
{
    proof {
        reveal_strlit("Callable[");
        reveal_strlit("]");
    }
    let n = normalized.unicode_len();
    if !(str_starts_with(normalized, "Callable[") && str_ends_with(normalized, "]") && n >= 10) {
        return false;
    }
    let inner = substring(normalized, 9, n - 1);
    let parts = split_top_level_type_args(&inner);
    if parts.len() != 2 {
        return false;
    }
    assert(string_views(parts@)[0] == parts@[0]@);
    callable_params_are_unresolved(&parts[0])
}

/// Whether a callable's parameter expression names one of the parameter specifications, alone
/// or as the tail of `Concatenate[...]`.
pub open spec fn spec_callable_param_expr_mentions_param_spec(
    params_expr: Seq<char>,
    names: Seq<Seq<char>>,
) -> bool {
    let t = trim(params_expr);
    if names.contains(t) {
        true
    } else {
        match spec_concatenate_inner(t) {
            Some(inner) => names.contains(trim(spec_split_top_level(inner).last())),
            None => false,
        }
    }
}

fn names_contain(names: &Vec<String>, name: &str) -> (res: bool)
    ensures
        res == string_views(names@).contains(name@),
{
    let ghost ns = string_views(names@);
    let mut i: usize = 0;
    while i < names.len()
        invariant
            ns == string_views(names@),
            ns.len() == names@.len(),
            i <= names@.len(),
            forall|j: int| 0 <= j < i ==> ns[j] != name@,
        decreases names@.len() - i,
    {
        if str_eq(&names[i], name) {
            assert(ns[i as int] == name@);
            return true;
        }
        i = i + 1;
    }
    false
}

/// Whether a callable's parameter expression names one of the parameter specifications.
pub fn callable_param_expr_mentions_param_spec(
    params_expr: &str,
    param_spec_names: &Vec<String>,
) -> (res: bool)
    ensures
        res == spec_callable_param_expr_mentions_param_spec(
            params_expr@,
            string_views(param_spec_names@),
        ),
{
    let t = str_trim(params_expr);
    if names_contain(param_spec_names, &t) {
        return true;
    }
    match concatenate_inner(&t) {
        Some(inner) => {
            let parts = split_top_level_type_args(&inner);
            assert(string_views(parts@).len() == parts@.len());
            let k = parts.len();
            assert(string_views(parts@)[k - 1] == parts@[k - 1]@);
            let tail = str_trim(&parts[k - 1]);
            names_contain(param_spec_names, &tail)
        },
        None => false,
    }
}

/// The module and symbol an import of a symbol refers to.
#[derive(Debug)]
pub struct SemanticImportSymbolTargetRef {
    pub module_key: String,
    pub symbol_name: String,
}

/// What an import refers to: the raw target, the module target and, when the target has a
/// dot, the module and symbol it splits into.
#[derive(Debug)]
pub struct SemanticImportTargetRef {
    pub raw_target: String,
    pub module_target: String,
    pub symbol_target: Option<SemanticImportSymbolTargetRef>,
}

impl SemanticImportTargetRef {
    /// A copy of this target.
    pub fn duplicate(&self) -> (res: SemanticImportTargetRef)
        ensures
            res.raw_target@ == self.raw_target@,
            res.module_target@ == self.module_target@,
            match (res.symbol_target, self.symbol_target) {
                (Some(a), Some(b)) => a.module_key@ == b.module_key@ && a.symbol_name@ == b.symbol_name@,
                (None, None) => true,
                _ => false,
            },
    {
        SemanticImportTargetRef {
            raw_target: self.raw_target.clone(),
            module_target: self.module_target.clone(),
            symbol_target: match &self.symbol_target {
                Some(t) => Some(SemanticImportSymbolTargetRef {
                    module_key: t.module_key.clone(),
                    symbol_name: t.symbol_name.clone(),
                }),
                None => None,
            },
        }
    }
}

/// The import target written as `detail`: none when it is empty; the symbol target splits at
/// the last dot.
pub fn parse_import_target_ref(detail: &str) -> (res: Option<SemanticImportTargetRef>)
    ensures
        match res {
            Some(r) => detail@.len() > 0 && r.raw_target@ == detail@ && r.module_target@ == detail@
                && match r.symbol_target {
                Some(t) => rsplit_once(detail@, '.') == Some((t.module_key@, t.symbol_name@)),
                None => rsplit_once(detail@, '.') is None,
            },
            None => detail@.len() == 0,
        },
{
    if detail.unicode_len() == 0 {
        return None;
    }
    let symbol_target = match str_rsplit_once(detail, '.') {
        Some((module_key, symbol_name)) => Some(SemanticImportSymbolTargetRef { module_key, symbol_name }),
        None => None,
    };
    Some(SemanticImportTargetRef {
        raw_target: owned(detail),
        module_target: owned(detail),
        symbol_target,
    })
}

} // verus!
