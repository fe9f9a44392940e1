//! Semantic types as the checker reads them: names, generic applications, callables, unions,
//! annotated types and unpacked types, and the small operations on them that need no type
//! lowering: substituting `Self`, reading callable parts and type packs.
use vstd::prelude::*;
use crate::declarations::string_views;
use crate::text::{owned, str_eq, str_trim, trim};

verus! {

/// A semantic type.
#[derive(Debug)]
pub enum SemanticType {
    Name(String),
    Generic { head: String, args: Vec<SemanticType> },
    Callable { params: SemanticCallableParams, return_type: Box<SemanticType> },
    Union(Vec<SemanticType>),
    Annotated { value: Box<SemanticType>, metadata: Vec<String> },
    Unpack(Box<SemanticType>),
}

/// The parameters of a callable type: `...`, a list, `Concatenate[...]`, or a single
/// parameter specification.
#[derive(Debug)]
pub enum SemanticCallableParams {
    Ellipsis,
    ParamList(Vec<SemanticType>),
    Concatenate(Vec<SemanticType>),
    Single(Box<SemanticType>),
}

/// The plain-value view of a semantic type.
pub enum TypeView {
    Name(Seq<char>),
    Generic { head: Seq<char>, args: Seq<TypeView> },
    Callable { params: ParamsView, return_type: Box<TypeView> },
    Union(Seq<TypeView>),
    Annotated { value: Box<TypeView>, metadata: Seq<Seq<char>> },
    Unpack(Box<TypeView>),
}

/// The plain-value view of callable parameters.
pub enum ParamsView {
    Ellipsis,
    ParamList(Seq<TypeView>),
    Concatenate(Seq<TypeView>),
    Single(Box<TypeView>),
}

/// The view of a semantic type.
pub open spec fn type_view(t: SemanticType) -> TypeView
    decreases t,
{
    match t {
        SemanticType::Name(n) => TypeView::Name(n@),
        SemanticType::Generic { head, args } => TypeView::Generic { head: head@, args: types_view(args@) },
        SemanticType::Callable { params, return_type } => TypeView::Callable {
            params: params_view(params),
            return_type: Box::new(type_view(*return_type)),
        },
        SemanticType::Union(branches) => TypeView::Union(types_view(branches@)),
        SemanticType::Annotated { value, metadata } => TypeView::Annotated {
            value: Box::new(type_view(*value)),
            metadata: string_views(metadata@),
        },
        SemanticType::Unpack(inner) => TypeView::Unpack(Box::new(type_view(*inner))),
    }
}

/// The views of a list of semantic types.
pub open spec fn types_view(s: Seq<SemanticType>) -> Seq<TypeView>
    decreases s,
{
    if s.len() == 0 {
        Seq::empty()
    } else {
        types_view(s.drop_last()).push(type_view(s.last()))
    }
}

/// The view of callable parameters.
pub open spec fn params_view(p: SemanticCallableParams) -> ParamsView
    decreases p,
{
    match p {
        SemanticCallableParams::Ellipsis => ParamsView::Ellipsis,
        SemanticCallableParams::ParamList(ts) => ParamsView::ParamList(types_view(ts@)),
        SemanticCallableParams::Concatenate(ts) => ParamsView::Concatenate(types_view(ts@)),
        SemanticCallableParams::Single(t) => ParamsView::Single(Box::new(type_view(*t))),
    }
}

impl View for SemanticType {
    type V = TypeView;

    open spec fn view(&self) -> TypeView {
        type_view(*self)
    }
}

impl View for SemanticCallableParams {
    type V = ParamsView;

    open spec fn view(&self) -> ParamsView {
        params_view(*self)
    }
}

proof fn lemma_types_view_index(s: Seq<SemanticType>, i: int)
    requires
        0 <= i < s.len(),
    ensures
        types_view(s).len() == s.len(),
        types_view(s)[i] == type_view(s[i]),
    decreases s.len(),
{
    if i < s.len() - 1 {
        lemma_types_view_index(s.drop_last(), i);
    } else {
        lemma_types_view_len(s.drop_last());
    }
}

proof fn lemma_types_view_len(s: Seq<SemanticType>)
    ensures
        types_view(s).len() == s.len(),
    decreases s.len(),
{
    if s.len() > 0 {
        lemma_types_view_len(s.drop_last());
    }
}

/// Two lists of types with equal elements by view have equal views.
proof fn lemma_types_view_ext(s: Seq<SemanticType>, views: Seq<TypeView>)
    requires
        s.len() == views.len(),
        forall|i: int| 0 <= i < s.len() ==> type_view(#[trigger] s[i]) == views[i],
    ensures
        types_view(s) == views,
    decreases s.len(),
{
    if s.len() > 0 {
        lemma_types_view_ext(s.drop_last(), views.drop_last());
        assert(types_view(s) =~= views);
    } else {
        assert(types_view(s) =~= views);
    }
}

impl SemanticType {
    /// A copy of this type.
    pub fn deep_clone(&self) -> (res: SemanticType)
        ensures
            res@ == self@,
        decreases self,
    {
        match self {
            SemanticType::Name(n) => SemanticType::Name(n.clone()),
            SemanticType::Generic { head, args } => SemanticType::Generic {
                head: head.clone(),
                args: clone_types(args),
            },
            SemanticType::Callable { params, return_type } => SemanticType::Callable {
                params: params.deep_clone(),
                return_type: Box::new((**return_type).deep_clone()),
            },
            SemanticType::Union(branches) => SemanticType::Union(clone_types(branches)),
            SemanticType::Annotated { value, metadata } => {
                let m = clone_strings(metadata);
                SemanticType::Annotated { value: Box::new((**value).deep_clone()), metadata: m }
            },
            SemanticType::Unpack(inner) => SemanticType::Unpack(Box::new((**inner).deep_clone())),
        }
    }

    /// The parameters and return type of a callable type.
    pub fn callable_parts(&self) -> (res: Option<(&SemanticCallableParams, &SemanticType)>)
        ensures
            match *self {
                SemanticType::Callable { params, return_type } => res == Some((&params, &*return_type)),
                _ => res is None,
            },
    {
        match self {
            SemanticType::Callable { params, return_type } => Some((params, &**return_type)),
            _ => None,
        }
    }

    /// The type inside an unpacked type.
    pub fn unpacked_inner(&self) -> (res: Option<&SemanticType>)
        ensures
            match *self {
                SemanticType::Unpack(inner) => res == Some(&*inner),
                _ => res is None,
            },
    {
        match self {
            SemanticType::Unpack(inner) => Some(&**inner),
            _ => None,
        }
    }
}

impl SemanticCallableParams {
    /// A copy of these parameters.
    pub fn deep_clone(&self) -> (res: SemanticCallableParams)
        ensures
            res@ == self@,
        decreases self,
    {
        match self {
            SemanticCallableParams::Ellipsis => SemanticCallableParams::Ellipsis,
            SemanticCallableParams::ParamList(ts) => SemanticCallableParams::ParamList(clone_types(ts)),
            SemanticCallableParams::Concatenate(ts) => SemanticCallableParams::Concatenate(clone_types(ts)),
            SemanticCallableParams::Single(t) => SemanticCallableParams::Single(Box::new((**t).deep_clone())),
        }
    }
}

/// A copy of a list of types.
pub fn clone_types(ts: &Vec<SemanticType>) -> (res: Vec<SemanticType>)
    ensures
        types_view(res@) == types_view(ts@),
    decreases ts,
{
    let mut out: Vec<SemanticType> = Vec::new();
    let n = ts.len();
    let mut i: usize = 0;
    while i < n
        invariant
            n == ts@.len(),
            i <= n,
            out@.len() == i,
            forall|j: int| 0 <= j < i ==> type_view(#[trigger] out@[j]) == type_view(ts@[j]),
        decreases n - i,
    {
        assert(decreases_to!(ts => ts@[i as int]));
        out.push(ts[i].deep_clone());
        i = i + 1;
    }
    proof {
        assert forall|j: int| 0 <= j < ts@.len() implies type_view(#[trigger] out@[j]) == types_view(ts@)[j] by {
            lemma_types_view_index(ts@, j);
        }
        lemma_types_view_len(ts@);
        lemma_types_view_ext(out@, types_view(ts@));
    }
    out
}

impl SemanticType {
    /// Whether two types are the same type.
    pub fn same(&self, other: &SemanticType) -> (res: bool)
        ensures
            res == (self@ == other@),
        decreases self,
    {
        match (self, other) {
            (SemanticType::Name(a), SemanticType::Name(b)) => str_eq(a, b),
            (SemanticType::Generic { head: h1, args: a1 }, SemanticType::Generic { head: h2, args: a2 }) => {
                str_eq(h1, h2) && same_types(a1, a2)
            },
            (
                SemanticType::Callable { params: p1, return_type: r1 },
                SemanticType::Callable { params: p2, return_type: r2 },
            ) => p1.same(p2) && (**r1).same(&**r2),
            (SemanticType::Union(b1), SemanticType::Union(b2)) => same_types(b1, b2),
            (
                SemanticType::Annotated { value: v1, metadata: m1 },
                SemanticType::Annotated { value: v2, metadata: m2 },
            ) => (**v1).same(&**v2) && same_strings(m1, m2),
            (SemanticType::Unpack(i1), SemanticType::Unpack(i2)) => (**i1).same(&**i2),
            _ => false,
        }
    }
}

impl SemanticCallableParams {
    /// Whether two parameter lists are the same.
    pub fn same(&self, other: &SemanticCallableParams) -> (res: bool)
        ensures
            res == (self@ == other@),
        decreases self,
    {
        match (self, other) {
            (SemanticCallableParams::Ellipsis, SemanticCallableParams::Ellipsis) => true,
            (SemanticCallableParams::ParamList(a), SemanticCallableParams::ParamList(b)) => same_types(a, b),
            (SemanticCallableParams::Concatenate(a), SemanticCallableParams::Concatenate(b)) => same_types(a, b),
            (SemanticCallableParams::Single(a), SemanticCallableParams::Single(b)) => (**a).same(&**b),
            _ => false,
        }
    }
}

/// Whether two lists of types hold the same types in the same order.
pub fn same_types(a: &Vec<SemanticType>, b: &Vec<SemanticType>) -> (res: bool)
    ensures
        res == (types_view(a@) == types_view(b@)),
    decreases a,
{
    proof {
        lemma_types_view_len(a@);
        lemma_types_view_len(b@);
    }
    if a.len() != b.len() {
        return false;
    }
    let n = a.len();
    let mut i: usize = 0;
    while i < n
        invariant
            n == a@.len(),
            n == b@.len(),
            i <= n,
            forall|j: int| 0 <= j < i ==> type_view(#[trigger] a@[j]) == type_view(b@[j]),
        decreases n - i,
    {
        assert(decreases_to!(a => a@[i as int]));
        if !a[i].same(&b[i]) {
            proof {
                lemma_types_view_index(a@, i as int);
                lemma_types_view_index(b@, i as int);
            }
            return false;
        }
        i = i + 1;
    }
    proof {
        assert forall|j: int| 0 <= j < n implies type_view(#[trigger] a@[j]) == types_view(b@)[j] by {
            lemma_types_view_index(b@, j);
        }
        lemma_types_view_len(b@);
        lemma_types_view_ext(a@, types_view(b@));
    }
    true
}

fn same_strings(a: &Vec<String>, b: &Vec<String>) -> (res: bool)
    ensures
        res == (string_views(a@) == string_views(b@)),
{
    if a.len() != b.len() {
        assert(string_views(a@).len() != string_views(b@).len());
        return false;
    }
    let n = a.len();
    let mut i: usize = 0;
    while i < n
        invariant
            n == a@.len(),
            n == b@.len(),
            i <= n,
            forall|j: int| 0 <= j < i ==> a@[j]@ == b@[j]@,
        decreases n - i,
    {
        if !str_eq(&a[i], &b[i]) {
            assert(string_views(a@)[i as int] != string_views(b@)[i as int]);
            return false;
        }
        i = i + 1;
    }
    assert(string_views(a@) =~= string_views(b@));
    true
}

fn clone_strings(s: &Vec<String>) -> (res: Vec<String>)
    ensures
        string_views(res@) == string_views(s@),
{
    let mut out: Vec<String> = Vec::new();
    let n = s.len();
    let mut i: usize = 0;
    while i < n
        invariant
            n == s@.len(),
            i <= n,
            out@.len() == i,
            forall|j: int| 0 <= j < i ==> out@[j]@ == s@[j]@,
        decreases n - i,
    {
        out.push(s[i].clone());
        i = i + 1;
    }
    assert(string_views(out@) =~= string_views(s@));
    out
}

/// `Self` replaced by the owner type, everywhere in a type; `Self` stays when there is no owner.
pub open spec fn spec_substitute_self(t: TypeView, owner: Option<TypeView>) -> TypeView
    decreases t,
{
    match t {
        TypeView::Name(n) => if n == "Self"@ {
            match owner {
                Some(o) => o,
                None => TypeView::Name(n),
            }
        } else {
            TypeView::Name(n)
        },
        TypeView::Generic { head, args } => TypeView::Generic {
            head,
            args: spec_substitute_self_all(args, owner),
        },
        TypeView::Callable { params, return_type } => TypeView::Callable {
            params: spec_substitute_self_params(params, owner),
            return_type: Box::new(spec_substitute_self(*return_type, owner)),
        },
        TypeView::Union(branches) => TypeView::Union(spec_substitute_self_all(branches, owner)),
        TypeView::Annotated { value, metadata } => TypeView::Annotated {
            value: Box::new(spec_substitute_self(*value, owner)),
            metadata,
        },
        TypeView::Unpack(inner) => TypeView::Unpack(Box::new(spec_substitute_self(*inner, owner))),
    }
}

/// `Self` replaced in each type of a list.
pub open spec fn spec_substitute_self_all(s: Seq<TypeView>, owner: Option<TypeView>) -> Seq<TypeView>
    decreases s,
{
    if s.len() == 0 {
        Seq::empty()
    } else {
        spec_substitute_self_all(s.drop_last(), owner).push(spec_substitute_self(s.last(), owner))
    }
}

/// `Self` replaced in callable parameters.
pub open spec fn spec_substitute_self_params(p: ParamsView, owner: Option<TypeView>) -> ParamsView
    decreases p,
{
    match p {
        ParamsView::Ellipsis => ParamsView::Ellipsis,
        ParamsView::ParamList(ts) => ParamsView::ParamList(spec_substitute_self_all(ts, owner)),
        ParamsView::Concatenate(ts) => ParamsView::Concatenate(spec_substitute_self_all(ts, owner)),
        ParamsView::Single(t) => ParamsView::Single(Box::new(spec_substitute_self(*t, owner))),
    }
}

/// The view of an optional owner type.
pub open spec fn opt_type_view(o: Option<&SemanticType>) -> Option<TypeView> {
    match o {
        Some(t) => Some(t@),
        None => None,
    }
}

proof fn lemma_substitute_all_len(s: Seq<TypeView>, owner: Option<TypeView>)
    ensures
        spec_substitute_self_all(s, owner).len() == s.len(),
    decreases s.len(),
{
    if s.len() > 0 {
        lemma_substitute_all_len(s.drop_last(), owner);
    }
}

proof fn lemma_substitute_all_index(s: Seq<TypeView>, owner: Option<TypeView>, i: int)
    requires
        0 <= i < s.len(),
    ensures
        spec_substitute_self_all(s, owner)[i] == spec_substitute_self(s[i], owner),
    decreases s.len(),
{
    lemma_substitute_all_len(s.drop_last(), owner);
    if i < s.len() - 1 {
        lemma_substitute_all_index(s.drop_last(), owner, i);
    }
}

fn substitute_self_types(
    ts: &Vec<SemanticType>,
    owner_type: Option<&SemanticType>,
) -> (res: Vec<SemanticType>)
    ensures
        types_view(res@) == spec_substitute_self_all(types_view(ts@), opt_type_view(owner_type)),
    decreases ts,
{
    let ghost owner = opt_type_view(owner_type);
    let mut out: Vec<SemanticType> = Vec::new();
    let n = ts.len();
    let mut i: usize = 0;
    while i < n
        invariant
            n == ts@.len(),
            i <= n,
            owner == opt_type_view(owner_type),
            out@.len() == i,
            forall|j: int|
                0 <= j < i ==> type_view(#[trigger] out@[j]) == spec_substitute_self(type_view(ts@[j]), owner),
        decreases n - i,
    {
        assert(decreases_to!(ts => ts@[i as int]));
        out.push(substitute_self_semantic_type(&ts[i], owner_type));
        i = i + 1;
    }
    proof {
        let target = spec_substitute_self_all(types_view(ts@), owner);
        lemma_types_view_len(ts@);
        lemma_substitute_all_len(types_view(ts@), owner);
        assert forall|j: int| 0 <= j < out@.len() implies type_view(#[trigger] out@[j]) == target[j] by {
            lemma_types_view_index(ts@, j);
            lemma_substitute_all_index(types_view(ts@), owner, j);
        }
        lemma_types_view_ext(out@, target);
    }
    out
}

/// The type with `Self` replaced by the owner type, when there is one.
pub fn substitute_self_semantic_type(ty: &SemanticType, owner_type: Option<&SemanticType>) -> (res:
    SemanticType)
    ensures
        res@ == spec_substitute_self(ty@, opt_type_view(owner_type)),
    decreases ty,
{
    match ty {
        SemanticType::Name(name) => {
            if str_eq(name, "Self") {
                match owner_type {
                    Some(o) => o.deep_clone(),
                    None => SemanticType::Name(name.clone()),
                }
            } else {
                SemanticType::Name(name.clone())
            }
        },
        SemanticType::Generic { head, args } => SemanticType::Generic {
            head: head.clone(),
            args: substitute_self_types(args, owner_type),
        },
        SemanticType::Callable { params, return_type } => SemanticType::Callable {
            params: substitute_self_semantic_callable_params(params, owner_type),
            return_type: Box::new(substitute_self_semantic_type(return_type, owner_type)),
        },
        SemanticType::Union(branches) => SemanticType::Union(substitute_self_types(branches, owner_type)),
        SemanticType::Annotated { value, metadata } => {
            let m = clone_strings(metadata);
            SemanticType::Annotated {
                value: Box::new(substitute_self_semantic_type(value, owner_type)),
                metadata: m,
            }
        },
        SemanticType::Unpack(inner) => SemanticType::Unpack(
            Box::new(substitute_self_semantic_type(inner, owner_type)),
        ),
    }
}

/// Callable parameters with `Self` replaced by the owner type, when there is one.
pub fn substitute_self_semantic_callable_params(
    params: &SemanticCallableParams,
    owner_type: Option<&SemanticType>,
) -> (res: SemanticCallableParams)
    ensures
        res@ == spec_substitute_self_params(params@, opt_type_view(owner_type)),
    decreases params,
{
    match params {
        SemanticCallableParams::Ellipsis => SemanticCallableParams::Ellipsis,
        SemanticCallableParams::ParamList(types) => SemanticCallableParams::ParamList(
            substitute_self_types(types, owner_type),
        ),
        SemanticCallableParams::Concatenate(types) => SemanticCallableParams::Concatenate(
            substitute_self_types(types, owner_type),
        ),
        SemanticCallableParams::Single(expr) => SemanticCallableParams::Single(
            Box::new(substitute_self_semantic_type(expr, owner_type)),
        ),
    }
}

/// A parameter of a callable declaration with its annotation, as text and as a type.
#[derive(Debug)]
pub struct SemanticCallableParam {
    pub name: String,
    pub annotation_text: Option<String>,
    pub annotation: Option<SemanticType>,
    pub has_default: bool,
    pub positional_only: bool,
    pub keyword_only: bool,
    pub variadic: bool,
    pub keyword_variadic: bool,
}

impl SemanticCallableParam {
    /// The parameter's type, `dynamic` when it is not annotated.
    pub fn annotation_or_dynamic(&self) -> (res: SemanticType)
        ensures
            res@ == match self.annotation {
                Some(t) => t@,
                None => TypeView::Name("dynamic"@),
            },
    {
        match &self.annotation {
            Some(t) => t.deep_clone(),
            None => SemanticType::Name(owned("dynamic")),
        }
    }
}

/// Whether a type is missing: written as the empty name.
pub fn semantic_type_missing(ty: &SemanticType) -> (res: bool)
    ensures
        res == (ty@ matches TypeView::Name(n) && n.len() == 0),
{
    match ty {
        SemanticType::Name(name) => name.unicode_len() == 0,
        _ => false,
    }
}

/// Whether callable parameters still wait for a parameter specification: a single
/// specification or a `Concatenate[...]`.
pub fn semantic_callable_params_are_unresolved(params: &SemanticCallableParams) -> (res: bool)
    ensures
        res == (params@ is Single || params@ is Concatenate),
{
    match params {
        SemanticCallableParams::Ellipsis => false,
        SemanticCallableParams::ParamList(_) => false,
        SemanticCallableParams::Single(_) => true,
        SemanticCallableParams::Concatenate(_) => true,
    }
}

/// Whether a type is a callable whose parameters still wait for a parameter specification.
pub fn semantic_callable_has_unresolved_paramlist(callable: &SemanticType) -> (res: bool)
    ensures
        res == (callable@ matches TypeView::Callable { params, .. } && (params is Single
            || params is Concatenate)),
{
    match callable.callable_parts() {
        Some((params, _)) => semantic_callable_params_are_unresolved(params),
        None => false,
    }
}

/// The callable that accepts anything and returns `dynamic`: `Callable[..., dynamic]`.
pub fn dynamic_callable_boundary() -> (res: SemanticType)
    ensures
        res@ == (TypeView::Callable {
            params: ParamsView::Ellipsis,
            return_type: Box::new(TypeView::Name("dynamic"@)),
        }),
{
    let ret = SemanticType::Name(owned("dynamic"));
    assert(type_view(ret) == TypeView::Name("dynamic"@));
    let params = SemanticCallableParams::Ellipsis;
    assert(params_view(params) == ParamsView::Ellipsis);
    SemanticType::Callable { params, return_type: Box::new(ret) }
}

/// The return type of a callable type, the type a decorated function returns.
pub fn decorated_function_return_semantic_type_from_semantic_callable(callable: &SemanticType) -> (res:
    Option<SemanticType>)
    ensures
        match callable@ {
            TypeView::Callable { return_type, .. } => res matches Some(r) && r@ == *return_type,
            _ => res is None,
        },
{
    match callable.callable_parts() {
        Some((_, return_type)) => Some(return_type.deep_clone()),
        None => None,
    }
}

/// The type pack an argument unpacks, when it is `*Ts` for one of the type packs `names`.
pub open spec fn spec_pack_of(arg: TypeView, names: Seq<Seq<char>>) -> Option<Seq<char>> {
    match arg {
        TypeView::Unpack(inner) => match *inner {
            TypeView::Name(n) => if names.contains(trim(n)) {
                Some(trim(n))
            } else {
                None
            },
            _ => None,
        },
        _ => None,
    }
}

/// The positions of the arguments that unpack one of the type packs, with the pack names.
pub open spec fn spec_pack_matches(args: Seq<TypeView>, names: Seq<Seq<char>>) -> Seq<(int, Seq<char>)>
    decreases args.len(),
{
    if args.len() == 0 {
        Seq::empty()
    } else {
        let prev = spec_pack_matches(args.drop_last(), names);
        match spec_pack_of(args.last(), names) {
            Some(n) => prev.push((args.len() - 1, n)),
            None => prev,
        }
    }
}

/// Whether a list of names holds a name.
pub fn names_contain(names: &Vec<String>, name: &str) -> (res: bool)
    ensures
        res == string_views(names@).contains(name@),
{
    let ghost ns = string_views(names@);
    let mut i: usize = 0;
    while i < names.len()
        invariant
            ns == string_views(names@),
            ns.len() == names@.len(),
            i <= names@.len(),
            forall|j: int| 0 <= j < i ==> ns[j] != name@,
        decreases names@.len() - i,
    {
        if str_eq(&names[i], name) {
            assert(ns[i as int] == name@);
            return true;
        }
        i = i + 1;
    }
    false
}

/// The one argument that unpacks a type pack, with the pack's name; none when no argument or
/// more than one does.
pub fn expected_type_pack_index(args: &Vec<SemanticType>, type_pack_names: &Vec<String>) -> (res:
    Option<(usize, String)>)
    ensures
        ({
            let matches = spec_pack_matches(types_view(args@), string_views(type_pack_names@));
            match res {
                Some((i, n)) => matches.len() == 1 && matches[0] == (i as int, n@),
                None => matches.len() != 1,
            }
        }),
{
    let ghost names = string_views(type_pack_names@);
    let ghost av = types_view(args@);
    proof {
        lemma_types_view_len(args@);
    }
    let mut found: Option<(usize, String)> = None;
    let mut count: usize = 0;
    let mut i: usize = 0;
    assert(av.take(0) =~= Seq::<TypeView>::empty());
    while i < args.len()
        invariant
            i <= args@.len(),
            av == types_view(args@),
            av.len() == args@.len(),
            names == string_views(type_pack_names@),
            count == spec_pack_matches(av.take(i as int), names).len(),
            count <= i,
            count >= 1 ==> (found matches Some((k, n)) && spec_pack_matches(av.take(i as int), names)[0]
                == (k as int, n@)),
        decreases args@.len() - i,
    {
        proof {
            lemma_types_view_index(args@, i as int);
            assert(av.take(i + 1).drop_last() =~= av.take(i as int));
            assert(av.take(i + 1).last() == av[i as int]);
        }
        let ghost prev = spec_pack_matches(av.take(i as int), names);
        match &args[i] {
            SemanticType::Unpack(inner) => {
                match &**inner {
                    SemanticType::Name(name) => {
                        assert(type_view(**inner) == TypeView::Name(name@));
                        assert(av[i as int] == TypeView::Unpack(Box::new(TypeView::Name(name@))));
                        let t = str_trim(name);
                        if names_contain(type_pack_names, &t) {
                            if count == 0 {
                                found = Some((i, t));
                            }
                            count = count + 1;
                            assert(spec_pack_matches(av.take(i + 1), names) == prev.push((i as int, trim(name@))));
                        } else {
                            assert(spec_pack_matches(av.take(i + 1), names) == prev);
                        }
                    },
                    _ => {
                        assert(!(type_view(**inner) is Name));
                        assert(spec_pack_matches(av.take(i + 1), names) == prev);
                    },
                }
            },
            _ => {
                assert(!(av[i as int] is Unpack));
                assert(spec_pack_matches(av.take(i + 1), names) == prev);
            },
        }
        i = i + 1;
    }
    assert(av.take(args@.len() as int) =~= av);
    if count == 1 {
        found
    } else {
        None
    }
}

/// The names of the parameters that can be passed by position, in order.
pub open spec fn spec_positional_names(params: Seq<SemanticCallableParam>) -> Seq<Seq<char>>
    decreases params.len(),
{
    if params.len() == 0 {
        Seq::empty()
    } else {
        let prev = spec_positional_names(params.drop_last());
        let p = params.last();
        if !p.keyword_only && !p.variadic && !p.keyword_variadic {
            prev.push(p.name@)
        } else {
            prev
        }
    }
}

/// Whether a call passes by keyword a parameter that its positional arguments already fill:
/// some keyword names one of the first `arg_count` positional parameters.
pub open spec fn spec_keyword_duplicates_positional(
    keyword_names: Seq<Seq<char>>,
    arg_count: nat,
    params: Seq<SemanticCallableParam>,
) -> bool {
    let names = spec_positional_names(params);
    let filled = names.take(if arg_count < names.len() { arg_count as int } else { names.len() as int });
    exists|k: int| 0 <= k < keyword_names.len() && filled.contains(#[trigger] keyword_names[k])
}

/// Whether a call passes by keyword a parameter that its positional arguments already fill.
pub fn keyword_duplicates_positional_arguments(
    call: &crate::sites::CallSite,
    params: &Vec<SemanticCallableParam>,
) -> (res: bool)
    ensures
        res == spec_keyword_duplicates_positional(
            string_views(call.keyword_names@),
            call.arg_count as nat,
            params@,
        ),
{
    let mut positional: Vec<String> = Vec::new();
    let mut i: usize = 0;
    assert(params@.take(0) =~= Seq::<SemanticCallableParam>::empty());
    while i < params.len()
        invariant
            i <= params@.len(),
            string_views(positional@) == spec_positional_names(params@.take(i as int)),
        decreases params@.len() - i,
    {
        let p = &params[i];
        assert(params@.take(i + 1).drop_last() =~= params@.take(i as int));
        assert(params@.take(i + 1).last() == *p);
        if !p.keyword_only && !p.variadic && !p.keyword_variadic {
            let ghost before = string_views(positional@);
            positional.push(p.name.clone());
            assert(string_views(positional@) =~= before.push(p.name@));
        }
        i = i + 1;
    }
    assert(params@.take(params@.len() as int) =~= params@);
    let ghost names = string_views(positional@);
    let filled_len = if call.arg_count < positional.len() {
        call.arg_count
    } else {
        positional.len()
    };
    let ghost filled = names.take(filled_len as int);
    let ghost kws = string_views(call.keyword_names@);
    let mut k: usize = 0;
    while k < call.keyword_names.len()
        invariant
            k <= call.keyword_names@.len(),
            kws == string_views(call.keyword_names@),
            names == string_views(positional@),
            names == spec_positional_names(params@),
            filled_len as int == if call.arg_count < names.len() { call.arg_count as int } else { names.len() as int },
            filled_len <= positional@.len(),
            filled == names.take(filled_len as int),
            forall|j: int| 0 <= j < k ==> !filled.contains(#[trigger] kws[j]),
        decreases call.keyword_names@.len() - k,
    {
        let keyword = &call.keyword_names[k];
        assert(keyword@ == kws[k as int]);
        let mut q: usize = 0;
        while q < filled_len
            invariant
                q <= filled_len,
                k < call.keyword_names@.len(),
                kws == string_views(call.keyword_names@),
                keyword@ == kws[k as int],
                names == spec_positional_names(params@),
                filled_len as int == if call.arg_count < names.len() { call.arg_count as int } else { names.len() as int },
                filled_len <= positional@.len(),
                names == string_views(positional@),
                filled == names.take(filled_len as int),
                forall|j: int| 0 <= j < q ==> filled[j] != keyword@,
            decreases filled_len - q,
        {
            if str_eq(&positional[q], keyword) {
                assert(filled[q as int] == keyword@);
                assert(kws[k as int] == keyword@);
                assert(filled.contains(kws[k as int]));
                return true;
            }
            q = q + 1;
        }
        assert(!filled.contains(kws[k as int])) by {
            assert(kws[k as int] == keyword@);
        }
        k = k + 1;
    }
    false
}

/// A `match` case pattern, as far as exhaustiveness checks read it.
#[derive(Debug)]
pub enum MatchPattern {
    Wildcard,
    Class(String),
    Literal(String),
    Other,
}

/// The class a class pattern matches.
pub fn pattern_class_name(pattern: &MatchPattern) -> (res: Option<&str>)
    ensures
        match *pattern {
            MatchPattern::Class(n) => res matches Some(s) && s@ == n@,
            _ => res is None,
        },
{
    match pattern {
        MatchPattern::Class(name) => Some(name.as_str()),
        _ => None,
    }
}

/// The member of the enum `enum_name` that a literal pattern `Enum.MEMBER` names.
pub fn enum_member_name_from_pattern(pattern: &MatchPattern, enum_name: &str) -> (res: Option<String>)
    ensures
        match *pattern {
            MatchPattern::Literal(v) => match crate::text::rsplit_once(v@, '.') {
                Some((owner, member)) => if owner == enum_name@ {
                    res matches Some(m) && m@ == member
                } else {
                    res is None
                },
                None => res is None,
            },
            _ => res is None,
        },
{
    match pattern {
        MatchPattern::Literal(value) => match crate::text::str_rsplit_once(value, '.') {
            Some((owner, member)) => {
                if str_eq(&owner, enum_name) {
                    Some(member)
                } else {
                    None
                }
            },
            None => None,
        },
        _ => None,
    }
}

} // verus!
