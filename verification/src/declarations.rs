//! Declarations of a module and the checks on them that need no type information: declaration
//! spaces, duplicate names, overload groups, `Final` reassignment and `ClassVar` placement.
use vstd::prelude::*;
use crate::diagnostics::{Diagnostic, DiagnosticView, Severity, SourceKind, spec_diagnostic};
use crate::effect_summary::{opt_view, clone_opt};
use crate::table::KeyTable;
use crate::effect_summary::SummaryKey;
use crate::signatures::{DirectSignatureParam, SemanticImportTargetRef};
use crate::text::{owned, str_eq, str_lt, chars_lt, lemma_chars_lt_irreflexive, lemma_chars_lt_transitive, lemma_chars_lt_total};
use crate::effect_summary::opt_str_eq;

verus! {

/// What a declaration declares.
#[derive(Debug, Clone, Copy, PartialEq, Eq, Structural)]
pub enum DeclarationKind {
    Import,
    TypeAlias,
    Class,
    Function,
    Overload,
    Value,
}

/// What kind of type owns a member declaration.
#[derive(Debug, Clone, Copy, PartialEq, Eq, Structural)]
pub enum DeclarationOwnerKind {
    Class,
    DataClass,
    SealedClass,
    Interface,
}

/// How a method is bound.
#[derive(Debug, Clone, Copy, PartialEq, Eq, Structural)]
pub enum MethodKind {
    Instance,
    Class,
    Static,
    Property,
    PropertySetter,
}

impl View for DeclarationKind {
    type V = DeclarationKind;

    open spec fn view(&self) -> DeclarationKind {
        *self
    }
}

/// The type that owns a member declaration.
#[derive(Debug)]
pub struct DeclarationOwner {
    pub name: String,
    pub kind: DeclarationOwnerKind,
}

/// One declaration of a module, as far as the checks here read it.
#[derive(Debug)]
pub struct Declaration {
    pub name: String,
    pub kind: DeclarationKind,
    pub detail: String,
    pub owner: Option<DeclarationOwner>,
    pub method_kind: Option<MethodKind>,
    pub is_abstract_method: bool,
    pub is_final: bool,
    pub is_class_var: bool,
    pub bound_params: Option<Vec<DirectSignatureParam>>,
    pub value_annotation: Option<String>,
    pub import_target: Option<SemanticImportTargetRef>,
    pub class_kind: Option<DeclarationOwnerKind>,
    pub bases: Vec<String>,
    pub type_params: Vec<GenericTypeParam>,
    pub is_override: bool,
    pub is_final_decorator: bool,
}

/// What a generic type parameter stands for: a type, a parameter list or a list of types.
#[derive(Debug, Clone, Copy, PartialEq, Eq, Structural)]
pub enum GenericTypeParamKind {
    TypeVar,
    ParamSpec,
    TypeVarTuple,
}

/// A generic type parameter of a declaration.
#[derive(Debug)]
pub struct GenericTypeParam {
    pub name: String,
    pub kind: GenericTypeParamKind,
}

impl GenericTypeParam {
    /// A copy of the parameter.
    pub fn duplicate(&self) -> (res: GenericTypeParam)
        ensures
            res.name@ == self.name@,
            res.kind == self.kind,
    {
        GenericTypeParam { name: self.name.clone(), kind: self.kind }
    }
}

/// The plain-value view of a declaration's owner.
pub struct DeclarationOwnerView {
    pub name: Seq<char>,
    pub kind: DeclarationOwnerKind,
}

/// The plain-value view of a declaration.
pub struct DeclarationView {
    pub name: Seq<char>,
    pub kind: DeclarationKind,
    pub detail: Seq<char>,
    pub owner: Option<DeclarationOwnerView>,
    pub method_kind: Option<MethodKind>,
    pub is_abstract_method: bool,
    pub is_final: bool,
    pub is_class_var: bool,
    pub bound_params: Option<Seq<crate::signatures::ParamView>>,
    pub value_annotation: Option<Seq<char>>,
    pub import_target: Option<ImportTargetView>,
    pub class_kind: Option<DeclarationOwnerKind>,
    pub bases: Seq<Seq<char>>,
    pub type_params: Seq<(Seq<char>, GenericTypeParamKind)>,
    pub is_override: bool,
    pub is_final_decorator: bool,
}

/// The plain-value view of an import target: the raw target, the module target, and the module
/// and symbol it names where it names one.
pub type ImportTargetView = (Seq<char>, Seq<char>, Option<(Seq<char>, Seq<char>)>);

/// The view of an import target.
pub open spec fn import_target_view(t: SemanticImportTargetRef) -> ImportTargetView {
    (
        t.raw_target@,
        t.module_target@,
        match t.symbol_target {
            Some(s) => Some((s.module_key@, s.symbol_name@)),
            None => None,
        },
    )
}

/// The views of generic type parameters.
pub open spec fn type_param_views(s: Seq<GenericTypeParam>) -> Seq<(Seq<char>, GenericTypeParamKind)> {
    s.map_values(|p: GenericTypeParam| (p.name@, p.kind))
}

impl View for DeclarationOwner {
    type V = DeclarationOwnerView;

    open spec fn view(&self) -> DeclarationOwnerView {
        DeclarationOwnerView { name: self.name@, kind: self.kind }
    }
}

impl View for Declaration {
    type V = DeclarationView;

    open spec fn view(&self) -> DeclarationView {
        DeclarationView {
            name: self.name@,
            kind: self.kind,
            detail: self.detail@,
            owner: match self.owner {
                Some(o) => Some(o@),
                None => None,
            },
            method_kind: self.method_kind,
            is_abstract_method: self.is_abstract_method,
            is_final: self.is_final,
            is_class_var: self.is_class_var,
            bound_params: match self.bound_params {
                Some(ps) => Some(crate::signatures::param_views(ps@)),
                None => None,
            },
            value_annotation: opt_view(self.value_annotation),
            import_target: match self.import_target {
                Some(t) => Some(import_target_view(t)),
                None => None,
            },
            class_kind: self.class_kind,
            bases: string_views(self.bases@),
            type_params: type_param_views(self.type_params@),
            is_override: self.is_override,
            is_final_decorator: self.is_final_decorator,
        }
    }
}

impl DeclarationOwner {
    /// A copy of this owner.
    pub fn duplicate(&self) -> (res: DeclarationOwner)
        ensures
            res@ == self@,
    {
        DeclarationOwner { name: self.name.clone(), kind: self.kind }
    }
}

/// A copy of a list of names.
pub fn clone_string_vec(s: &Vec<String>) -> (res: Vec<String>)
    ensures
        string_views(res@) == string_views(s@),
{
    let mut out: Vec<String> = Vec::new();
    let n = s.len();
    let mut i: usize = 0;
    while i < n
        invariant
            n == s@.len(),
            i <= n,
            out@.len() == i,
            forall|j: int| 0 <= j < i ==> #[trigger] out@[j]@ == s@[j]@,
        decreases n - i,
    {
        out.push(s[i].clone());
        i = i + 1;
    }
    assert(string_views(out@) =~= string_views(s@));
    out
}

fn clone_type_params(s: &Vec<GenericTypeParam>) -> (res: Vec<GenericTypeParam>)
    ensures
        res@.len() == s@.len(),
        forall|j: int| #![trigger res@[j]] 0 <= j < s@.len() ==> res@[j].name@ == s@[j].name@ && res@[j].kind == s@[j].kind,
{
    let mut out: Vec<GenericTypeParam> = Vec::new();
    let n = s.len();
    let mut i: usize = 0;
    while i < n
        invariant
            n == s@.len(),
            i <= n,
            out@.len() == i,
            forall|j: int| #![trigger out@[j]] 0 <= j < i ==> out@[j].name@ == s@[j].name@ && out@[j].kind == s@[j].kind,
        decreases n - i,
    {
        let p = s[i].duplicate();
        out.push(p);
        assert(out@[i as int] == p);
        i = i + 1;
    }
    out
}

impl Declaration {
    /// A copy of this declaration.
    pub fn duplicate(&self) -> (res: Declaration)
        ensures
            res@ == self@,
    {
        let bound_params = match &self.bound_params {
            Some(ps) => Some(crate::signatures::clone_params(ps)),
            None => None,
        };
        let import_target = match &self.import_target {
            Some(t) => Some(t.duplicate()),
            None => None,
        };
        let bases = clone_string_vec(&self.bases);
        let type_params = clone_type_params(&self.type_params);
        assert(type_param_views(type_params@) =~= type_param_views(self.type_params@));
        let res = Declaration {
            name: self.name.clone(),
            kind: self.kind,
            detail: self.detail.clone(),
            owner: match &self.owner {
                Some(o) => Some(o.duplicate()),
                None => None,
            },
            method_kind: self.method_kind,
            is_abstract_method: self.is_abstract_method,
            is_final: self.is_final,
            is_class_var: self.is_class_var,
            bound_params,
            value_annotation: crate::effect_summary::clone_opt(&self.value_annotation),
            import_target,
            class_kind: self.class_kind,
            bases,
            type_params,
            is_override: self.is_override,
            is_final_decorator: self.is_final_decorator,
        };
        assert(res@.bound_params == self@.bound_params);
        assert(res@.import_target == self@.import_target);
        res
    }
}

/// The declarations taken by their views.
pub open spec fn decl_views(s: Seq<Declaration>) -> Seq<DeclarationView> {
    s.map_values(|d: Declaration| d@)
}

/// How many declarations of `s` satisfy `p`.
pub open spec fn count_where(s: Seq<DeclarationView>, p: spec_fn(DeclarationView) -> bool) -> nat
    decreases s.len(),
{
    if s.len() == 0 {
        0
    } else {
        count_where(s.drop_last(), p) + if p(s.last()) {
            1nat
        } else {
            0nat
        }
    }
}

/// The declarations of `s` that satisfy `p`, in order.
pub open spec fn select_where(s: Seq<DeclarationView>, p: spec_fn(DeclarationView) -> bool) -> Seq<
    DeclarationView,
>
    decreases s.len(),
{
    if s.len() == 0 {
        Seq::empty()
    } else {
        let r = select_where(s.drop_last(), p);
        if p(s.last()) {
            r.push(s.last())
        } else {
            r
        }
    }
}

/// Declarations named `name`.
pub open spec fn has_name(name: Seq<char>) -> spec_fn(DeclarationView) -> bool {
    |d: DeclarationView| d.name == name
}

/// Declarations named `name` of the given kind.
pub open spec fn has_name_kind(name: Seq<char>, kind: DeclarationKind) -> spec_fn(
    DeclarationView,
) -> bool {
    |d: DeclarationView| d.name == name && d.kind == kind
}

/// Declarations of the given kind.
pub open spec fn has_kind(kind: DeclarationKind) -> spec_fn(DeclarationView) -> bool {
    |d: DeclarationView| d.kind == kind
}

/// `Final` declarations named `name`.
pub open spec fn final_named(name: Seq<char>) -> spec_fn(DeclarationView) -> bool {
    |d: DeclarationView| d.name == name && d.is_final
}

/// All declarations of `s` satisfy `p`.
pub open spec fn all_where(s: Seq<DeclarationView>, p: spec_fn(DeclarationView) -> bool) -> bool {
    forall|i: int| 0 <= i < s.len() ==> #[trigger] p(s[i])
}

/// Some declaration of `s` satisfies `p`.
pub open spec fn any_where(s: Seq<DeclarationView>, p: spec_fn(DeclarationView) -> bool) -> bool {
    exists|i: int| 0 <= i < s.len() && #[trigger] p(s[i])
}

proof fn lemma_take_step<A>(s: Seq<A>, i: int)
    requires
        0 <= i < s.len(),
    ensures
        s.take(i + 1).drop_last() == s.take(i),
        s.take(i + 1).last() == s[i],
{
    assert(s.take(i + 1).drop_last() =~= s.take(i));
}

/// Counts the declarations of `decls` with the given name, and among them those that are
/// `Final` and those of the two given kinds.
fn count_named(decls: &Vec<Declaration>, name: &str, kind_a: DeclarationKind, kind_b: DeclarationKind) -> (res: (
    usize,
    usize,
    usize,
    usize,
))
    ensures
        res.0 == count_where(decl_views(decls@), has_name(name@)),
        res.1 == count_where(decl_views(decls@), final_named(name@)),
        res.2 == count_where(decl_views(decls@), has_name_kind(name@, kind_a)),
        res.3 == count_where(decl_views(decls@), has_name_kind(name@, kind_b)),
{
    let ghost v = decl_views(decls@);
    let mut total: usize = 0;
    let mut finals: usize = 0;
    let mut a: usize = 0;
    let mut b: usize = 0;
    let mut i: usize = 0;
    while i < decls.len()
        invariant
            v == decl_views(decls@),
            v.len() == decls@.len(),
            i <= decls@.len(),
            total == count_where(v.take(i as int), has_name(name@)),
            finals == count_where(v.take(i as int), final_named(name@)),
            a == count_where(v.take(i as int), has_name_kind(name@, kind_a)),
            b == count_where(v.take(i as int), has_name_kind(name@, kind_b)),
            total <= i,
            finals <= i,
            a <= i,
            b <= i,
        decreases decls@.len() - i,
    {
        proof {
            lemma_take_step(v, i as int);
        }
        let d = &decls[i];
        if str_eq(&d.name, name) {
            total = total + 1;
            if d.is_final {
                finals = finals + 1;
            }
            if d.kind == kind_a {
                a = a + 1;
            }
            if d.kind == kind_b {
                b = b + 1;
            }
        }
        i = i + 1;
    }
    assert(v.take(decls@.len() as int) =~= v);
    (total, finals, a, b)
}

/// The abstract methods of `decls`, keyed by owner name and member name; a later declaration of
/// the same member replaces an earlier one.
pub open spec fn spec_abstract_member_index(decls: Seq<DeclarationView>) -> Map<SummaryKey, DeclarationKind>
    decreases decls.len(),
{
    if decls.len() == 0 {
        Map::empty()
    } else {
        let rest = spec_abstract_member_index(decls.drop_last());
        let d = decls.last();
        match d.owner {
            Some(owner) => if d.is_abstract_method {
                rest.insert((Some(owner.name), d.name), d.kind)
            } else {
                rest
            },
            None => rest,
        }
    }
}

/// The abstract methods of `declarations`, keyed by owner name and member name.
pub fn abstract_member_index(declarations: &Vec<Declaration>) -> (res: KeyTable<DeclarationKind>)
    ensures
        res.wf(),
        res@ == spec_abstract_member_index(decl_views(declarations@)),
{
    let ghost v = decl_views(declarations@);
    let mut table: KeyTable<DeclarationKind> = KeyTable::new();
    let mut i: usize = 0;
    assert(v.take(0) =~= Seq::<DeclarationView>::empty());
    while i < declarations.len()
        invariant
            v == decl_views(declarations@),
            v.len() == declarations@.len(),
            i <= declarations@.len(),
            table.wf(),
            table@ == spec_abstract_member_index(v.take(i as int)),
        decreases declarations@.len() - i,
    {
        proof {
            lemma_take_step(v, i as int);
        }
        let d = &declarations[i];
        match &d.owner {
            Some(owner) => {
                if d.is_abstract_method {
                    table.set(Some(owner.name.clone()), d.name.clone(), d.kind);
                }
            },
            None => {},
        }
        i = i + 1;
    }
    assert(v.take(declarations@.len() as int) =~= v);
    table
}

/// The number of spaces at the start of `line`.
pub fn leading_space_count(line: &str) -> (res: usize)
    ensures
        res <= line@.len(),
        forall|i: int| 0 <= i < res ==> line@[i] == ' ',
        res < line@.len() ==> line@[res as int] != ' ',
{
    let n = line.unicode_len();
    let mut i: usize = 0;
    while i < n && line.get_char(i) == ' '
        invariant
            n == line@.len(),
            i <= n,
            forall|j: int| 0 <= j < i ==> line@[j] == ' ',
        decreases n - i,
    {
        i = i + 1;
    }
    i
}

/// The message of a `ClassVar` binding outside a class.
pub open spec fn spec_classvar_message(source_path: Seq<char>, name: Seq<char>) -> Seq<char> {
    "module `"@ + source_path + "` uses ClassVar binding `"@ + name
        + "` outside a class attribute declaration"@
}

/// A `ClassVar` binding outside a class is an error; anything else is not.
pub fn classvar_placement_diagnostic(
    source_path: &str,
    owner_name: &Option<String>,
    declaration: &Declaration,
) -> (res: Option<Diagnostic>)
    ensures
        match res {
            Some(d) => declaration.is_class_var && owner_name.is_none() && d@ == spec_diagnostic(
                Severity::Error,
                "TPY4001"@,
                spec_classvar_message(source_path@, declaration.name@),
            ),
            None => !declaration.is_class_var || owner_name.is_some(),
        },
{
    if !declaration.is_class_var || owner_name.is_some() {
        return None;
    }
    let mut message = owned("module `");
    message.append(source_path);
    message.append("` uses ClassVar binding `");
    message.append(&declaration.name);
    message.append("` outside a class attribute declaration");
    Some(Diagnostic::error("TPY4001", message))
}

/// The message of a reassigned `Final` binding.
pub open spec fn spec_final_message(
    source_path: Seq<char>,
    owner_name: Option<Seq<char>>,
    duplicate: Seq<char>,
) -> Seq<char> {
    match owner_name {
        Some(owner) => "type `"@ + owner + "` in module `"@ + source_path
            + "` reassigns Final binding `"@ + duplicate + "`"@,
        None => "module `"@ + source_path + "` reassigns Final binding `"@ + duplicate + "`"@,
    }
}

/// Whether the declarations named `duplicate` reassign a `Final` binding: one of them is `Final`
/// and there is more than one.
pub open spec fn spec_reassigns_final(decls: Seq<DeclarationView>, duplicate: Seq<char>) -> bool {
    count_where(decls, final_named(duplicate)) > 0 && count_where(decls, has_name(duplicate)) > 1
}

/// An error when `duplicate` names a `Final` binding that is declared more than once.
pub fn final_reassignment_diagnostic(
    source_path: &str,
    owner_name: &Option<String>,
    duplicate: &str,
    declarations: &Vec<Declaration>,
) -> (res: Option<Diagnostic>)
    ensures
        match res {
            Some(d) => spec_reassigns_final(decl_views(declarations@), duplicate@) && d@
                == spec_diagnostic(
                Severity::Error,
                "TPY4006"@,
                spec_final_message(source_path@, opt_view(*owner_name), duplicate@),
            ),
            None => !spec_reassigns_final(decl_views(declarations@), duplicate@),
        },
{
    let counts = count_named(declarations, duplicate, DeclarationKind::Overload, DeclarationKind::Function);
    if counts.1 == 0 {
        return None;
    }
    if counts.0 <= 1 {
        return None;
    }
    let message = match owner_name {
        Some(owner) => {
            let mut m = owned("type `");
            m.append(owner);
            m.append("` in module `");
            m.append(source_path);
            m.append("` reassigns Final binding `");
            m.append(duplicate);
            m.append("`");
            m
        },
        None => {
            let mut m = owned("module `");
            m.append(source_path);
            m.append("` reassigns Final binding `");
            m.append(duplicate);
            m.append("`");
            m
        },
    };
    Some(Diagnostic::error("TPY4006", message))
}

/// The message of a name declared twice in one declaration space.
pub open spec fn spec_duplicate_message(
    source_path: Seq<char>,
    owner_name: Option<Seq<char>>,
    duplicate: Seq<char>,
) -> Seq<char> {
    match owner_name {
        Some(owner) => "type `"@ + owner + "` in module `"@ + source_path + "` declares member `"@
            + duplicate + "` more than once in the same declaration space"@,
        None => "module `"@ + source_path + "` declares `"@ + duplicate
            + "` more than once in the same declaration space"@,
    }
}

/// The message of a name declared twice in one declaration space.
pub fn duplicate_message(source_path: &str, owner_name: &Option<String>, duplicate: &str) -> (res:
    String)
    ensures
        res@ == spec_duplicate_message(source_path@, opt_view(*owner_name), duplicate@),
{
    match owner_name {
        Some(owner) => {
            let mut m = owned("type `");
            m.append(owner);
            m.append("` in module `");
            m.append(source_path);
            m.append("` declares member `");
            m.append(duplicate);
            m.append("` more than once in the same declaration space");
            m
        },
        None => {
            let mut m = owned("module `");
            m.append(source_path);
            m.append("` declares `");
            m.append(duplicate);
            m.append("` more than once in the same declaration space");
            m
        },
    }
}

/// The message of a malformed overload group.
pub open spec fn spec_overload_shape_message(
    source_path: Seq<char>,
    owner_name: Option<Seq<char>>,
    duplicate: Seq<char>,
    suffix: Seq<char>,
) -> Seq<char> {
    match owner_name {
        Some(owner) => "type `"@ + owner + "` in module `"@ + source_path
            + "` declares overloads for `"@ + duplicate + "` "@ + suffix,
        None => "module `"@ + source_path + "` declares overloads for `"@ + duplicate + "` "@
            + suffix,
    }
}

/// The message of a malformed overload group.
pub fn overload_shape_message(
    source_path: &str,
    owner_name: &Option<String>,
    duplicate: &str,
    suffix: &str,
) -> (res: String)
    ensures
        res@ == spec_overload_shape_message(source_path@, opt_view(*owner_name), duplicate@, suffix@),
{
    match owner_name {
        Some(owner) => {
            let mut m = owned("type `");
            m.append(owner);
            m.append("` in module `");
            m.append(source_path);
            m.append("` declares overloads for `");
            m.append(duplicate);
            m.append("` ");
            m.append(suffix);
            m
        },
        None => {
            let mut m = owned("module `");
            m.append(source_path);
            m.append("` declares overloads for `");
            m.append(duplicate);
            m.append("` ");
            m.append(suffix);
            m
        },
    }
}

/// In a module that is not TypePython source, a name declared only by overloads is permitted.
pub open spec fn spec_permitted_external_overload_group(
    module_kind: SourceKind,
    duplicate: Seq<char>,
    decls: Seq<DeclarationView>,
) -> bool {
    module_kind != SourceKind::TypePython && count_where(decls, has_name(duplicate)) == count_where(
        decls,
        has_name_kind(duplicate, DeclarationKind::Overload),
    )
}

/// Whether the declarations named `duplicate` are overloads only, in a module that is not
/// TypePython source.
pub fn is_permitted_external_overload_group(
    module_kind: SourceKind,
    duplicate: &str,
    declarations: &Vec<Declaration>,
) -> (res: bool)
    ensures
        res == spec_permitted_external_overload_group(
            module_kind,
            duplicate@,
            decl_views(declarations@),
        ),
{
    if module_kind == SourceKind::TypePython {
        return false;
    }
    let counts = count_named(declarations, duplicate, DeclarationKind::Overload, DeclarationKind::Function);
    counts.0 == counts.2
}

/// What the overload group named `duplicate` is wrong in, if anything: `Some(true)` when it has
/// no implementation, `Some(false)` when it has more than one.
pub open spec fn spec_overload_shape_fault(
    module_kind: SourceKind,
    owner_kind: Option<DeclarationOwnerKind>,
    duplicate: Seq<char>,
    decls: Seq<DeclarationView>,
) -> Option<bool> {
    let overloads = count_where(decls, has_name_kind(duplicate, DeclarationKind::Overload));
    let functions = count_where(decls, has_name_kind(duplicate, DeclarationKind::Function));
    if owner_kind == Some(DeclarationOwnerKind::Interface) || overloads == 0 {
        None
    } else if module_kind != SourceKind::TypePython && functions == 0 {
        None
    } else if functions == 0 {
        Some(true)
    } else if functions == 1 {
        None
    } else {
        Some(false)
    }
}

/// The error for the overload group named `duplicate`, when there is one.
pub open spec fn spec_overload_shape_diagnostic(
    source_path: Seq<char>,
    module_kind: SourceKind,
    owner_name: Option<Seq<char>>,
    owner_kind: Option<DeclarationOwnerKind>,
    duplicate: Seq<char>,
    decls: Seq<DeclarationView>,
) -> Option<DiagnosticView> {
    match spec_overload_shape_fault(module_kind, owner_kind, duplicate, decls) {
        Some(missing) => Some(
            spec_diagnostic(
                Severity::Error,
                "TPY4004"@,
                spec_overload_shape_message(
                    source_path,
                    owner_name,
                    duplicate,
                    if missing {
                        "without a concrete implementation"@
                    } else {
                        "with more than one concrete implementation"@
                    },
                ),
            ),
        ),
        None => None,
    }
}

/// An error when the overloads named `duplicate` have no concrete implementation, or more than
/// one; interfaces and modules that are not TypePython source without an implementation are
/// exempt.
pub fn overload_shape_diagnostic(
    source_path: &str,
    module_kind: SourceKind,
    owner_name: &Option<String>,
    owner_kind: Option<DeclarationOwnerKind>,
    duplicate: &str,
    declarations: &Vec<Declaration>,
) -> (res: Option<Diagnostic>)
    ensures
        match res {
            Some(d) => spec_overload_shape_diagnostic(
                source_path@,
                module_kind,
                opt_view(*owner_name),
                owner_kind,
                duplicate@,
                decl_views(declarations@),
            ) == Some(d@),
            None => spec_overload_shape_diagnostic(
                source_path@,
                module_kind,
                opt_view(*owner_name),
                owner_kind,
                duplicate@,
                decl_views(declarations@),
            ) is None,
        },
{
    if owner_kind == Some(DeclarationOwnerKind::Interface) {
        return None;
    }
    let counts = count_named(declarations, duplicate, DeclarationKind::Overload, DeclarationKind::Function);
    let overload_count = counts.2;
    let function_count = counts.3;
    if overload_count == 0 {
        return None;
    }
    if module_kind != SourceKind::TypePython && function_count == 0 {
        return None;
    }
    let message = if function_count == 0 {
        overload_shape_message(source_path, owner_name, duplicate, "without a concrete implementation")
    } else if function_count == 1 {
        return None;
    } else {
        overload_shape_message(
            source_path,
            owner_name,
            duplicate,
            "with more than one concrete implementation",
        )
    };
    Some(Diagnostic::error("TPY4004", message))
}

/// The key of a declaration space: the owner's name and kind, or neither for the module itself.
pub type SpaceKey = (Option<Seq<char>>, Option<DeclarationOwnerKind>);

/// The position of an owner kind in the order of declaration spaces.
pub open spec fn owner_kind_rank(k: DeclarationOwnerKind) -> int {
    match k {
        DeclarationOwnerKind::Class => 0,
        DeclarationOwnerKind::DataClass => 1,
        DeclarationOwnerKind::SealedClass => 2,
        DeclarationOwnerKind::Interface => 3,
    }
}

/// Order on optional owner kinds: none first, then by kind.
pub open spec fn opt_owner_kind_lt(a: Option<DeclarationOwnerKind>, b: Option<DeclarationOwnerKind>) -> bool {
    match (a, b) {
        (None, Some(_)) => true,
        (Some(x), Some(y)) => owner_kind_rank(x) < owner_kind_rank(y),
        _ => false,
    }
}

/// Order on optional names: none first, then by characters.
pub open spec fn opt_name_lt(a: Option<Seq<char>>, b: Option<Seq<char>>) -> bool {
    match (a, b) {
        (None, Some(_)) => true,
        (Some(x), Some(y)) => chars_lt(x, y),
        _ => false,
    }
}

/// The order of declaration spaces: by owner name, then by owner kind.
pub open spec fn space_key_lt(a: SpaceKey, b: SpaceKey) -> bool {
    opt_name_lt(a.0, b.0) || (a.0 == b.0 && opt_owner_kind_lt(a.1, b.1))
}

/// The declaration space a declaration belongs to.
pub open spec fn space_key(d: DeclarationView) -> SpaceKey {
    match d.owner {
        Some(o) => (Some(o.name), Some(o.kind)),
        None => (None, None),
    }
}

/// Declarations of the space `k`.
pub open spec fn in_space(k: SpaceKey) -> spec_fn(DeclarationView) -> bool {
    |d: DeclarationView| space_key(d) == k
}

pub proof fn lemma_space_key_lt_irreflexive(a: SpaceKey)
    ensures
        !space_key_lt(a, a),
{
    match a.0 {
        Some(x) => lemma_chars_lt_irreflexive(x),
        None => {},
    }
}

pub proof fn lemma_space_key_lt_transitive(a: SpaceKey, b: SpaceKey, c: SpaceKey)
    requires
        space_key_lt(a, b),
        space_key_lt(b, c),
    ensures
        space_key_lt(a, c),
{
    match (a.0, b.0, c.0) {
        (Some(x), Some(y), Some(z)) => {
            if chars_lt(x, y) && chars_lt(y, z) {
                lemma_chars_lt_transitive(x, y, z);
            }
        },
        _ => {},
    }
}

pub proof fn lemma_space_key_lt_total(a: SpaceKey, b: SpaceKey)
    ensures
        a == b || space_key_lt(a, b) || space_key_lt(b, a),
{
    match (a.0, b.0) {
        (Some(x), Some(y)) => lemma_chars_lt_total(x, y),
        _ => {},
    }
}

/// A declaration space: the owner's name and kind, and its declarations in order.
pub type DeclarationSpace = (Option<String>, Option<DeclarationOwnerKind>, Vec<Declaration>);

/// The key of a declaration space.
pub open spec fn group_key(g: DeclarationSpace) -> SpaceKey {
    (opt_view(g.0), g.1)
}

/// The keys of `ks` rise strictly under `lt`.
pub open spec fn rising<T>(ks: Seq<T>, lt: spec_fn(T, T) -> bool) -> bool {
    forall|j: int, k: int| 0 <= j < k < ks.len() ==> #[trigger] lt(ks[j], ks[k])
}

/// Two sequences that rise strictly under a strict order and hold the same elements are equal.
pub proof fn lemma_rising_unique<T>(a: Seq<T>, b: Seq<T>, lt: spec_fn(T, T) -> bool)
    requires
        forall|x: T| !#[trigger] lt(x, x),
        forall|x: T, y: T, z: T| #[trigger] lt(x, y) && #[trigger] lt(y, z) ==> lt(x, z),
        rising(a, lt),
        rising(b, lt),
        forall|x: T| a.contains(x) <==> b.contains(x),
    ensures
        a == b,
    decreases a.len(),
{
    if a.len() == 0 {
        if b.len() > 0 {
            assert(b.contains(b[0]));
        }
        assert(a =~= b);
    } else {
        assert(a.contains(a[0]));
        let k = choose|k: int| 0 <= k < b.len() && b[k] == a[0];
        assert(b.contains(b[0]));
        let m = choose|m: int| 0 <= m < a.len() && a[m] == b[0];
        if k > 0 {
            assert(lt(b[0], b[k]));
            if m > 0 {
                assert(lt(a[0], a[m]));
            }
            assert(false);
        }
        assert(b.len() > 0);
        let a1 = a.drop_first();
        let b1 = b.drop_first();
        assert forall|x: T| a1.contains(x) <==> b1.contains(x) by {
            if a1.contains(x) {
                let i = choose|i: int| 0 <= i < a1.len() && a1[i] == x;
                assert(a[i + 1] == x);
                assert(lt(a[0], a[i + 1]));
                assert(b.contains(x));
                let j = choose|j: int| 0 <= j < b.len() && b[j] == x;
                if j == 0 {
                    assert(false);
                }
                assert(b1[j - 1] == x);
            }
            if b1.contains(x) {
                let i = choose|i: int| 0 <= i < b1.len() && b1[i] == x;
                assert(b[i + 1] == x);
                assert(lt(b[0], b[i + 1]));
                assert(a.contains(x));
                let j = choose|j: int| 0 <= j < a.len() && a[j] == x;
                if j == 0 {
                    assert(false);
                }
                assert(a1[j - 1] == x);
            }
        }
        assert(rising(a1, lt)) by {
            assert forall|j: int, k: int| 0 <= j < k < a1.len() implies #[trigger] lt(a1[j], a1[k]) by {
                assert(lt(a[j + 1], a[k + 1]));
            }
        }
        assert(rising(b1, lt)) by {
            assert forall|j: int, k: int| 0 <= j < k < b1.len() implies #[trigger] lt(b1[j], b1[k]) by {
                assert(lt(b[j + 1], b[k + 1]));
            }
        }
        lemma_rising_unique(a1, b1, lt);
        assert(a =~= b) by {
            assert forall|i: int| 0 <= i < a.len() implies a[i] == b[i] by {
                if i > 0 {
                    assert(a[i] == a1[i - 1]);
                    assert(b[i] == b1[i - 1]);
                }
            }
        }
    }
}

/// The order of declaration spaces, as a function value.
pub open spec fn space_order() -> spec_fn(SpaceKey, SpaceKey) -> bool {
    |a: SpaceKey, b: SpaceKey| space_key_lt(a, b)
}

/// The keys of the declaration spaces of `decls`, in order.
pub open spec fn spec_space_keys(decls: Seq<DeclarationView>) -> Seq<SpaceKey> {
    choose|ks: Seq<SpaceKey>|
        rising(ks, space_order()) && forall|k: SpaceKey| #[trigger] ks.contains(k) <==> exists|i: int|
            0 <= i < decls.len() && space_key(decls[i]) == k
}

proof fn lemma_space_order_facts()
    ensures
        forall|x: SpaceKey| !#[trigger] space_order()(x, x),
        forall|x: SpaceKey, y: SpaceKey, z: SpaceKey| #[trigger] space_order()(x, y) && #[trigger] space_order()(y, z) ==> space_order()(x, z),
{
    assert forall|x: SpaceKey| !#[trigger] space_order()(x, x) by {
        lemma_space_key_lt_irreflexive(x);
    }
    assert forall|x: SpaceKey, y: SpaceKey, z: SpaceKey| #[trigger] space_order()(x, y) && #[trigger] space_order()(y, z) implies space_order()(x, z) by {
        lemma_space_key_lt_transitive(x, y, z);
    }
}

proof fn lemma_select_step(s: Seq<DeclarationView>, i: int, p: spec_fn(DeclarationView) -> bool)
    requires
        0 <= i < s.len(),
    ensures
        select_where(s.take(i + 1), p) == if p(s[i]) {
            select_where(s.take(i), p).push(s[i])
        } else {
            select_where(s.take(i), p)
        },
        count_where(s.take(i + 1), p) == count_where(s.take(i), p) + if p(s[i]) {
            1nat
        } else {
            0nat
        },
{
    lemma_take_step(s, i);
}

proof fn lemma_select_none(s: Seq<DeclarationView>, p: spec_fn(DeclarationView) -> bool)
    requires
        forall|t: int| 0 <= t < s.len() ==> !p(#[trigger] s[t]),
    ensures
        select_where(s, p) == Seq::<DeclarationView>::empty(),
    decreases s.len(),
{
    if s.len() > 0 {
        lemma_select_none(s.drop_last(), p);
    }
}

fn owner_kind_rank_of(k: DeclarationOwnerKind) -> (res: u8)
    ensures
        res == owner_kind_rank(k),
{
    match k {
        DeclarationOwnerKind::Class => 0,
        DeclarationOwnerKind::DataClass => 1,
        DeclarationOwnerKind::SealedClass => 2,
        DeclarationOwnerKind::Interface => 3,
    }
}

fn opt_owner_kind_eq(a: Option<DeclarationOwnerKind>, b: Option<DeclarationOwnerKind>) -> (res: bool)
    ensures
        res == (a == b),
{
    match (a, b) {
        (None, None) => true,
        (Some(x), Some(y)) => owner_kind_rank_of(x) == owner_kind_rank_of(y),
        _ => false,
    }
}

fn space_key_less(
    a_name: &Option<String>,
    a_kind: Option<DeclarationOwnerKind>,
    b_name: &Option<String>,
    b_kind: Option<DeclarationOwnerKind>,
) -> (res: bool)
    ensures
        res == space_key_lt((opt_view(*a_name), a_kind), (opt_view(*b_name), b_kind)),
{
    let name_lt = match (a_name, b_name) {
        (None, Some(_)) => true,
        (Some(x), Some(y)) => str_lt(x, y),
        _ => false,
    };
    if name_lt {
        return true;
    }
    if !opt_str_eq(a_name, b_name) {
        return false;
    }
    match (a_kind, b_kind) {
        (None, Some(_)) => true,
        (Some(x), Some(y)) => owner_kind_rank_of(x) < owner_kind_rank_of(y),
        _ => false,
    }
}

/// The declarations of a module grouped by declaration space: the module itself and each owning
/// type, in the order of their keys, each group keeping the order of the declarations.
pub fn declaration_spaces(declarations: &Vec<Declaration>) -> (res: Vec<DeclarationSpace>)
    ensures
        res@.len() == spec_space_keys(decl_views(declarations@)).len(),
        forall|j: int|
            0 <= j < res@.len() ==> group_key(#[trigger] res@[j]) == spec_space_keys(
                decl_views(declarations@),
            )[j],
        forall|j: int|
            0 <= j < res@.len() ==> decl_views(#[trigger] res@[j].2@) == select_where(
                decl_views(declarations@),
                in_space(group_key(res@[j])),
            ) && res@[j].2@.len() > 0,
        forall|j: int, k: int|
            0 <= j < k < res@.len() ==> space_key_lt(group_key(#[trigger] res@[j]), group_key(#[trigger] res@[k])),
        forall|i: int|
            0 <= i < declarations@.len() ==> exists|j: int|
                0 <= j < res@.len() && #[trigger] group_key(res@[j]) == space_key(
                    #[trigger] declarations@[i]@,
                ),
        crate::declaration_laws::flatten(space_group_views(res@)).to_multiset() == decl_views(
            declarations@,
        ).to_multiset(),
{
    let ghost v = decl_views(declarations@);
    let mut groups: Vec<DeclarationSpace> = Vec::new();
    let mut i: usize = 0;
    while i < declarations.len()
        invariant
            v == decl_views(declarations@),
            v.len() == declarations@.len(),
            i <= declarations@.len(),
            forall|j: int, k: int|
                0 <= j < k < groups@.len() ==> space_key_lt(group_key(#[trigger] groups@[j]), group_key(#[trigger] groups@[k])),
            forall|j: int|
                0 <= j < groups@.len() ==> decl_views(#[trigger] groups@[j].2@) == select_where(
                    v.take(i as int),
                    in_space(group_key(groups@[j])),
                ) && groups@[j].2@.len() > 0,
            forall|t: int|
                0 <= t < i ==> exists|j: int|
                    0 <= j < groups@.len() && #[trigger] group_key(groups@[j]) == space_key(#[trigger] v[t]),
        decreases declarations@.len() - i,
    {
        let d = &declarations[i];
        let (kname, kkind) = match &d.owner {
            Some(o) => (Some(o.name.clone()), Some(o.kind)),
            None => (None, None),
        };
        let ghost k: SpaceKey = (opt_view(kname), kkind);
        assert(k == space_key(v[i as int]));
        proof {
            lemma_take_step(v, i as int);
        }
        let mut p: usize = 0;
        while p < groups.len() && space_key_less(&groups[p].0, groups[p].1, &kname, kkind)
            invariant
                p <= groups@.len(),
                k == (opt_view(kname), kkind),
                forall|j: int| 0 <= j < p ==> space_key_lt(group_key(#[trigger] groups@[j]), k),
            decreases groups@.len() - p,
        {
            p = p + 1;
        }
        let ghost old_groups = groups@;
        if p < groups.len() && opt_str_eq(&groups[p].0, &kname) && opt_owner_kind_eq(groups[p].1, kkind) {
            let mut g = groups.remove(p);
            g.2.push(d.duplicate());
            groups.insert(p, g);
            proof {
                assert(groups@ =~= old_groups.update(p as int, g));
                assert forall|j: int|
                    0 <= j < groups@.len() implies decl_views(#[trigger] groups@[j].2@) == select_where(
                        v.take(i + 1),
                        in_space(group_key(groups@[j])),
                    ) && groups@[j].2@.len() > 0 by {
                    lemma_select_step(v, i as int, in_space(group_key(groups@[j])));
                    if j == p {
                        assert(decl_views(g.2@) =~= decl_views(old_groups[j].2@).push(v[i as int]));
                    } else {
                        if j < p {
                            assert(space_key_lt(group_key(old_groups[j]), group_key(old_groups[p as int])));
                        } else {
                            assert(space_key_lt(group_key(old_groups[p as int]), group_key(old_groups[j])));
                        }
                        lemma_space_key_lt_irreflexive(k);
                    }
                }
                assert forall|t: int| 0 <= t < i + 1 implies exists|j: int|
                    0 <= j < groups@.len() && #[trigger] group_key(groups@[j]) == space_key(#[trigger] v[t]) by {
                    if t == i {
                        assert(group_key(groups@[p as int]) == space_key(v[t]));
                    } else {
                        let w = choose|w: int| 0 <= w < old_groups.len() && #[trigger] group_key(old_groups[w]) == space_key(v[t]);
                        assert(group_key(groups@[w]) == space_key(v[t]));
                    }
                }
            }
        } else {
            let mut members: Vec<Declaration> = Vec::new();
            members.push(d.duplicate());
            let ng: DeclarationSpace = (kname, kkind, members);
            proof {
                if p < old_groups.len() {
                    lemma_space_key_lt_total(group_key(old_groups[p as int]), k);
                }
            }
            groups.insert(p, ng);
            proof {
                assert(forall|j: int| 0 <= j < old_groups.len() ==> group_key(#[trigger] old_groups[j]) != k) by {
                    assert forall|j: int| 0 <= j < old_groups.len() implies group_key(#[trigger] old_groups[j]) != k by {
                        lemma_space_key_lt_irreflexive(k);
                        if j > p {
                            lemma_space_key_lt_transitive(k, group_key(old_groups[p as int]), group_key(old_groups[j]));
                        }
                    }
                }
                assert(select_where(v.take(i as int), in_space(k)) == Seq::<DeclarationView>::empty()) by {
                    assert forall|t: int| 0 <= t < v.take(i as int).len() implies !in_space(k)(#[trigger] v.take(i as int)[t]) by {
                        let w = choose|w: int| 0 <= w < old_groups.len() && #[trigger] group_key(old_groups[w]) == space_key(v[t]);
                        assert(v.take(i as int)[t] == v[t]);
                    }
                    lemma_select_none(v.take(i as int), in_space(k));
                }
                assert forall|j: int, m: int|
                    0 <= j < m < groups@.len() implies space_key_lt(group_key(#[trigger] groups@[j]), group_key(#[trigger] groups@[m])) by {
                    if m < p {
                        assert(groups@[j] == old_groups[j]);
                        assert(groups@[m] == old_groups[m]);
                    } else if m == p {
                        assert(groups@[j] == old_groups[j]);
                    } else if j < p {
                        assert(groups@[j] == old_groups[j]);
                        assert(groups@[m] == old_groups[m - 1]);
                    } else if j == p {
                        assert(groups@[m] == old_groups[m - 1]);
                        if m - 1 > p {
                            lemma_space_key_lt_transitive(k, group_key(old_groups[p as int]), group_key(old_groups[m - 1]));
                        }
                    } else {
                        assert(groups@[j] == old_groups[j - 1]);
                        assert(groups@[m] == old_groups[m - 1]);
                    }
                }
                assert forall|j: int|
                    0 <= j < groups@.len() implies decl_views(#[trigger] groups@[j].2@) == select_where(
                        v.take(i + 1),
                        in_space(group_key(groups@[j])),
                    ) && groups@[j].2@.len() > 0 by {
                    lemma_select_step(v, i as int, in_space(group_key(groups@[j])));
                    if j == p {
                        assert(decl_views(groups@[j].2@) =~= Seq::<DeclarationView>::empty().push(v[i as int]));
                    } else if j < p {
                        assert(groups@[j] == old_groups[j]);
                    } else {
                        assert(groups@[j] == old_groups[j - 1]);
                    }
                }
                assert forall|t: int| 0 <= t < i + 1 implies exists|j: int|
                    0 <= j < groups@.len() && #[trigger] group_key(groups@[j]) == space_key(#[trigger] v[t]) by {
                    if t == i {
                        assert(group_key(groups@[p as int]) == space_key(v[t]));
                    } else {
                        let w = choose|w: int| 0 <= w < old_groups.len() && #[trigger] group_key(old_groups[w]) == space_key(v[t]);
                        if w < p {
                            assert(group_key(groups@[w]) == space_key(v[t]));
                        } else {
                            assert(group_key(groups@[w + 1]) == space_key(v[t]));
                        }
                    }
                }
            }
        }
        i = i + 1;
    }
    assert(v.take(declarations@.len() as int) =~= v);
    assert forall|t: int| 0 <= t < declarations@.len() implies exists|j: int|
        0 <= j < groups@.len() && #[trigger] group_key(groups@[j]) == space_key(
            #[trigger] declarations@[t]@,
        ) by {
        assert(v[t] == declarations@[t]@);
    }
    proof {
        let ks = groups@.map_values(|g: DeclarationSpace| group_key(g));
        assert(rising(ks, space_order()));
        assert forall|k: SpaceKey| #[trigger] ks.contains(k) <==> exists|t: int|
            0 <= t < v.len() && space_key(v[t]) == k by {
            if ks.contains(k) {
                let j = choose|j: int| 0 <= j < ks.len() && ks[j] == k;
                assert(groups@[j].2@.len() > 0);
                let g = decl_views(groups@[j].2@);
                assert(g[0] == groups@[j].2@[0]@);
                lemma_select_members(v, in_space(k));
                assert(select_where(v, in_space(k)).contains(g[0]));
            }
            if exists|t: int| 0 <= t < v.len() && space_key(v[t]) == k {
                let t = choose|t: int| 0 <= t < v.len() && space_key(v[t]) == k;
                let j = choose|j: int| 0 <= j < groups@.len() && #[trigger] group_key(groups@[j]) == space_key(#[trigger] v[t]);
                assert(ks[j] == k);
            }
        }
        lemma_space_order_facts();
        lemma_rising_unique(ks, spec_space_keys(v), space_order());
        assert forall|a: int, b: int| 0 <= a < b < ks.len() implies ks[a] != ks[b] by {
            lemma_space_key_lt_irreflexive(ks[a]);
        }
        assert forall|t: int| 0 <= t < v.len() implies ks.contains(space_key(#[trigger] v[t])) by {
            let j = choose|j: int| 0 <= j < groups@.len() && #[trigger] group_key(groups@[j]) == space_key(#[trigger] v[t]);
            assert(ks[j] == space_key(v[t]));
        }
        crate::declaration_laws::lemma_spaces_are_a_permutation(v, ks);
        assert(space_group_views(groups@) =~= crate::declaration_laws::space_groups(v, ks));
    }
    groups
}

/// The declarations of each group, by their views.
pub open spec fn space_group_views(gs: Seq<DeclarationSpace>) -> Seq<Seq<DeclarationView>> {
    gs.map_values(|g: DeclarationSpace| decl_views(g.2@))
}

/// Every member of a selection satisfies the predicate and comes from the sequence.
proof fn lemma_select_members(s: Seq<DeclarationView>, p: spec_fn(DeclarationView) -> bool)
    ensures
        forall|x: DeclarationView| #[trigger] select_where(s, p).contains(x) ==> p(x) && exists|t: int| 0 <= t < s.len() && s[t] == x,
    decreases s.len(),
{
    if s.len() > 0 {
        lemma_select_members(s.drop_last(), p);
        assert forall|x: DeclarationView| #[trigger] select_where(s, p).contains(x) implies p(x) && exists|t: int| 0 <= t < s.len() && s[t] == x by {
            let r = select_where(s.drop_last(), p);
            if p(s.last()) && x == s.last() {
                assert(s[s.len() - 1] == x);
            } else {
                let k = choose|k: int| 0 <= k < select_where(s, p).len() && select_where(s, p)[k] == x;
                assert(r[k] == x);
                assert(r.contains(x));
                let t = choose|t: int| 0 <= t < s.drop_last().len() && s.drop_last()[t] == x;
                assert(s[t] == x);
            }
        }
    }
}

/// Declarations with the given method kind.
pub open spec fn has_method_kind(k: MethodKind) -> spec_fn(DeclarationView) -> bool {
    |d: DeclarationView| d.method_kind == Some(k)
}

/// Whether declaring one name by all of `group` is an error: more than one declaration, and
/// neither overloads with exactly one implementation nor a property getter and setter pair.
pub open spec fn spec_is_invalid_duplicate_group(group: Seq<DeclarationView>) -> bool {
    let overloads = count_where(group, has_kind(DeclarationKind::Overload));
    let functions = count_where(group, has_kind(DeclarationKind::Function));
    let overload_group = overloads >= 1 && functions == 1 && overloads + functions == group.len();
    let property_pair = group.len() == 2 && all_where(group, has_kind(DeclarationKind::Function))
        && any_where(group, has_method_kind(MethodKind::Property)) && any_where(
        group,
        has_method_kind(MethodKind::PropertySetter),
    );
    group.len() > 1 && !overload_group && !property_pair
}

/// Whether declaring one name by all of `declarations` is an error.
pub fn is_invalid_duplicate_group(declarations: &Vec<Declaration>) -> (res: bool)
    ensures
        res == spec_is_invalid_duplicate_group(decl_views(declarations@)),
{
    let ghost v = decl_views(declarations@);
    let n = declarations.len();
    if n <= 1 {
        return false;
    }
    let mut overloads: usize = 0;
    let mut functions: usize = 0;
    let mut all_functions = true;
    let mut any_property = false;
    let mut any_setter = false;
    let mut i: usize = 0;
    while i < n
        invariant
            v == decl_views(declarations@),
            v.len() == n,
            n == declarations@.len(),
            i <= n,
            overloads == count_where(v.take(i as int), has_kind(DeclarationKind::Overload)),
            functions == count_where(v.take(i as int), has_kind(DeclarationKind::Function)),
            overloads <= i,
            functions <= i,
            all_functions == all_where(v.take(i as int), has_kind(DeclarationKind::Function)),
            any_property == any_where(v.take(i as int), has_method_kind(MethodKind::Property)),
            any_setter == any_where(v.take(i as int), has_method_kind(MethodKind::PropertySetter)),
        decreases n - i,
    {
        proof {
            lemma_select_step(v, i as int, has_kind(DeclarationKind::Overload));
            lemma_select_step(v, i as int, has_kind(DeclarationKind::Function));
        }
        let ghost t = v.take(i as int);
        let ghost t1 = v.take(i + 1);
        let d = &declarations[i];
        if d.kind == DeclarationKind::Overload {
            overloads = overloads + 1;
        }
        if d.kind == DeclarationKind::Function {
            functions = functions + 1;
        } else {
            all_functions = false;
        }
        if d.method_kind == Some(MethodKind::Property) {
            any_property = true;
        }
        if d.method_kind == Some(MethodKind::PropertySetter) {
            any_setter = true;
        }
        proof {
            assert(t1[i as int] == v[i as int]);
            assert forall|p: spec_fn(DeclarationView) -> bool| all_where(t1, p) == (all_where(t, p) && p(v[i as int])) by {
                if all_where(t, p) && p(v[i as int]) {
                    assert forall|j: int| 0 <= j < t1.len() implies #[trigger] p(t1[j]) by {
                        if j < i {
                            assert(t1[j] == t[j]);
                        }
                    }
                }
                if all_where(t1, p) {
                    assert(p(t1[i as int]));
                    assert forall|j: int| 0 <= j < t.len() implies #[trigger] p(t[j]) by {
                        assert(t1[j] == t[j]);
                        assert(p(t1[j]));
                    }
                }
            }
            assert forall|p: spec_fn(DeclarationView) -> bool| any_where(t1, p) == (any_where(t, p) || p(v[i as int])) by {
                if any_where(t, p) {
                    let j = choose|j: int| 0 <= j < t.len() && #[trigger] p(t[j]);
                    assert(t1[j] == t[j]);
                }
                if p(v[i as int]) {
                    assert(p(t1[i as int]));
                }
                if any_where(t1, p) {
                    let j = choose|j: int| 0 <= j < t1.len() && #[trigger] p(t1[j]);
                    if j < i {
                        assert(t1[j] == t[j]);
                    }
                }
            }
        }
        i = i + 1;
    }
    assert(v.take(n as int) =~= v);
    if overloads >= 1 && functions == 1 && overloads == n - 1 {
        return false;
    }
    if n == 2 && all_functions && any_property && any_setter {
        return false;
    }
    true
}

/// The declarations of `declarations` named `name`, in order.
pub fn declarations_named(declarations: &Vec<Declaration>, name: &str) -> (res: Vec<Declaration>)
    ensures
        decl_views(res@) == select_where(decl_views(declarations@), has_name(name@)),
{
    let ghost v = decl_views(declarations@);
    let mut out: Vec<Declaration> = Vec::new();
    let mut i: usize = 0;
    while i < declarations.len()
        invariant
            v == decl_views(declarations@),
            v.len() == declarations@.len(),
            i <= declarations@.len(),
            decl_views(out@) == select_where(v.take(i as int), has_name(name@)),
        decreases declarations@.len() - i,
    {
        proof {
            lemma_select_step(v, i as int, has_name(name@));
        }
        let ghost before = out@;
        if str_eq(&declarations[i].name, name) {
            out.push(declarations[i].duplicate());
            assert(decl_views(out@) =~= decl_views(before).push(v[i as int]));
        }
        i = i + 1;
    }
    assert(v.take(declarations@.len() as int) =~= v);
    out
}

/// Whether `name` is declared in `decls` and its declarations form an invalid group.
pub open spec fn spec_invalid_name(decls: Seq<DeclarationView>, name: Seq<char>) -> bool {
    (exists|i: int| 0 <= i < decls.len() && decls[i].name == name) && spec_is_invalid_duplicate_group(
        select_where(decls, has_name(name)),
    )
}

/// The order of names, as a function value.
pub open spec fn name_order() -> spec_fn(Seq<char>, Seq<char>) -> bool {
    |a: Seq<char>, b: Seq<char>| chars_lt(a, b)
}

/// The names of `decls` whose declarations form an invalid group, in order.
pub open spec fn spec_invalid_duplicates(decls: Seq<DeclarationView>) -> Seq<Seq<char>> {
    choose|ns: Seq<Seq<char>>|
        rising(ns, name_order()) && forall|n: Seq<char>| #[trigger] ns.contains(n) <==> spec_invalid_name(decls, n)
}

pub proof fn lemma_name_order_facts()
    ensures
        forall|x: Seq<char>| !#[trigger] name_order()(x, x),
        forall|x: Seq<char>, y: Seq<char>, z: Seq<char>| #[trigger] name_order()(x, y) && #[trigger] name_order()(y, z) ==> name_order()(x, z),
{
    assert forall|x: Seq<char>| !#[trigger] name_order()(x, x) by {
        lemma_chars_lt_irreflexive(x);
    }
    assert forall|x: Seq<char>, y: Seq<char>, z: Seq<char>| #[trigger] name_order()(x, y) && #[trigger] name_order()(y, z) implies name_order()(x, z) by {
        lemma_chars_lt_transitive(x, y, z);
    }
}

/// The strings taken by their characters.
pub open spec fn string_views(s: Seq<String>) -> Seq<Seq<char>> {
    s.map_values(|x: String| x@)
}

/// Adds a name to a list of names kept in increasing order without repeats; whether it was
/// not there before.
pub fn insert_sorted_name(names: &mut Vec<String>, name: &str) -> (res: bool)
    requires
        rising(string_views(old(names)@), name_order()),
    ensures
        rising(string_views(final(names)@), name_order()),
        forall|x: Seq<char>| #[trigger] string_views(final(names)@).contains(x) <==> (string_views(
            old(names)@,
        ).contains(x) || x == name@),
        res == !string_views(old(names)@).contains(name@),
{
    let ghost ns = string_views(names@);
    let mut p: usize = 0;
    while p < names.len() && str_lt(&names[p], name)
        invariant
            p <= names@.len(),
            ns == string_views(names@),
            forall|j: int| 0 <= j < p ==> chars_lt(#[trigger] names@[j]@, name@),
        decreases names@.len() - p,
    {
        p = p + 1;
    }
    if p < names.len() && str_eq(&names[p], name) {
        assert(ns[p as int] == name@);
        assert(ns.contains(name@));
        return false;
    }
    let ghost old_names = names@;
    proof {
        if p < names@.len() {
            lemma_chars_lt_total(names@[p as int]@, name@);
        }
        lemma_chars_lt_irreflexive(name@);
        assert(!ns.contains(name@)) by {
            if ns.contains(name@) {
                let k = choose|k: int| 0 <= k < ns.len() && ns[k] == name@;
                if k < p {
                    assert(chars_lt(names@[k]@, name@));
                } else if k > p {
                    assert(name_order()(ns[p as int], ns[k]));
                    lemma_chars_lt_transitive(name@, ns[p as int], ns[k]);
                }
            }
        }
    }
    names.insert(p, owned(name));
    proof {
        let ns2 = string_views(names@);
        assert(ns2 =~= ns.insert(p as int, name@));
        assert forall|j: int, m: int| 0 <= j < m < ns2.len() implies #[trigger] name_order()(ns2[j], ns2[m]) by {
            if m < p {
                assert(name_order()(ns[j], ns[m]));
            } else if m == p {
            } else if j < p {
                assert(ns2[m] == ns[m - 1]);
                assert(ns[m - 1] == old_names[m - 1]@);
                if m - 1 > p {
                    assert(name_order()(ns[p as int], ns[m - 1]));
                    lemma_chars_lt_transitive(name@, ns[p as int], ns[m - 1]);
                }
                lemma_chars_lt_transitive(ns[j], name@, ns[m - 1]);
            } else if j == p {
                if m - 1 > p {
                    assert(name_order()(ns[p as int], ns[m - 1]));
                    lemma_chars_lt_transitive(name@, ns[p as int], ns[m - 1]);
                }
            } else {
                assert(name_order()(ns[j - 1], ns[m - 1]));
            }
        }
        assert(ns2[p as int] == name@);
        assert forall|x: Seq<char>| #[trigger] ns2.contains(x) <==> (ns.contains(x) || x == name@) by {
            if ns.contains(x) {
                let k = choose|k: int| 0 <= k < ns.len() && ns[k] == x;
                if k < p {
                    assert(ns2[k] == x);
                } else {
                    assert(ns2[k + 1] == x);
                }
            }
            if ns2.contains(x) {
                let k = choose|k: int| 0 <= k < ns2.len() && ns2[k] == x;
                if k < p {
                    assert(ns[k] == x);
                } else if k > p {
                    assert(ns[k - 1] == x);
                }
            }
        }
    }
    true
}

/// The names declared more than once in `declarations` in a way that is an error, in order.
pub fn invalid_duplicates(declarations: &Vec<Declaration>) -> (res: Vec<String>)
    ensures
        string_views(res@) == spec_invalid_duplicates(decl_views(declarations@)),
        rising(string_views(res@), name_order()),
        forall|n: Seq<char>| #[trigger] string_views(res@).contains(n) <==> spec_invalid_name(decl_views(declarations@), n),
        forall|n: Seq<char>|
            #[trigger] string_views(res@).contains(n) ==> exists|i: int, j: int|
                0 <= i < j < declarations@.len() && #[trigger] declarations@[i].name@ == n && #[trigger] declarations@[j].name@
                    == n,
        (forall|i: int, j: int|
            0 <= i < j < declarations@.len() ==> #[trigger] declarations@[i].name@ != #[trigger] declarations@[j].name@)
            ==> res@.len() == 0,
{
    let ghost v = decl_views(declarations@);
    let mut names: Vec<String> = Vec::new();
    let mut i: usize = 0;
    while i < declarations.len()
        invariant
            v == decl_views(declarations@),
            v.len() == declarations@.len(),
            i <= declarations@.len(),
            rising(string_views(names@), name_order()),
            forall|j: int| 0 <= j < names@.len() ==> spec_invalid_name(v, #[trigger] names@[j]@),
            forall|t: int|
                0 <= t < i && spec_invalid_name(v, #[trigger] v[t].name) ==> string_views(names@).contains(v[t].name),
        decreases declarations@.len() - i,
    {
        let name = &declarations[i].name;
        let group = declarations_named(declarations, name);
        let ghost ns = string_views(names@);
        if is_invalid_duplicate_group(&group) {
            assert(spec_invalid_name(v, name@)) by {
                assert(v[i as int].name == name@);
            }
            let ghost before = names@;
            insert_sorted_name(&mut names, name);
            proof {
                assert forall|j: int| 0 <= j < names@.len() implies spec_invalid_name(v, #[trigger] names@[j]@) by {
                    let x = names@[j]@;
                    assert(string_views(names@)[j] == x);
                    assert(string_views(names@).contains(x));
                    if x != name@ {
                        let k = choose|k: int| 0 <= k < ns.len() && ns[k] == x;
                        assert(before[k]@ == x);
                    }
                }
            }
        }
        assert(forall|x: Seq<char>| ns.contains(x) ==> #[trigger] string_views(names@).contains(x));
        assert(spec_invalid_name(v, name@) ==> string_views(names@).contains(name@)) by {
            assert(spec_is_invalid_duplicate_group(decl_views(group@)) == spec_invalid_name(v, name@)) by {
                assert(v[i as int].name == name@);
            }
        }
        proof {
            let ns2 = string_views(names@);
            assert forall|t: int|
                0 <= t < i + 1 && spec_invalid_name(v, #[trigger] v[t].name) implies ns2.contains(v[t].name) by {
                if t == i {
                    assert(v[t].name == name@);
                } else {
                    assert(ns.contains(v[t].name));
                }
            }
        }
        i = i + 1;
    }
    proof {
        let ns = string_views(names@);
        assert forall|n: Seq<char>| #[trigger] ns.contains(n) <==> spec_invalid_name(v, n) by {
            if ns.contains(n) {
                let j = choose|j: int| 0 <= j < ns.len() && ns[j] == n;
                assert(spec_invalid_name(v, names@[j]@));
            }
            if spec_invalid_name(v, n) {
                let t = choose|t: int| 0 <= t < v.len() && v[t].name == n;
                assert(spec_invalid_name(v, v[t].name));
            }
        }
        lemma_name_order_facts();
        lemma_rising_unique(ns, spec_invalid_duplicates(v), name_order());
        assert forall|n: Seq<char>| #[trigger] ns.contains(n) implies exists|i: int, j: int|
            0 <= i < j < v.len() && #[trigger] v[i].name == n && #[trigger] v[j].name == n by {
            crate::declaration_laws::law_invalid_duplicate_names(v, n);
        }
        if forall|i: int, j: int| 0 <= i < j < v.len() ==> #[trigger] v[i].name != #[trigger] v[j].name {
            if ns.len() > 0 {
                crate::declaration_laws::law_invalid_duplicate_names(v, ns[0]);
                assert(ns.contains(ns[0]));
            }
        }
    }
    names
}

/// The diagnostics taken by their views.
pub open spec fn diag_views(s: Seq<Diagnostic>) -> Seq<DiagnosticView> {
    s.map_values(|d: Diagnostic| d@)
}

/// The `ClassVar` placement errors of the members of one declaration space.
pub open spec fn spec_classvar_diagnostics(
    source_path: Seq<char>,
    owner_name: Option<Seq<char>>,
    members: Seq<DeclarationView>,
) -> Seq<DiagnosticView>
    decreases members.len(),
{
    if members.len() == 0 {
        Seq::empty()
    } else {
        let r = spec_classvar_diagnostics(source_path, owner_name, members.drop_last());
        let m = members.last();
        if m.is_class_var && owner_name is None {
            r.push(
                spec_diagnostic(
                    Severity::Error,
                    "TPY4001"@,
                    spec_classvar_message(source_path, m.name),
                ),
            )
        } else {
            r
        }
    }
}

/// The diagnostic for the name `duplicate` declared more than once in one space, if any: a
/// `Final` reassignment first, then a malformed overload group; overload-only groups outside
/// TypePython source are permitted, and anything else is a duplicate declaration.
pub open spec fn spec_duplicate_diagnostic(
    source_path: Seq<char>,
    module_kind: SourceKind,
    owner_name: Option<Seq<char>>,
    owner_kind: Option<DeclarationOwnerKind>,
    duplicate: Seq<char>,
    members: Seq<DeclarationView>,
) -> Option<DiagnosticView> {
    if spec_reassigns_final(members, duplicate) {
        Some(
            spec_diagnostic(
                Severity::Error,
                "TPY4006"@,
                spec_final_message(source_path, owner_name, duplicate),
            ),
        )
    } else {
        match spec_overload_shape_diagnostic(
            source_path,
            module_kind,
            owner_name,
            owner_kind,
            duplicate,
            members,
        ) {
            Some(d) => Some(d),
            None => if spec_permitted_external_overload_group(module_kind, duplicate, members) {
                None
            } else {
                Some(
                    spec_diagnostic(
                        Severity::Error,
                        "TPY4004"@,
                        spec_duplicate_message(source_path, owner_name, duplicate),
                    ),
                )
            },
        }
    }
}

/// The diagnostics for the names `names`, in order.
pub open spec fn spec_duplicates_diagnostics(
    source_path: Seq<char>,
    module_kind: SourceKind,
    owner_name: Option<Seq<char>>,
    owner_kind: Option<DeclarationOwnerKind>,
    names: Seq<Seq<char>>,
    members: Seq<DeclarationView>,
) -> Seq<DiagnosticView>
    decreases names.len(),
{
    if names.len() == 0 {
        Seq::empty()
    } else {
        let r = spec_duplicates_diagnostics(
            source_path,
            module_kind,
            owner_name,
            owner_kind,
            names.drop_last(),
            members,
        );
        match spec_duplicate_diagnostic(
            source_path,
            module_kind,
            owner_name,
            owner_kind,
            names.last(),
            members,
        ) {
            Some(d) => r.push(d),
            None => r,
        }
    }
}

/// The diagnostics of one declaration space: `ClassVar` placement, then its invalid duplicates.
pub open spec fn spec_space_diagnostics(
    source_path: Seq<char>,
    module_kind: SourceKind,
    key: SpaceKey,
    members: Seq<DeclarationView>,
) -> Seq<DiagnosticView> {
    spec_classvar_diagnostics(source_path, key.0, members) + spec_duplicates_diagnostics(
        source_path,
        module_kind,
        key.0,
        key.1,
        spec_invalid_duplicates(members),
        members,
    )
}

/// The diagnostics of the declaration spaces with the keys `keys`, in order.
pub open spec fn spec_spaces_diagnostics(
    source_path: Seq<char>,
    module_kind: SourceKind,
    decls: Seq<DeclarationView>,
    keys: Seq<SpaceKey>,
) -> Seq<DiagnosticView>
    decreases keys.len(),
{
    if keys.len() == 0 {
        Seq::empty()
    } else {
        spec_spaces_diagnostics(source_path, module_kind, decls, keys.drop_last())
            + spec_space_diagnostics(
            source_path,
            module_kind,
            keys.last(),
            select_where(decls, in_space(keys.last())),
        )
    }
}

/// The duplicate-declaration diagnostics of a module, space by space.
pub open spec fn spec_duplicate_diagnostics(
    source_path: Seq<char>,
    module_kind: SourceKind,
    decls: Seq<DeclarationView>,
) -> Seq<DiagnosticView> {
    spec_spaces_diagnostics(source_path, module_kind, decls, spec_space_keys(decls))
}

/// The diagnostics on the declaration spaces of a module at `source_path`: the property setter
/// errors, then for each space its `ClassVar` placement errors and the errors for names declared
/// more than once. `renderings` renders the property types compared.
pub fn duplicate_diagnostics(
    source_path: &str,
    module_kind: SourceKind,
    declarations: &Vec<Declaration>,
    renderings: &Vec<(String, String)>,
) -> (res: Vec<Diagnostic>)
    ensures
        diag_views(res@) == crate::property_setters::spec_property_setter_diagnostics(
            source_path@,
            decl_views(declarations@),
            renderings@,
        ) + spec_duplicate_diagnostics(source_path@, module_kind, decl_views(declarations@)),
{
    let setters = crate::property_setters::property_setter_compatibility_diagnostics(source_path, declarations, renderings);
    space_diagnostics_after(source_path, module_kind, declarations, setters)
}

/// The diagnostics already found, then for each declaration space its `ClassVar` placement
/// errors and the errors for names declared more than once.
fn space_diagnostics_after(
    source_path: &str,
    module_kind: SourceKind,
    declarations: &Vec<Declaration>,
    property_setter_diagnostics: Vec<Diagnostic>,
) -> (res: Vec<Diagnostic>)
    ensures
        diag_views(res@) == diag_views(property_setter_diagnostics@) + spec_duplicate_diagnostics(
            source_path@,
            module_kind,
            decl_views(declarations@),
        ),
{
    let ghost v = decl_views(declarations@);
    let ghost prefix = diag_views(property_setter_diagnostics@);
    let mut diagnostics = property_setter_diagnostics;
    let spaces = declaration_spaces(declarations);
    let ghost keys = spec_space_keys(v);
    assert(keys.take(0) =~= Seq::<SpaceKey>::empty());
    assert(prefix + Seq::<DiagnosticView>::empty() =~= prefix);
    let mut s: usize = 0;
    while s < spaces.len()
        invariant
            v == decl_views(declarations@),
            keys == spec_space_keys(v),
            spaces@.len() == keys.len(),
            forall|j: int| 0 <= j < spaces@.len() ==> group_key(#[trigger] spaces@[j]) == keys[j],
            forall|j: int|
                0 <= j < spaces@.len() ==> decl_views(#[trigger] spaces@[j].2@) == select_where(
                    v,
                    in_space(group_key(spaces@[j])),
                ),
            s <= spaces@.len(),
            diag_views(diagnostics@) == prefix + spec_spaces_diagnostics(
                source_path@,
                module_kind,
                v,
                keys.take(s as int),
            ),
        decreases spaces@.len() - s,
    {
        let owner_name = &spaces[s].0;
        let owner_kind = spaces[s].1;
        let members = &spaces[s].2;
        let ghost key = keys[s as int];
        let ghost mv = decl_views(members@);
        assert(key == (opt_view(*owner_name), owner_kind));
        assert(mv == select_where(v, in_space(key)));
        let ghost base = diag_views(diagnostics@);
        assert(mv.take(0) =~= Seq::<DeclarationView>::empty());
        assert(base + Seq::<DiagnosticView>::empty() =~= base);
        let mut c: usize = 0;
        while c < members.len()
            invariant
                mv == decl_views(members@),
                mv.len() == members@.len(),
                key == (opt_view(*owner_name), owner_kind),
                c <= members@.len(),
                diag_views(diagnostics@) == base + spec_classvar_diagnostics(
                    source_path@,
                    key.0,
                    mv.take(c as int),
                ),
            decreases members@.len() - c,
        {
            proof {
                lemma_take_step(mv, c as int);
            }
            let ghost before = diag_views(diagnostics@);
            match classvar_placement_diagnostic(source_path, owner_name, &members[c]) {
                Some(d) => {
                    diagnostics.push(d);
                    assert(diag_views(diagnostics@) =~= before.push(d@));
                },
                None => {},
            }
            c = c + 1;
        }
        assert(mv.take(members@.len() as int) =~= mv);
        let names = invalid_duplicates(members);
        let ghost ns = string_views(names@);
        let ghost base2 = diag_views(diagnostics@);
        assert(ns.take(0) =~= Seq::<Seq<char>>::empty());
        assert(base2 + Seq::<DiagnosticView>::empty() =~= base2);
        let mut q: usize = 0;
        while q < names.len()
            invariant
                mv == decl_views(members@),
                key == (opt_view(*owner_name), owner_kind),
                ns == string_views(names@),
                ns.len() == names@.len(),
                q <= names@.len(),
                diag_views(diagnostics@) == base2 + spec_duplicates_diagnostics(
                    source_path@,
                    module_kind,
                    key.0,
                    key.1,
                    ns.take(q as int),
                    mv,
                ),
            decreases names@.len() - q,
        {
            let ghost before = diag_views(diagnostics@);
            let duplicate = &names[q];
            assert(ns.take(q + 1).drop_last() =~= ns.take(q as int));
            assert(ns.take(q + 1).last() == duplicate@);
            match final_reassignment_diagnostic(source_path, owner_name, duplicate, members) {
                Some(d) => {
                    diagnostics.push(d);
                    assert(diag_views(diagnostics@) =~= before.push(d@));
                },
                None => {
                    match overload_shape_diagnostic(
                        source_path,
                        module_kind,
                        owner_name,
                        owner_kind,
                        duplicate,
                        members,
                    ) {
                        Some(d) => {
                            diagnostics.push(d);
                            assert(diag_views(diagnostics@) =~= before.push(d@));
                        },
                        None => {
                            if !is_permitted_external_overload_group(module_kind, duplicate, members) {
                                let d = Diagnostic::error(
                                    "TPY4004",
                                    duplicate_message(source_path, owner_name, duplicate),
                                );
                                diagnostics.push(d);
                                assert(diag_views(diagnostics@) =~= before.push(d@));
                            }
                        },
                    }
                },
            }
            q = q + 1;
        }
        assert(ns.take(names@.len() as int) =~= ns);
        proof {
            assert(keys.take(s + 1).drop_last() =~= keys.take(s as int));
            assert(keys.take(s + 1).last() == key);
            assert(diag_views(diagnostics@) =~= prefix + spec_spaces_diagnostics(
                source_path@,
                module_kind,
                v,
                keys.take(s + 1),
            ));
        }
        s = s + 1;
    }
    assert(keys.take(spaces@.len() as int) =~= keys);
    diagnostics
}

} // verus!
