//! Small decisions on annotation text, member names and decorator names.
use vstd::prelude::*;
use crate::diagnostics::{Diagnostic, DiagnosticLevel, DiagnosticView, Severity, spec_diagnostic};
use crate::declarations::Declaration;
use crate::text::{owned, str_eq, str_trim, str_starts_with, str_ends_with, substring, trim, starts_with, ends_with};

verus! {

/// Whether the trimmed annotation is `Final` or `typing.Final`, bare or subscripted.
pub open spec fn spec_is_final_annotation_text(annotation: Seq<char>) -> bool {
    let t = trim(annotation);
    t == "Final"@ || starts_with(t, "Final["@) || t == "typing.Final"@ || starts_with(
        t,
        "typing.Final["@,
    )
}

/// Whether an annotation marks a binding `Final`.
pub fn is_final_annotation_text(annotation: &str) -> (res: bool)
    ensures
        res == spec_is_final_annotation_text(annotation@),
{
    let t = str_trim(annotation);
    str_eq(&t, "Final") || str_starts_with(&t, "Final[") || str_eq(&t, "typing.Final")
        || str_starts_with(&t, "typing.Final[")
}

/// Whether a base class names `TypedDict`.
pub open spec fn spec_is_typed_dict_base_name(base: Seq<char>) -> bool {
    let t = trim(base);
    t == "TypedDict"@ || t == "typing.TypedDict"@ || t == "typing_extensions.TypedDict"@
}

/// Whether a base class names `TypedDict`, from `typing`, `typing_extensions` or bare.
pub fn is_typed_dict_base_name(base: &str) -> (res: bool)
    ensures
        res == spec_is_typed_dict_base_name(base@),
{
    let t = str_trim(base);
    str_eq(&t, "TypedDict") || str_eq(&t, "typing.TypedDict") || str_eq(
        &t,
        "typing_extensions.TypedDict",
    )
}

/// The name before a suffix, trimmed, when the annotation ends with the suffix and the name is
/// not empty.
pub open spec fn spec_name_before_suffix(annotation: Seq<char>, suffix: Seq<char>) -> Option<Seq<char>> {
    if ends_with(annotation, suffix) {
        let name = trim(annotation.take(annotation.len() - suffix.len()));
        if name.len() > 0 {
            Some(name)
        } else {
            None
        }
    } else {
        None
    }
}

fn name_before_suffix(annotation: &str, suffix: &str) -> (res: Option<String>)
    ensures
        match res {
            Some(n) => spec_name_before_suffix(annotation@, suffix@) == Some(n@),
            None => spec_name_before_suffix(annotation@, suffix@) is None,
        },
{
    if !str_ends_with(annotation, suffix) {
        return None;
    }
    let n = annotation.unicode_len();
    let m = suffix.unicode_len();
    let head = substring(annotation, 0, n - m);
    assert(head@ =~= annotation@.take(n - m));
    let name = str_trim(&head);
    if name.unicode_len() == 0 {
        None
    } else {
        Some(name)
    }
}

/// The parameter specification named by an annotation `P.args`.
pub fn extract_param_spec_args_name(annotation: &str) -> (res: Option<String>)
    ensures
        match res {
            Some(n) => spec_name_before_suffix(annotation@, ".args"@) == Some(n@),
            None => spec_name_before_suffix(annotation@, ".args"@) is None,
        },
{
    name_before_suffix(annotation, ".args")
}

/// The parameter specification named by an annotation `P.kwargs`.
pub fn extract_param_spec_kwargs_name(annotation: &str) -> (res: Option<String>)
    ensures
        match res {
            Some(n) => spec_name_before_suffix(annotation@, ".kwargs"@) == Some(n@),
            None => spec_name_before_suffix(annotation@, ".kwargs"@) is None,
        },
{
    name_before_suffix(annotation, ".kwargs")
}

/// The members every type has: the surface of `object`.
pub open spec fn spec_standard_object_member(m: Seq<char>) -> bool {
    ||| m == "__annotations__"@
    ||| m == "__class__"@
    ||| m == "__delattr__"@
    ||| m == "__dict__"@
    ||| m == "__dir__"@
    ||| m == "__doc__"@
    ||| m == "__eq__"@
    ||| m == "__format__"@
    ||| m == "__getattribute__"@
    ||| m == "__getstate__"@
    ||| m == "__hash__"@
    ||| m == "__init__"@
    ||| m == "__init_subclass__"@
    ||| m == "__module__"@
    ||| m == "__ne__"@
    ||| m == "__new__"@
    ||| m == "__reduce__"@
    ||| m == "__reduce_ex__"@
    ||| m == "__repr__"@
    ||| m == "__setattr__"@
    ||| m == "__sizeof__"@
    ||| m == "__str__"@
    ||| m == "__subclasshook__"@
}

/// Whether `member` is a member of every type, the surface of `object`.
pub fn standard_object_member(member: &str) -> (res: bool)
    ensures
        res == spec_standard_object_member(member@),
{
    str_eq(member, "__annotations__") || str_eq(member, "__class__") || str_eq(member, "__delattr__")
        || str_eq(member, "__dict__") || str_eq(member, "__dir__") || str_eq(member, "__doc__")
        || str_eq(member, "__eq__") || str_eq(member, "__format__") || str_eq(
        member,
        "__getattribute__",
    ) || str_eq(member, "__getstate__") || str_eq(member, "__hash__") || str_eq(member, "__init__")
        || str_eq(member, "__init_subclass__") || str_eq(member, "__module__") || str_eq(
        member,
        "__ne__",
    ) || str_eq(member, "__new__") || str_eq(member, "__reduce__") || str_eq(member, "__reduce_ex__")
        || str_eq(member, "__repr__") || str_eq(member, "__setattr__") || str_eq(member, "__sizeof__")
        || str_eq(member, "__str__") || str_eq(member, "__subclasshook__")
}

/// The decorators that a validation framework owns on model methods.
#[derive(Debug, Clone, Copy, PartialEq, Eq, Structural)]
pub enum FrameworkOwnedDecoratorKind {
    ComputedField,
    FieldValidator,
    ModelValidator,
    FieldSerializer,
    ModelSerializer,
}

/// The decorator name of each kind.
pub open spec fn spec_framework_label(k: FrameworkOwnedDecoratorKind) -> Seq<char> {
    match k {
        FrameworkOwnedDecoratorKind::ComputedField => "computed_field"@,
        FrameworkOwnedDecoratorKind::FieldValidator => "field_validator"@,
        FrameworkOwnedDecoratorKind::ModelValidator => "model_validator"@,
        FrameworkOwnedDecoratorKind::FieldSerializer => "field_serializer"@,
        FrameworkOwnedDecoratorKind::ModelSerializer => "model_serializer"@,
    }
}

impl FrameworkOwnedDecoratorKind {
    /// The decorator name of this kind.
    pub fn label(self) -> (res: &'static str)
        ensures
            res@ == spec_framework_label(self),
    {
        match self {
            FrameworkOwnedDecoratorKind::ComputedField => "computed_field",
            FrameworkOwnedDecoratorKind::FieldValidator => "field_validator",
            FrameworkOwnedDecoratorKind::ModelValidator => "model_validator",
            FrameworkOwnedDecoratorKind::FieldSerializer => "field_serializer",
            FrameworkOwnedDecoratorKind::ModelSerializer => "model_serializer",
        }
    }
}

/// A decorator name names `suffix` when it is `suffix` or ends with `.` and `suffix`.
pub open spec fn names_decorator(name: Seq<char>, suffix: Seq<char>) -> bool {
    name == suffix || ends_with(name, "."@ + suffix)
}

/// The framework decorator a name refers to, trying the kinds in their declared order.
pub open spec fn spec_framework_owned_decorator_kind(name: Seq<char>) -> Option<FrameworkOwnedDecoratorKind> {
    if names_decorator(name, "computed_field"@) {
        Some(FrameworkOwnedDecoratorKind::ComputedField)
    } else if names_decorator(name, "field_validator"@) {
        Some(FrameworkOwnedDecoratorKind::FieldValidator)
    } else if names_decorator(name, "model_validator"@) {
        Some(FrameworkOwnedDecoratorKind::ModelValidator)
    } else if names_decorator(name, "field_serializer"@) {
        Some(FrameworkOwnedDecoratorKind::FieldSerializer)
    } else if names_decorator(name, "model_serializer"@) {
        Some(FrameworkOwnedDecoratorKind::ModelSerializer)
    } else {
        None
    }
}

fn names_decorator_exec(name: &str, suffix: &str) -> (res: bool)
    ensures
        res == names_decorator(name@, suffix@),
{
    if str_eq(name, suffix) {
        return true;
    }
    let mut dotted = owned(".");
    dotted.append(suffix);
    str_ends_with(name, &dotted)
}

/// The framework decorator a decorator name refers to, if any.
pub fn framework_owned_decorator_kind(name: &str) -> (res: Option<FrameworkOwnedDecoratorKind>)
    ensures
        res == spec_framework_owned_decorator_kind(name@),
{
    if names_decorator_exec(name, "computed_field") {
        Some(FrameworkOwnedDecoratorKind::ComputedField)
    } else if names_decorator_exec(name, "field_validator") {
        Some(FrameworkOwnedDecoratorKind::FieldValidator)
    } else if names_decorator_exec(name, "model_validator") {
        Some(FrameworkOwnedDecoratorKind::ModelValidator)
    } else if names_decorator_exec(name, "field_serializer") {
        Some(FrameworkOwnedDecoratorKind::FieldSerializer)
    } else if names_decorator_exec(name, "model_serializer") {
        Some(FrameworkOwnedDecoratorKind::ModelSerializer)
    } else {
        None
    }
}

/// A text with no `.` in it.
pub open spec fn dotless(s: Seq<char>) -> bool {
    forall|i: int| 0 <= i < s.len() ==> s[i] != '.'
}

proof fn lemma_dotless_labels(k: FrameworkOwnedDecoratorKind)
    ensures
        dotless(spec_framework_label(k)),
        spec_framework_label(k).len() > 0,
{
    reveal_strlit("computed_field");
    reveal_strlit("field_validator");
    reveal_strlit("model_validator");
    reveal_strlit("field_serializer");
    reveal_strlit("model_serializer");
}

proof fn lemma_labels_distinct(a: FrameworkOwnedDecoratorKind, b: FrameworkOwnedDecoratorKind)
    requires
        a != b,
    ensures
        spec_framework_label(a) != spec_framework_label(b),
{
    reveal_strlit("computed_field");
    reveal_strlit("field_validator");
    reveal_strlit("model_validator");
    reveal_strlit("field_serializer");
    reveal_strlit("model_serializer");
    let x = spec_framework_label(a);
    let y = spec_framework_label(b);
    if x.len() == y.len() {
        if x == y {
            assert(x[0] == y[0]);
        }
    }
}

/// A text without `.` ends with no `.`-prefixed suffix.
proof fn lemma_dotless_no_dotted_suffix(s: Seq<char>, b: Seq<char>)
    requires
        dotless(s),
    ensures
        !ends_with(s, "."@ + b),
{
    reveal_strlit(".");
    if ends_with(s, "."@ + b) {
        let i = s.len() - b.len() - 1;
        assert(s.subrange(s.len() - ("."@ + b).len(), s.len() as int)[0] == s[i]);
        assert(("."@ + b)[0] == '.');
    }
}

/// A text that ends with `.` and a dotless `a` does not end with `.` and another dotless `b`.
proof fn lemma_dotted_suffix_unique(s: Seq<char>, a: Seq<char>, b: Seq<char>)
    requires
        ends_with(s, "."@ + a),
        dotless(a),
        dotless(b),
        a != b,
    ensures
        !ends_with(s, "."@ + b),
{
    reveal_strlit(".");
    let n = s.len() as int;
    let da = "."@ + a;
    let db = "."@ + b;
    if ends_with(s, db) {
        assert(forall|j: int| 0 <= j < da.len() ==> #[trigger] s[n - da.len() + j] == da[j]) by {
            assert forall|j: int| 0 <= j < da.len() implies #[trigger] s[n - da.len() + j] == da[j] by {
                assert(s.subrange(n - da.len(), n)[j] == s[n - da.len() + j]);
            }
        }
        assert(forall|j: int| 0 <= j < db.len() ==> #[trigger] s[n - db.len() + j] == db[j]) by {
            assert forall|j: int| 0 <= j < db.len() implies #[trigger] s[n - db.len() + j] == db[j] by {
                assert(s.subrange(n - db.len(), n)[j] == s[n - db.len() + j]);
            }
        }
        if a.len() == b.len() {
            assert(a =~= b) by {
                assert forall|j: int| 0 <= j < a.len() implies a[j] == b[j] by {
                    assert(da[j + 1] == a[j]);
                    assert(db[j + 1] == b[j]);
                    assert(s[n - da.len() + j + 1] == da[j + 1]);
                    assert(s[n - db.len() + j + 1] == db[j + 1]);
                }
            }
        } else if a.len() < b.len() {
            let j = b.len() - a.len();
            assert(db[j] == b[j - 1]);
            assert(s[n - db.len() + j] == db[j]);
            assert(s[n - da.len()] == da[0]);
        } else {
            let j = a.len() - b.len();
            assert(da[j] == a[j - 1]);
            assert(s[n - da.len() + j] == da[j]);
            assert(s[n - db.len()] == db[0]);
        }
    }
}

proof fn lemma_lookup_finds(name: Seq<char>, k: FrameworkOwnedDecoratorKind)
    requires
        names_decorator(name, spec_framework_label(k)),
        forall|j: FrameworkOwnedDecoratorKind| j != k ==> !names_decorator(name, #[trigger] spec_framework_label(j)),
    ensures
        spec_framework_owned_decorator_kind(name) == Some(k),
{
    assert(!names_decorator(name, spec_framework_label(FrameworkOwnedDecoratorKind::ComputedField)) || k == FrameworkOwnedDecoratorKind::ComputedField);
    assert(!names_decorator(name, spec_framework_label(FrameworkOwnedDecoratorKind::FieldValidator)) || k == FrameworkOwnedDecoratorKind::FieldValidator);
    assert(!names_decorator(name, spec_framework_label(FrameworkOwnedDecoratorKind::ModelValidator)) || k == FrameworkOwnedDecoratorKind::ModelValidator);
    assert(!names_decorator(name, spec_framework_label(FrameworkOwnedDecoratorKind::FieldSerializer)) || k == FrameworkOwnedDecoratorKind::FieldSerializer);
    assert(!names_decorator(name, spec_framework_label(FrameworkOwnedDecoratorKind::ModelSerializer)) || k == FrameworkOwnedDecoratorKind::ModelSerializer);
}

/// The framework decorator lookup finds each kind by its label, bare or under any module
/// prefix (such as `pydantic.`), and finds nothing for a dotless name that is no label.
pub proof fn law_framework_decorator_round_trip(k: FrameworkOwnedDecoratorKind, prefix: Seq<char>, other: Seq<char>)
    ensures
        spec_framework_owned_decorator_kind(spec_framework_label(k)) == Some(k),
        spec_framework_owned_decorator_kind(prefix + "."@ + spec_framework_label(k)) == Some(k),
        dotless(other) && (forall|j: FrameworkOwnedDecoratorKind| other != #[trigger] spec_framework_label(j))
            ==> spec_framework_owned_decorator_kind(other) is None,
{
    lemma_dotless_labels(k);
    let l = spec_framework_label(k);
    assert forall|j: FrameworkOwnedDecoratorKind| j != k implies !names_decorator(l, #[trigger] spec_framework_label(j)) by {
        lemma_labels_distinct(k, j);
        lemma_dotless_no_dotted_suffix(l, spec_framework_label(j));
    }
    lemma_lookup_finds(l, k);
    let name = prefix + "."@ + l;
    assert(ends_with(name, "."@ + l)) by {
        assert(name.subrange(name.len() - ("."@ + l).len(), name.len() as int) =~= "."@ + l);
    }
    assert forall|j: FrameworkOwnedDecoratorKind| j != k implies !names_decorator(name, #[trigger] spec_framework_label(j)) by {
        lemma_labels_distinct(k, j);
        lemma_dotless_labels(j);
        lemma_dotted_suffix_unique(name, l, spec_framework_label(j));
        if name == spec_framework_label(j) {
            reveal_strlit(".");
            assert(name[prefix.len() as int] == '.');
        }
    }
    lemma_lookup_finds(name, k);
    if dotless(other) && (forall|j: FrameworkOwnedDecoratorKind| other != #[trigger] spec_framework_label(j)) {
        assert forall|j: FrameworkOwnedDecoratorKind| !names_decorator(other, #[trigger] spec_framework_label(j)) by {
            lemma_dotless_no_dotted_suffix(other, spec_framework_label(j));
        }
        assert(other != spec_framework_label(FrameworkOwnedDecoratorKind::ComputedField));
        assert(other != spec_framework_label(FrameworkOwnedDecoratorKind::FieldValidator));
        assert(other != spec_framework_label(FrameworkOwnedDecoratorKind::ModelValidator));
        assert(other != spec_framework_label(FrameworkOwnedDecoratorKind::FieldSerializer));
        assert(other != spec_framework_label(FrameworkOwnedDecoratorKind::ModelSerializer));
        assert(!names_decorator(other, spec_framework_label(FrameworkOwnedDecoratorKind::ComputedField)));
        assert(!names_decorator(other, spec_framework_label(FrameworkOwnedDecoratorKind::FieldValidator)));
        assert(!names_decorator(other, spec_framework_label(FrameworkOwnedDecoratorKind::ModelValidator)));
        assert(!names_decorator(other, spec_framework_label(FrameworkOwnedDecoratorKind::FieldSerializer)));
        assert(!names_decorator(other, spec_framework_label(FrameworkOwnedDecoratorKind::ModelSerializer)));
    }
}

/// The line up to which attribute assignments count as initialization: an access through `self`
/// inside the `__init__` of the class itself is cut off at its own line.
pub fn instance_initializer_access_cutoff(
    receiver_name: &str,
    current_owner_name: &Option<String>,
    current_owner_type_name: &Option<String>,
    class_decl: &Declaration,
    line: usize,
) -> (res: Option<usize>)
    ensures
        res == if receiver_name@ == "self"@ && (match current_owner_name {
            Some(n) => n@ == "__init__"@,
            None => false,
        }) && (match current_owner_type_name {
            Some(n) => n@ == class_decl.name@,
            None => false,
        }) {
            Some(line)
        } else {
            None::<usize>
        },
{
    let in_init = match current_owner_name {
        Some(n) => str_eq(n, "__init__"),
        None => false,
    };
    let in_class = match current_owner_type_name {
        Some(n) => str_eq(n, &class_decl.name),
        None => false,
    };
    if str_eq(receiver_name, "self") && in_init && in_class {
        Some(line)
    } else {
        None
    }
}

/// The message of an attribute that reassigns a `Final` binding of its type.
pub open spec fn spec_final_attribute_message(
    source_path: Seq<char>,
    owner_type_name: Seq<char>,
    member_name: Seq<char>,
) -> Seq<char> {
    "type `"@ + owner_type_name + "` in module `"@ + source_path + "` reassigns Final binding `"@
        + member_name + "`"@
}

/// The error for an attribute assignment that reassigns a `Final` binding of its type.
pub fn final_attribute_reassignment_diagnostic(
    source_path: &str,
    owner_type_name: &str,
    member_name: &str,
) -> (res: Diagnostic)
    ensures
        res@ == spec_diagnostic(
            Severity::Error,
            "TPY4006"@,
            spec_final_attribute_message(source_path@, owner_type_name@, member_name@),
        ),
{
    let mut m = owned("type `");
    m.append(owner_type_name);
    m.append("` in module `");
    m.append(source_path);
    m.append("` reassigns Final binding `");
    m.append(member_name);
    m.append("`");
    Diagnostic::error("TPY4006", m)
}

/// The diagnostic for a use of a deprecated item under the configured level, with the
/// deprecation message as a note when there is a non-empty one.
pub open spec fn spec_deprecated_diagnostic(
    level: DiagnosticLevel,
    message: Seq<char>,
    deprecation_message: Option<Seq<char>>,
) -> Option<DiagnosticView> {
    let base = match level {
        DiagnosticLevel::Warning => spec_diagnostic(Severity::Warning, "TPY4101"@, message),
        _ => spec_diagnostic(Severity::Error, "TPY4101"@, message),
    };
    match level {
        DiagnosticLevel::Ignore => None,
        _ => match deprecation_message {
            Some(note) => if note.len() > 0 {
                Some(DiagnosticView { notes: base.notes.push(note), ..base })
            } else {
                Some(base)
            },
            None => Some(base),
        },
    }
}

/// The diagnostic for a use of a deprecated item, or none when such uses are ignored.
pub fn deprecated_diagnostic(
    report_deprecated: DiagnosticLevel,
    message: String,
    deprecation_message: &Option<String>,
) -> (res: Option<Diagnostic>)
    ensures
        match res {
            Some(d) => spec_deprecated_diagnostic(
                report_deprecated,
                message@,
                crate::effect_summary::opt_view(*deprecation_message),
            ) == Some(d@),
            None => spec_deprecated_diagnostic(
                report_deprecated,
                message@,
                crate::effect_summary::opt_view(*deprecation_message),
            ) is None,
        },
{
    let diagnostic = match report_deprecated {
        DiagnosticLevel::Ignore => return None,
        DiagnosticLevel::Warning => Diagnostic::warning("TPY4101", message),
        DiagnosticLevel::Error => Diagnostic::error("TPY4101", message),
    };
    match deprecation_message {
        Some(note) => {
            if note.unicode_len() > 0 {
                Some(diagnostic.with_note(note.clone()))
            } else {
                Some(diagnostic)
            }
        },
        None => Some(diagnostic),
    }
}

} // verus!
