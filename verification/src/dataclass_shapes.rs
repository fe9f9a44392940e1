//! The constructor shape synthesized for a dataclass or for a class under a dataclass
//! transform: the fields inherited from its bases, in base order, then its own fields, each
//! later field replacing an earlier one of the same name.
use vstd::prelude::*;
use crate::dataclass_checks::{DataclassTransformClassShape, DataclassTransformFieldShape, FieldShapeView};
use crate::declarations::{Declaration, DeclarationKind, DeclarationOwnerKind, string_views};
use crate::hierarchy::{first_index, lemma_first_index};
use crate::semantic_types::names_contain;
use crate::text::{ends_with, join2, str_ends_with, str_eq};

verus! {

/// A field declared in a class body, as the dataclass analysis reads it. `annotation` is the
/// annotation with imported typing aliases already rewritten, and `value_is_descriptor` tells
/// whether the type of the field's default value is a descriptor class.
#[derive(Debug)]
pub struct DataclassFieldSite {
    pub name: String,
    pub annotation: String,
    pub has_default: bool,
    pub is_class_var: bool,
    pub field_specifier_name: Option<String>,
    pub field_specifier_init: Option<bool>,
    pub field_specifier_kw_only: Option<bool>,
    pub field_specifier_alias: Option<String>,
    pub field_specifier_has_default: bool,
    pub field_specifier_has_default_factory: bool,
    pub value_is_descriptor: bool,
}

/// A class body as the dataclass analysis reads it: its decorators, its methods, its fields,
/// and the options of a plain `@dataclass` decorator.
#[derive(Debug)]
pub struct DataclassClassSite {
    pub name: String,
    pub decorators: Vec<String>,
    pub methods: Vec<String>,
    pub fields: Vec<DataclassFieldSite>,
    pub plain_dataclass_init: bool,
    pub plain_dataclass_kw_only: bool,
    pub plain_dataclass_frozen: bool,
}

/// What a dataclass transform declares: the names of its field specifiers and its defaults.
#[derive(Debug)]
pub struct DataclassTransformMetadata {
    pub field_specifiers: Vec<String>,
    pub kw_only_default: bool,
    pub frozen_default: bool,
}

/// The plain-value view of a synthesized class shape.
pub struct ClassShapeView {
    pub fields: Seq<FieldShapeView>,
    pub frozen: bool,
    pub has_explicit_init: bool,
}

/// The views of a list of fields.
pub open spec fn shape_views(s: Seq<DataclassTransformFieldShape>) -> Seq<FieldShapeView> {
    s.map_values(|f: DataclassTransformFieldShape| f@)
}

/// The view of a class shape.
pub open spec fn class_shape_view(s: DataclassTransformClassShape) -> ClassShapeView {
    ClassShapeView { fields: shape_views(s.fields@), frozen: s.frozen, has_explicit_init: s.has_explicit_init }
}

/// A field named `n`.
pub open spec fn named_field(n: Seq<char>) -> spec_fn(FieldShapeView) -> bool {
    |f: FieldShapeView| f.name == n
}

/// Adds a field at the end, taking out the first earlier field of the same name.
pub open spec fn spec_merge_field(fs: Seq<FieldShapeView>, f: FieldShapeView) -> Seq<FieldShapeView> {
    match first_index(fs, named_field(f.name)) {
        Some(i) => fs.remove(i).push(f),
        None => fs.push(f),
    }
}

/// Adds the fields one after the other.
pub open spec fn spec_merge_fields(fs: Seq<FieldShapeView>, news: Seq<FieldShapeView>) -> Seq<FieldShapeView>
    decreases news.len(),
{
    if news.len() == 0 {
        fs
    } else {
        spec_merge_field(spec_merge_fields(fs, news.drop_last()), news.last())
    }
}

/// The fields inherited from the shapes of the first bases, in base order.
pub open spec fn spec_inherited_fields(shapes: Seq<DataclassTransformClassShape>) -> Seq<FieldShapeView>
    decreases shapes.len(),
{
    if shapes.len() == 0 {
        Seq::empty()
    } else {
        spec_merge_fields(spec_inherited_fields(shapes.drop_last()), shape_views(shapes.last().fields@))
    }
}

/// The field a plain `@dataclass` synthesizes for a class-body field: none for a `ClassVar` or
/// for `field(init=False)`; required unless it has a default (through `field(...)`, a default or
/// a default factory); keyword-only as `field(kw_only=...)` says, else as the decorator says.
pub open spec fn spec_plain_local_field(f: DataclassFieldSite, kw_only_default: bool) -> Option<FieldShapeView> {
    let recognized = match f.field_specifier_name {
        Some(n) => n@ == "field"@ || n@ == "dataclasses.field"@,
        None => false,
    };
    if f.is_class_var || (recognized && f.field_specifier_init == Some(false)) {
        None
    } else {
        Some(
            FieldShapeView {
                name: f.name@,
                keyword_name: f.name@,
                annotation: f.annotation@,
                required: if recognized {
                    !(f.field_specifier_has_default || f.field_specifier_has_default_factory)
                } else {
                    !f.has_default
                },
                kw_only: if recognized {
                    match f.field_specifier_kw_only {
                        Some(b) => b,
                        None => kw_only_default,
                    }
                } else {
                    kw_only_default
                },
            },
        )
    }
}

/// Whether a field's specifier is one the transform declares, by its name or as the last
/// segment of a declared dotted name.
pub open spec fn spec_recognized_specifier(f: DataclassFieldSite, specifiers: Seq<Seq<char>>) -> bool {
    match f.field_specifier_name {
        Some(n) => exists|i: int|
            0 <= i < specifiers.len() && (#[trigger] specifiers[i] == n@ || ends_with(specifiers[i], "."@ + n@)),
        None => false,
    }
}

/// The field a dataclass transform synthesizes for a class-body field: none for a `ClassVar`,
/// for a descriptor-typed default without a declared specifier, or for a specifier with
/// `init=False`; named for its specifier's alias where it has one; required unless its
/// specifier gives a default or it has a plain default; keyword-only as its specifier says,
/// else as the transform's default says.
pub open spec fn spec_transform_local_field(f: DataclassFieldSite, m: DataclassTransformMetadata) -> Option<
    FieldShapeView,
> {
    let recognized = spec_recognized_specifier(f, string_views(m.field_specifiers@));
    if f.is_class_var || (!recognized && f.value_is_descriptor) || (recognized && f.field_specifier_init == Some(
        false,
    )) {
        None
    } else {
        Some(
            FieldShapeView {
                name: f.name@,
                keyword_name: match f.field_specifier_alias {
                    Some(a) => a@,
                    None => f.name@,
                },
                annotation: f.annotation@,
                required: if recognized {
                    !(f.field_specifier_has_default || f.field_specifier_has_default_factory)
                } else {
                    !f.has_default
                },
                kw_only: if recognized {
                    match f.field_specifier_kw_only {
                        Some(b) => b,
                        None => m.kw_only_default,
                    }
                } else {
                    m.kw_only_default
                },
            },
        )
    }
}

/// The fields synthesized by `make` for the first class-body fields, each merged after the
/// earlier ones.
pub open spec fn spec_merge_local(
    fs: Seq<FieldShapeView>,
    sites: Seq<DataclassFieldSite>,
    make: spec_fn(DataclassFieldSite) -> Option<FieldShapeView>,
) -> Seq<FieldShapeView>
    decreases sites.len(),
{
    if sites.len() == 0 {
        fs
    } else {
        let prev = spec_merge_local(fs, sites.drop_last(), make);
        match make(sites.last()) {
            Some(f) => spec_merge_field(prev, f),
            None => prev,
        }
    }
}

/// The synthesis of a plain `@dataclass` with the given keyword-only default.
pub open spec fn plain_maker(kw_only_default: bool) -> spec_fn(DataclassFieldSite) -> Option<FieldShapeView> {
    |f: DataclassFieldSite| spec_plain_local_field(f, kw_only_default)
}

/// The synthesis of a dataclass transform.
pub open spec fn transform_maker(m: DataclassTransformMetadata) -> spec_fn(DataclassFieldSite) -> Option<FieldShapeView> {
    |f: DataclassFieldSite| spec_transform_local_field(f, m)
}

/// Whether a class is a plain dataclass: declared as one, or decorated with `dataclass` or
/// `dataclasses.dataclass`.
pub open spec fn spec_is_plain_dataclass(class_decl: Declaration, site: DataclassClassSite) -> bool {
    class_decl.class_kind == Some(DeclarationOwnerKind::DataClass) || string_views(site.decorators@).contains(
        "dataclass"@,
    ) || string_views(site.decorators@).contains("dataclasses.dataclass"@)
}

/// The shape of a plain dataclass: the fields inherited from the shapes of its bases, then its
/// own; frozen as the decorator says; with an explicit `__init__` where the decorator turns the
/// synthesized one off or the class defines one. None for a class that is not a plain dataclass.
pub open spec fn spec_plain_dataclass_shape(
    class_decl: Declaration,
    site: DataclassClassSite,
    inherited: Seq<DataclassTransformClassShape>,
) -> Option<ClassShapeView> {
    if !spec_is_plain_dataclass(class_decl, site) {
        None
    } else {
        Some(
            ClassShapeView {
                fields: spec_merge_local(
                    spec_inherited_fields(inherited),
                    site.fields@,
                    plain_maker(site.plain_dataclass_kw_only),
                ),
                frozen: site.plain_dataclass_frozen,
                has_explicit_init: !site.plain_dataclass_init || string_views(site.methods@).contains("__init__"@),
            },
        )
    }
}

/// An `__init__` function declared in the class `class_name`.
pub open spec fn is_init_of(d: Declaration, class_name: Seq<char>) -> bool {
    &&& d.owner matches Some(o) && o.name@ == class_name
    &&& d.name@ == "__init__"@
    &&& d.kind == DeclarationKind::Function
}

/// Whether the module declares an `__init__` function in the class `class_name`.
pub open spec fn declares_init(decls: Seq<Declaration>, class_name: Seq<char>) -> bool {
    exists|i: int| 0 <= i < decls.len() && is_init_of(#[trigger] decls[i], class_name)
}

/// The shape of a class under a dataclass transform: the fields inherited from the shapes of
/// its bases, then its own; frozen as the transform's default says; with an explicit
/// `__init__` where the module declares one in the class.
pub open spec fn spec_transform_class_shape(
    decls: Seq<Declaration>,
    class_name: Seq<char>,
    site: DataclassClassSite,
    m: DataclassTransformMetadata,
    inherited: Seq<DataclassTransformClassShape>,
) -> ClassShapeView {
    ClassShapeView {
        fields: spec_merge_local(spec_inherited_fields(inherited), site.fields@, transform_maker(m)),
        frozen: m.frozen_default,
        has_explicit_init: declares_init(decls, class_name),
    }
}

fn position_named(fields: &Vec<DataclassTransformFieldShape>, name: &str) -> (res: Option<usize>)
    ensures
        match res {
            Some(i) => i < fields@.len() && first_index(shape_views(fields@), named_field(name@)) == Some(i as int),
            None => first_index(shape_views(fields@), named_field(name@)) is None,
        },
{
    let ghost v = shape_views(fields@);
    let ghost p = named_field(name@);
    let mut i: usize = 0;
    while i < fields.len()
        invariant
            i <= fields@.len(),
            v == shape_views(fields@),
            p == named_field(name@),
            forall|j: int| 0 <= j < i ==> !p(#[trigger] v[j]),
        decreases fields@.len() - i,
    {
        if str_eq(&fields[i].name, name) {
            proof {
                assert(p(v[i as int]));
                lemma_first_index(v, p);
                if first_index(v, p) != Some(i as int) {
                    let f = first_index(v, p).unwrap();
                    assert(!p(v[f]));
                }
            }
            return Some(i);
        }
        assert(!p(v[i as int]));
        i = i + 1;
    }
    proof {
        lemma_first_index(v, p);
        if first_index(v, p) is Some {
            let f = first_index(v, p).unwrap();
            assert(p(v[f]));
        }
    }
    None
}

fn merge_field(fields: &mut Vec<DataclassTransformFieldShape>, f: DataclassTransformFieldShape)
    ensures
        shape_views(final(fields)@) == spec_merge_field(shape_views(old(fields)@), f@),
{
    let ghost v = shape_views(fields@);
    match position_named(fields, &f.name) {
        Some(i) => {
            fields.remove(i);
            assert(shape_views(fields@) =~= v.remove(i as int));
        },
        None => {},
    }
    let ghost mid = shape_views(fields@);
    fields.push(f);
    assert(shape_views(fields@) =~= mid.push(f@));
}

fn merge_fields(fields: &mut Vec<DataclassTransformFieldShape>, news: &Vec<DataclassTransformFieldShape>)
    ensures
        shape_views(final(fields)@) == spec_merge_fields(shape_views(old(fields)@), shape_views(news@)),
{
    let ghost start = shape_views(fields@);
    let ghost nv = shape_views(news@);
    let mut j: usize = 0;
    assert(nv.take(0) =~= Seq::<FieldShapeView>::empty());
    while j < news.len()
        invariant
            j <= news@.len(),
            nv == shape_views(news@),
            shape_views(fields@) == spec_merge_fields(start, nv.take(j as int)),
        decreases news@.len() - j,
    {
        assert(nv.take(j + 1).drop_last() =~= nv.take(j as int));
        assert(nv.take(j + 1).last() == news@[j as int]@);
        merge_field(fields, news[j].duplicate());
        j = j + 1;
    }
    assert(nv.take(nv.len() as int) =~= nv);
}

fn inherited_fields(inherited: &Vec<DataclassTransformClassShape>) -> (res: Vec<DataclassTransformFieldShape>)
    ensures
        shape_views(res@) == spec_inherited_fields(inherited@),
{
    let mut fields: Vec<DataclassTransformFieldShape> = Vec::new();
    let mut b: usize = 0;
    assert(inherited@.take(0) =~= Seq::<DataclassTransformClassShape>::empty());
    assert(shape_views(fields@) =~= Seq::<FieldShapeView>::empty());
    while b < inherited.len()
        invariant
            b <= inherited@.len(),
            shape_views(fields@) == spec_inherited_fields(inherited@.take(b as int)),
        decreases inherited@.len() - b,
    {
        assert(inherited@.take(b + 1).drop_last() =~= inherited@.take(b as int));
        assert(inherited@.take(b + 1).last() == inherited@[b as int]);
        merge_fields(&mut fields, &inherited[b].fields);
        b = b + 1;
    }
    assert(inherited@.take(inherited@.len() as int) =~= inherited@);
    fields
}

/// The field a plain `@dataclass` synthesizes for a class-body field.
pub fn plain_local_field(f: &DataclassFieldSite, kw_only_default: bool) -> (res: Option<DataclassTransformFieldShape>)
    ensures
        match res {
            Some(x) => spec_plain_local_field(*f, kw_only_default) == Some(x@),
            None => spec_plain_local_field(*f, kw_only_default) is None,
        },
{
    let recognized = match &f.field_specifier_name {
        Some(n) => str_eq(n, "field") || str_eq(n, "dataclasses.field"),
        None => false,
    };
    if f.is_class_var || (recognized && f.field_specifier_init == Some(false)) {
        return None;
    }
    let required = if recognized {
        !(f.field_specifier_has_default || f.field_specifier_has_default_factory)
    } else {
        !f.has_default
    };
    let kw_only = if recognized {
        match f.field_specifier_kw_only {
            Some(b) => b,
            None => kw_only_default,
        }
    } else {
        kw_only_default
    };
    Some(
        DataclassTransformFieldShape {
            name: f.name.clone(),
            keyword_name: f.name.clone(),
            annotation: f.annotation.clone(),
            required,
            kw_only,
        },
    )
}

/// Whether a field's specifier is one the transform declares.
pub fn recognized_specifier(f: &DataclassFieldSite, specifiers: &Vec<String>) -> (res: bool)
    ensures
        res == spec_recognized_specifier(*f, string_views(specifiers@)),
{
    let n = match &f.field_specifier_name {
        Some(n) => n,
        None => return false,
    };
    let dotted = join2(".", n);
    let ghost sv = string_views(specifiers@);
    let mut i: usize = 0;
    while i < specifiers.len()
        invariant
            i <= specifiers@.len(),
            sv == string_views(specifiers@),
            f.field_specifier_name == Some(*n),
            dotted@ == "."@ + n@,
            forall|j: int| 0 <= j < i ==> !(#[trigger] sv[j] == n@ || ends_with(sv[j], "."@ + n@)),
        decreases specifiers@.len() - i,
    {
        if str_eq(&specifiers[i], n) || str_ends_with(&specifiers[i], &dotted) {
            assert(sv[i as int] == specifiers@[i as int]@);
            return true;
        }
        assert(sv[i as int] == specifiers@[i as int]@);
        i = i + 1;
    }
    false
}

/// The field a dataclass transform synthesizes for a class-body field.
pub fn transform_local_field(f: &DataclassFieldSite, m: &DataclassTransformMetadata) -> (res: Option<
    DataclassTransformFieldShape,
>)
    ensures
        match res {
            Some(x) => spec_transform_local_field(*f, *m) == Some(x@),
            None => spec_transform_local_field(*f, *m) is None,
        },
{
    let recognized = recognized_specifier(f, &m.field_specifiers);
    if f.is_class_var || (!recognized && f.value_is_descriptor) || (recognized && f.field_specifier_init == Some(false)) {
        return None;
    }
    let keyword_name = match &f.field_specifier_alias {
        Some(a) => a.clone(),
        None => f.name.clone(),
    };
    let required = if recognized {
        !(f.field_specifier_has_default || f.field_specifier_has_default_factory)
    } else {
        !f.has_default
    };
    let kw_only = if recognized {
        match f.field_specifier_kw_only {
            Some(b) => b,
            None => m.kw_only_default,
        }
    } else {
        m.kw_only_default
    };
    Some(DataclassTransformFieldShape { name: f.name.clone(), keyword_name, annotation: f.annotation.clone(), required, kw_only })
}

/// The shape of a plain dataclass, given the shapes of those of its bases that have one, in
/// base order; none for a class that is not a plain dataclass.
pub fn synthesize_plain_dataclass_shape(
    class_decl: &Declaration,
    site: &DataclassClassSite,
    inherited: &Vec<DataclassTransformClassShape>,
) -> (res: Option<DataclassTransformClassShape>)
    ensures
        match res {
            Some(s) => spec_plain_dataclass_shape(*class_decl, *site, inherited@) == Some(class_shape_view(s)),
            None => spec_plain_dataclass_shape(*class_decl, *site, inherited@) is None,
        },
{
    let is_plain = class_decl.class_kind == Some(DeclarationOwnerKind::DataClass) || names_contain(
        &site.decorators,
        "dataclass",
    ) || names_contain(&site.decorators, "dataclasses.dataclass");
    if !is_plain {
        return None;
    }
    let has_explicit_init = !site.plain_dataclass_init || names_contain(&site.methods, "__init__");
    let mut fields = inherited_fields(inherited);
    let ghost base = shape_views(fields@);
    let ghost make = plain_maker(site.plain_dataclass_kw_only);
    let mut i: usize = 0;
    assert(site.fields@.take(0) =~= Seq::<DataclassFieldSite>::empty());
    while i < site.fields.len()
        invariant
            i <= site.fields@.len(),
            make == plain_maker(site.plain_dataclass_kw_only),
            shape_views(fields@) == spec_merge_local(base, site.fields@.take(i as int), make),
        decreases site.fields@.len() - i,
    {
        assert(site.fields@.take(i + 1).drop_last() =~= site.fields@.take(i as int));
        assert(site.fields@.take(i + 1).last() == site.fields@[i as int]);
        match plain_local_field(&site.fields[i], site.plain_dataclass_kw_only) {
            Some(f) => merge_field(&mut fields, f),
            None => {},
        }
        i = i + 1;
    }
    assert(site.fields@.take(site.fields@.len() as int) =~= site.fields@);
    Some(DataclassTransformClassShape { fields, frozen: site.plain_dataclass_frozen, has_explicit_init })
}

fn has_init(decls: &Vec<Declaration>, class_name: &str) -> (res: bool)
    ensures
        res == declares_init(decls@, class_name@),
{
    let mut i: usize = 0;
    while i < decls.len()
        invariant
            i <= decls@.len(),
            forall|j: int| 0 <= j < i ==> !is_init_of(#[trigger] decls@[j], class_name@),
        decreases decls@.len() - i,
    {
        let d = &decls[i];
        let owned_by = match &d.owner {
            Some(o) => str_eq(&o.name, class_name),
            None => false,
        };
        if owned_by && str_eq(&d.name, "__init__") && d.kind == DeclarationKind::Function {
            assert(is_init_of(decls@[i as int], class_name@));
            return true;
        }
        i = i + 1;
    }
    false
}

/// The shape of a class under a dataclass transform, given the transform's metadata and the
/// shapes of those of its bases that have one, in base order.
pub fn synthesize_dataclass_transform_shape(
    declarations: &Vec<Declaration>,
    class_name: &str,
    site: &DataclassClassSite,
    metadata: &DataclassTransformMetadata,
    inherited: &Vec<DataclassTransformClassShape>,
) -> (res: DataclassTransformClassShape)
    ensures
        class_shape_view(res) == spec_transform_class_shape(declarations@, class_name@, *site, *metadata, inherited@),
{
    let has_explicit_init = has_init(declarations, class_name);
    let mut fields = inherited_fields(inherited);
    let ghost base = shape_views(fields@);
    let ghost make = transform_maker(*metadata);
    let mut i: usize = 0;
    assert(site.fields@.take(0) =~= Seq::<DataclassFieldSite>::empty());
    while i < site.fields.len()
        invariant
            i <= site.fields@.len(),
            make == transform_maker(*metadata),
            shape_views(fields@) == spec_merge_local(base, site.fields@.take(i as int), make),
        decreases site.fields@.len() - i,
    {
        assert(site.fields@.take(i + 1).drop_last() =~= site.fields@.take(i as int));
        assert(site.fields@.take(i + 1).last() == site.fields@[i as int]);
        match transform_local_field(&site.fields[i], metadata) {
            Some(f) => merge_field(&mut fields, f),
            None => {},
        }
        i = i + 1;
    }
    assert(site.fields@.take(site.fields@.len() as int) =~= site.fields@);
    DataclassTransformClassShape { fields, frozen: metadata.frozen_default, has_explicit_init }
}

} // verus!
