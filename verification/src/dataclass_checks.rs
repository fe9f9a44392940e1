//! Calls of the constructor that a dataclass transform synthesizes: too many positional
//! arguments, required fields left out, unknown keywords, and fields bound twice.
use vstd::prelude::*;
use crate::declarations::string_views;
use crate::diagnostics::{Diagnostic, DiagnosticView, Severity, spec_diagnostic};
use crate::sites::CallSite;
use crate::semantic_types::names_contain;
use crate::text::{decimal, decimal_string, join_strings, join_with, owned, str_eq};

verus! {

/// A field of a class shaped by a dataclass transform.
#[derive(Debug)]
pub struct DataclassTransformFieldShape {
    pub name: String,
    pub keyword_name: String,
    pub annotation: String,
    pub required: bool,
    pub kw_only: bool,
}

/// The synthesized shape of a class under a dataclass transform.
#[derive(Debug)]
pub struct DataclassTransformClassShape {
    pub fields: Vec<DataclassTransformFieldShape>,
    pub frozen: bool,
    pub has_explicit_init: bool,
}

/// The plain-value view of a synthesized field.
pub struct FieldShapeView {
    pub name: Seq<char>,
    pub keyword_name: Seq<char>,
    pub annotation: Seq<char>,
    pub required: bool,
    pub kw_only: bool,
}

impl View for DataclassTransformFieldShape {
    type V = FieldShapeView;

    open spec fn view(&self) -> FieldShapeView {
        FieldShapeView {
            name: self.name@,
            keyword_name: self.keyword_name@,
            annotation: self.annotation@,
            required: self.required,
            kw_only: self.kw_only,
        }
    }
}

impl DataclassTransformFieldShape {
    /// A copy of the field.
    pub fn duplicate(&self) -> (res: DataclassTransformFieldShape)
        ensures
            res@ == self@,
    {
        DataclassTransformFieldShape {
            name: self.name.clone(),
            keyword_name: self.keyword_name.clone(),
            annotation: self.annotation.clone(),
            required: self.required,
            kw_only: self.kw_only,
        }
    }
}

/// The fields that can be passed by position, in order.
pub open spec fn positional_fields(fields: Seq<DataclassTransformFieldShape>) -> Seq<DataclassTransformFieldShape> {
    fields.filter(|f: DataclassTransformFieldShape| !f.kw_only)
}

/// A required field that the call leaves out: a keyword-only one not passed by keyword, or one
/// at a position the positional arguments do not reach that is not passed by keyword. Positions
/// count all fields.
pub open spec fn missing_field(f: DataclassTransformFieldShape, index: int, arg_count: nat, keywords: Seq<Seq<char>>) -> bool {
    f.required && if f.kw_only {
        !keywords.contains(f.keyword_name@)
    } else {
        index >= arg_count && !keywords.contains(f.keyword_name@)
    }
}

/// The keyword names of the required fields among the first fields that a call leaves out.
pub open spec fn spec_missing_required(
    fields: Seq<DataclassTransformFieldShape>,
    arg_count: nat,
    keywords: Seq<Seq<char>>,
) -> Seq<Seq<char>>
    decreases fields.len(),
{
    if fields.len() == 0 {
        Seq::empty()
    } else {
        let prev = spec_missing_required(fields.drop_last(), arg_count, keywords);
        if missing_field(fields.last(), fields.len() - 1, arg_count, keywords) {
            prev.push(fields.last().keyword_name@)
        } else {
            prev
        }
    }
}

/// The arity error of a call of a synthesized constructor, if it has one.
pub open spec fn spec_constructor_arity_diagnostic(
    path: Seq<char>,
    call: CallSite,
    shape: DataclassTransformClassShape,
) -> Option<DiagnosticView> {
    let positional = positional_fields(shape.fields@).len();
    if call.arg_count > positional {
        Some(
            spec_diagnostic(
                Severity::Error,
                "TPY4001"@,
                "call to `"@ + call.callee@ + "` in module `"@ + path + "` expects at most "@ + decimal(positional)
                    + " positional argument(s) but received "@ + decimal(call.arg_count as nat),
            ),
        )
    } else {
        let missing = spec_missing_required(shape.fields@, call.arg_count as nat, string_views(call.keyword_names@));
        if missing.len() == 0 {
            None
        } else {
            Some(
                spec_diagnostic(
                    Severity::Error,
                    "TPY4001"@,
                    "call to `"@ + call.callee@ + "` in module `"@ + path
                        + "` is missing required synthesized dataclass-transform field(s): "@ + join_with(missing, ", "@),
                ),
            )
        }
    }
}

fn count_positional(fields: &Vec<DataclassTransformFieldShape>) -> (res: usize)
    ensures
        res == positional_fields(fields@).len(),
{
    let mut n: usize = 0;
    let mut i: usize = 0;
    assert(fields@.take(0).filter(|f: DataclassTransformFieldShape| !f.kw_only) =~= Seq::<DataclassTransformFieldShape>::empty());
    while i < fields.len()
        invariant
            i <= fields@.len(),
            n == fields@.take(i as int).filter(|f: DataclassTransformFieldShape| !f.kw_only).len(),
            n <= i,
        decreases fields@.len() - i,
    {
        proof {
            let t = fields@.take(i + 1);
            assert(t.drop_last() =~= fields@.take(i as int));
            t.filter_lemma(|f: DataclassTransformFieldShape| !f.kw_only);
            reveal(Seq::filter);
        }
        if !fields[i].kw_only {
            n = n + 1;
        }
        i = i + 1;
    }
    assert(fields@.take(fields@.len() as int) =~= fields@);
    n
}

/// The arity error of a call of a synthesized constructor: more positional arguments than
/// positional fields, or required fields left out.
pub fn dataclass_transform_constructor_arity_diagnostic(
    source_path: &str,
    call: &CallSite,
    shape: &DataclassTransformClassShape,
) -> (res: Option<Diagnostic>)
    ensures
        match res {
            Some(d) => spec_constructor_arity_diagnostic(source_path@, *call, *shape) == Some(d@),
            None => spec_constructor_arity_diagnostic(source_path@, *call, *shape) is None,
        },
{
    let positional = count_positional(&shape.fields);
    proof {
        reveal_strlit("call to `");
        reveal_strlit("` in module `");
        reveal_strlit("` expects at most ");
        reveal_strlit(" positional argument(s) but received ");
        reveal_strlit("` is missing required synthesized dataclass-transform field(s): ");
        reveal_strlit(", ");
    }
    if call.arg_count > positional {
        let mut m = owned("call to `");
        m.append(&call.callee);
        m.append("` in module `");
        m.append(source_path);
        m.append("` expects at most ");
        m.append(&decimal_string(positional));
        m.append(" positional argument(s) but received ");
        m.append(&decimal_string(call.arg_count));
        return Some(Diagnostic::error("TPY4001", m));
    }
    let ghost kws = string_views(call.keyword_names@);
    let fields = &shape.fields;
    let mut missing: Vec<String> = Vec::new();
    let mut i: usize = 0;
    assert(fields@.take(0) =~= Seq::<DataclassTransformFieldShape>::empty());
    while i < fields.len()
        invariant
            i <= fields@.len(),
            fields == shape.fields,
            kws == string_views(call.keyword_names@),
            string_views(missing@) == spec_missing_required(fields@.take(i as int), call.arg_count as nat, kws),
        decreases fields@.len() - i,
    {
        let f = &fields[i];
        assert(fields@.take(i + 1).drop_last() =~= fields@.take(i as int));
        assert(fields@.take(i + 1).last() == *f);
        let passed = names_contain(&call.keyword_names, &f.keyword_name);
        let is_missing = f.required && if f.kw_only {
            !passed
        } else {
            i >= call.arg_count && !passed
        };
        if is_missing {
            let ghost before = string_views(missing@);
            missing.push(f.keyword_name.clone());
            assert(string_views(missing@) =~= before.push(f.keyword_name@));
        }
        i = i + 1;
    }
    assert(fields@.take(fields@.len() as int) =~= fields@);
    if missing.len() == 0 {
        assert(string_views(missing@).len() == 0);
        return None;
    }
    let mut m = owned("call to `");
    m.append(&call.callee);
    m.append("` in module `");
    m.append(source_path);
    m.append("` is missing required synthesized dataclass-transform field(s): ");
    let joined = join_strings(&missing, ", ");
    assert(missing@.map_values(|s: String| s@) =~= string_views(missing@));
    m.append(&joined);
    Some(Diagnostic::error("TPY4001", m))
}

/// The keyword names of the fields.
pub open spec fn field_keywords(fields: Seq<DataclassTransformFieldShape>) -> Seq<Seq<char>> {
    fields.map_values(|f: DataclassTransformFieldShape| f.keyword_name@)
}

/// The errors for keywords of `keywords` (the first of a call's) that name no field.
pub open spec fn spec_unknown_keyword_diags(
    path: Seq<char>,
    callee: Seq<char>,
    fields: Seq<DataclassTransformFieldShape>,
    keywords: Seq<Seq<char>>,
) -> Seq<DiagnosticView>
    decreases keywords.len(),
{
    if keywords.len() == 0 {
        Seq::empty()
    } else {
        let prev = spec_unknown_keyword_diags(path, callee, fields, keywords.drop_last());
        let k = keywords.last();
        if field_keywords(fields).contains(k) {
            prev
        } else {
            prev.push(
                spec_diagnostic(
                    Severity::Error,
                    "TPY4001"@,
                    "call to `"@ + callee + "` in module `"@ + path + "` uses unknown synthesized dataclass-transform keyword `"@
                        + k + "`"@,
                ),
            )
        }
    }
}

/// The errors for keywords of `keywords` that name a field the positional arguments already
/// fill.
pub open spec fn spec_double_bound_diags(
    path: Seq<char>,
    callee: Seq<char>,
    fields: Seq<DataclassTransformFieldShape>,
    arg_count: nat,
    keywords: Seq<Seq<char>>,
) -> Seq<DiagnosticView>
    decreases keywords.len(),
{
    if keywords.len() == 0 {
        Seq::empty()
    } else {
        let prev = spec_double_bound_diags(path, callee, fields, arg_count, keywords.drop_last());
        let k = keywords.last();
        let filled = field_keywords(positional_fields(fields));
        let reached = filled.take(if arg_count < filled.len() { arg_count as int } else { filled.len() as int });
        if reached.contains(k) {
            prev.push(
                spec_diagnostic(
                    Severity::Error,
                    "TPY4001"@,
                    "call to `"@ + callee + "` in module `"@ + path + "` binds synthesized field `"@ + k
                        + "` both positionally and by keyword"@,
                ),
            )
        } else {
            prev
        }
    }
}

/// The keyword errors of a call of a synthesized constructor: first the keywords that name no
/// field, then those that name a field already filled by position.
pub fn dataclass_transform_constructor_keyword_diagnostics(
    source_path: &str,
    call: &CallSite,
    shape: &DataclassTransformClassShape,
) -> (res: Vec<Diagnostic>)
    ensures
        res@.map_values(|d: Diagnostic| d@) == spec_unknown_keyword_diags(
            source_path@,
            call.callee@,
            shape.fields@,
            string_views(call.keyword_names@),
        ) + spec_double_bound_diags(
            source_path@,
            call.callee@,
            shape.fields@,
            call.arg_count as nat,
            string_views(call.keyword_names@),
        ),
{
    let fields = &shape.fields;
    let mut valid: Vec<String> = Vec::new();
    let mut positional: Vec<String> = Vec::new();
    let mut i: usize = 0;
    while i < fields.len()
        invariant
            i <= fields@.len(),
            fields == shape.fields,
            string_views(valid@) == field_keywords(fields@.take(i as int)),
            string_views(positional@) == field_keywords(positional_fields(fields@.take(i as int))),
        decreases fields@.len() - i,
    {
        proof {
            let t = fields@.take(i + 1);
            assert(t.drop_last() =~= fields@.take(i as int));
            reveal(Seq::filter);
        }
        let ghost v0 = string_views(valid@);
        let ghost p0 = string_views(positional@);
        valid.push(fields[i].keyword_name.clone());
        assert(string_views(valid@) =~= v0.push(fields@[i as int].keyword_name@));
        assert(field_keywords(fields@.take(i + 1)) =~= field_keywords(fields@.take(i as int)).push(
            fields@[i as int].keyword_name@,
        ));
        assert(string_views(valid@) =~= field_keywords(fields@.take(i + 1)));
        if !fields[i].kw_only {
            positional.push(fields[i].keyword_name.clone());
            assert(string_views(positional@) =~= p0.push(fields@[i as int].keyword_name@));
        }
        assert(string_views(positional@) =~= field_keywords(positional_fields(fields@.take(i + 1))));
        i = i + 1;
    }
    assert(fields@.take(fields@.len() as int) =~= fields@);
    proof {
        reveal_strlit("call to `");
        reveal_strlit("` in module `");
        reveal_strlit("` uses unknown synthesized dataclass-transform keyword `");
        reveal_strlit("` binds synthesized field `");
        reveal_strlit("` both positionally and by keyword");
        reveal_strlit("`");
    }
    let ghost kws = string_views(call.keyword_names@);
    let ghost pv = string_views(positional@);
    let reach = if call.arg_count < positional.len() {
        call.arg_count
    } else {
        positional.len()
    };
    let mut unknown: Vec<Diagnostic> = Vec::new();
    let mut twice: Vec<Diagnostic> = Vec::new();
    let mut k: usize = 0;
    assert(kws.take(0) =~= Seq::<Seq<char>>::empty());
    assert(unknown@.map_values(|d: Diagnostic| d@) =~= Seq::<DiagnosticView>::empty());
    assert(twice@.map_values(|d: Diagnostic| d@) =~= Seq::<DiagnosticView>::empty());
    while k < call.keyword_names.len()
        invariant
            k <= call.keyword_names@.len(),
            kws == string_views(call.keyword_names@),
            string_views(valid@) == field_keywords(shape.fields@),
            pv == string_views(positional@),
            pv == field_keywords(positional_fields(shape.fields@)),
            reach as int == if call.arg_count < pv.len() { call.arg_count as int } else { pv.len() as int },
            reach <= positional@.len(),
            unknown@.map_values(|d: Diagnostic| d@) == spec_unknown_keyword_diags(
                source_path@,
                call.callee@,
                shape.fields@,
                kws.take(k as int),
            ),
            twice@.map_values(|d: Diagnostic| d@) == spec_double_bound_diags(
                source_path@,
                call.callee@,
                shape.fields@,
                call.arg_count as nat,
                kws.take(k as int),
            ),
        decreases call.keyword_names@.len() - k,
    {
        let keyword = &call.keyword_names[k];
        assert(kws.take(k + 1).drop_last() =~= kws.take(k as int));
        assert(kws.take(k + 1).last() == keyword@);
        if !names_contain(&valid, keyword) {
            let mut m = owned("call to `");
            m.append(&call.callee);
            m.append("` in module `");
            m.append(source_path);
            m.append("` uses unknown synthesized dataclass-transform keyword `");
            m.append(keyword);
            m.append("`");
            let ghost before = unknown@.map_values(|d: Diagnostic| d@);
            let d = Diagnostic::error("TPY4001", m);
            unknown.push(d);
            assert(unknown@.map_values(|x: Diagnostic| x@) =~= before.push(d@));
        }
        let mut q: usize = 0;
        let mut hit = false;
        while q < reach
            invariant
                q <= reach,
                reach <= positional@.len(),
                pv == string_views(positional@),
                hit == pv.take(q as int).contains(keyword@),
            decreases reach - q,
        {
            proof {
                assert(pv.take(q + 1) =~= pv.take(q as int).push(pv[q as int]));
            }
            if str_eq(&positional[q], keyword) {
                hit = true;
            }
            q = q + 1;
            proof {
                if hit {
                    let t = pv.take(q as int);
                    if !pv.take(q - 1).contains(keyword@) {
                        assert(t[q - 1] == keyword@);
                    } else {
                        let w = choose|w: int| 0 <= w < q - 1 && #[trigger] pv.take(q - 1)[w] == keyword@;
                        assert(t[w] == keyword@);
                    }
                } else {
                    assert(!pv.take(q as int).contains(keyword@)) by {
                        if pv.take(q as int).contains(keyword@) {
                            let w = choose|w: int| 0 <= w < q && #[trigger] pv.take(q as int)[w] == keyword@;
                            if w < q - 1 {
                                assert(pv.take(q - 1)[w] == keyword@);
                            }
                        }
                    }
                }
            }
        }
        if hit {
            let mut m = owned("call to `");
            m.append(&call.callee);
            m.append("` in module `");
            m.append(source_path);
            m.append("` binds synthesized field `");
            m.append(keyword);
            m.append("` both positionally and by keyword");
            let ghost before = twice@.map_values(|d: Diagnostic| d@);
            let d = Diagnostic::error("TPY4001", m);
            twice.push(d);
            assert(twice@.map_values(|x: Diagnostic| x@) =~= before.push(d@));
        }
        k = k + 1;
    }
    assert(kws.take(call.keyword_names@.len() as int) =~= kws);
    let ghost uv = unknown@.map_values(|d: Diagnostic| d@);
    let ghost tv = twice@.map_values(|d: Diagnostic| d@);
    unknown.append(&mut twice);
    assert(unknown@.map_values(|d: Diagnostic| d@) =~= uv + tv);
    unknown
}

} // verus!
