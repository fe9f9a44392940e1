//! What a declaration says as a callable, a value or an import: its parameters, its value
//! annotation text and its import target, read from the bound facts when there are any and
//! else from the rendered declaration.
use vstd::prelude::*;
use crate::declarations::{Declaration, DeclarationKind, string_views};
use crate::effect_summary::{clone_opt, opt_view};
use crate::signatures::{
    DirectSignatureParam, ParamView, SemanticImportTargetRef, clone_params, direct_signature_params,
    param_annotations, param_names, param_views, parse_import_target_ref, spec_direct_signature_params,
};
use crate::text::{rsplit_once, str_trim, trim};

verus! {

/// The parameters of a declaration that is a function or an overload: the bound ones when the
/// declaration has them, else those of its rendered signature.
pub open spec fn spec_declaration_params(d: Declaration) -> Option<Seq<ParamView>> {
    if d.kind == DeclarationKind::Function || d.kind == DeclarationKind::Overload {
        match d.bound_params {
            Some(ps) => Some(param_views(ps@)),
            None => spec_direct_signature_params(d.detail@),
        }
    } else {
        None
    }
}

fn declaration_params(declaration: &Declaration) -> (res: Option<Vec<DirectSignatureParam>>)
    ensures
        match res {
            Some(ps) => spec_declaration_params(*declaration) == Some(param_views(ps@)),
            None => spec_declaration_params(*declaration) is None,
        },
{
    if declaration.kind != DeclarationKind::Function && declaration.kind != DeclarationKind::Overload {
        return None;
    }
    match &declaration.bound_params {
        Some(ps) => Some(clone_params(ps)),
        None => direct_signature_params(&declaration.detail),
    }
}

/// How many parameters a callable declaration has.
pub fn declaration_signature_param_count(declaration: &Declaration) -> (res: Option<usize>)
    ensures
        match res {
            Some(n) => spec_declaration_params(*declaration) is Some && n
                == spec_declaration_params(*declaration).unwrap().len(),
            None => spec_declaration_params(*declaration) is None,
        },
{
    match declaration_params(declaration) {
        Some(ps) => Some(ps.len()),
        None => None,
    }
}

/// The parameter names of a callable declaration.
pub fn declaration_signature_param_names(declaration: &Declaration) -> (res: Option<Vec<String>>)
    ensures
        match res {
            Some(ns) => spec_declaration_params(*declaration) is Some && string_views(ns@)
                == param_names(spec_declaration_params(*declaration).unwrap()),
            None => spec_declaration_params(*declaration) is None,
        },
{
    let ps = match declaration_params(declaration) {
        Some(ps) => ps,
        None => return None,
    };
    let ghost pv = param_views(ps@);
    let mut names: Vec<String> = Vec::new();
    let mut i: usize = 0;
    while i < ps.len()
        invariant
            pv == param_views(ps@),
            i <= ps@.len(),
            string_views(names@) == param_names(pv.take(i as int)),
        decreases ps@.len() - i,
    {
        let ghost before = names@;
        names.push(ps[i].name.clone());
        assert(pv[i as int].name == ps@[i as int].name@);
        assert(string_views(names@) =~= string_views(before).push(pv[i as int].name));
        assert(param_names(pv.take(i + 1)) =~= param_names(pv.take(i as int)).push(pv[i as int].name));
        i = i + 1;
    }
    assert(pv.take(ps@.len() as int) =~= pv);
    Some(names)
}

/// The parameter annotations of a callable declaration, empty where there is none.
pub fn declaration_signature_param_types(declaration: &Declaration) -> (res: Option<Vec<String>>)
    ensures
        match res {
            Some(ts) => spec_declaration_params(*declaration) is Some && string_views(ts@)
                == param_annotations(spec_declaration_params(*declaration).unwrap()),
            None => spec_declaration_params(*declaration) is None,
        },
{
    let ps = match declaration_params(declaration) {
        Some(ps) => ps,
        None => return None,
    };
    let ghost pv = param_views(ps@);
    let mut types: Vec<String> = Vec::new();
    let mut i: usize = 0;
    while i < ps.len()
        invariant
            pv == param_views(ps@),
            i <= ps@.len(),
            string_views(types@) == param_annotations(pv.take(i as int)),
        decreases ps@.len() - i,
    {
        let ghost before = types@;
        types.push(ps[i].annotation.clone());
        assert(pv[i as int].annotation == ps@[i as int].annotation@);
        assert(string_views(types@) =~= string_views(before).push(pv[i as int].annotation));
        assert(param_annotations(pv.take(i + 1)) =~= param_annotations(pv.take(i as int)).push(
            pv[i as int].annotation,
        ));
        i = i + 1;
    }
    assert(pv.take(ps@.len() as int) =~= pv);
    Some(types)
}

/// The annotation text of a value declaration: its bound annotation, else its rendered detail
/// when that is not blank.
pub open spec fn spec_value_annotation_text(d: Declaration) -> Option<Seq<char>> {
    if d.kind == DeclarationKind::Value {
        match d.value_annotation {
            Some(a) => Some(a@),
            None => if trim(d.detail@).len() > 0 {
                Some(d.detail@)
            } else {
                None
            },
        }
    } else {
        None
    }
}

/// The annotation text of a value declaration.
pub fn declaration_value_annotation_text(declaration: &Declaration) -> (res: Option<String>)
    ensures
        opt_view(res) == spec_value_annotation_text(*declaration),
{
    if declaration.kind != DeclarationKind::Value {
        return None;
    }
    match &declaration.value_annotation {
        Some(a) => Some(a.clone()),
        None => {
            let t = str_trim(&declaration.detail);
            if t.unicode_len() > 0 {
                Some(declaration.detail.clone())
            } else {
                None
            }
        },
    }
}

/// What an import declaration refers to: its bound target, else the target its rendered detail
/// names; nothing for other declarations.
pub fn declaration_import_target_ref(declaration: &Declaration) -> (res: Option<SemanticImportTargetRef>)
    ensures
        declaration.kind != DeclarationKind::Import ==> res is None,
        declaration.kind == DeclarationKind::Import ==> match declaration.import_target {
            Some(t) => res matches Some(r) && r.raw_target@ == t.raw_target@ && r.module_target@
                == t.module_target@ && match (r.symbol_target, t.symbol_target) {
                (Some(a), Some(b)) => a.module_key@ == b.module_key@ && a.symbol_name@ == b.symbol_name@,
                (None, None) => true,
                _ => false,
            },
            None => match res {
                Some(r) => declaration.detail@.len() > 0 && r.raw_target@ == declaration.detail@
                    && r.module_target@ == declaration.detail@ && match r.symbol_target {
                    Some(t) => rsplit_once(declaration.detail@, '.') == Some((t.module_key@, t.symbol_name@)),
                    None => rsplit_once(declaration.detail@, '.') is None,
                },
                None => declaration.detail@.len() == 0,
            },
        },
{
    if declaration.kind != DeclarationKind::Import {
        return None;
    }
    match &declaration.import_target {
        Some(t) => Some(t.duplicate()),
        None => parse_import_target_ref(&declaration.detail),
    }
}

} // verus!
