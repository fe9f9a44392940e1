use typepython_checking::class_checks::{
    OverrideInsertion, abstract_instantiation_diagnostics, abstract_member_diagnostics, final_decorator_diagnostics,
    final_override_diagnostics, missing_override_diagnostics, override_diagnostics,
};
use typepython_checking::diagnostics::{Span, SuggestionApplicability};
use typepython_checking::declarations::{
    Declaration, DeclarationKind, DeclarationOwner, DeclarationOwnerKind, GenericTypeParam, GenericTypeParamKind,
};
use typepython_checking::generic_solution::{
    GenericSolution, ParamListBinding, declaration_has_runtime_generic_paramlist, generic_param_name_sets,
    insert_param_spec_binding, unresolved_generic_instantiation_params,
};
use typepython_checking::hierarchy::{
    ModuleDeclarations, class_surface_is_open, collect_sealed_descendants, is_interface_like_declaration, resolve_direct_base,
    resolve_sealed_root, sealed_descends_from,
};
use typepython_checking::sites::CallSite;

fn base_decl(name: &str, kind: DeclarationKind) -> Declaration {
    Declaration {
        name: name.to_string(),
        kind,
        detail: String::new(),
        owner: None,
        method_kind: None,
        is_abstract_method: false,
        is_final: false,
        is_class_var: false,
        bound_params: None,
        value_annotation: None,
        import_target: None,
        class_kind: None,
        bases: vec![],
        type_params: vec![],
        is_override: false,
        is_final_decorator: false,
    }
}

fn class(name: &str, bases: &[&str]) -> Declaration {
    let mut d = base_decl(name, DeclarationKind::Class);
    d.class_kind = Some(DeclarationOwnerKind::Class);
    d.bases = bases.iter().map(|b| b.to_string()).collect();
    d
}

fn method(owner: &str, name: &str) -> Declaration {
    let mut d = base_decl(name, DeclarationKind::Function);
    d.owner = Some(DeclarationOwner { name: owner.to_string(), kind: DeclarationOwnerKind::Class });
    d
}

fn import(name: &str, target: &str) -> Declaration {
    let mut d = base_decl(name, DeclarationKind::Import);
    d.detail = target.to_string();
    d
}

fn module(key: &str, decls: Vec<Declaration>) -> ModuleDeclarations {
    ModuleDeclarations { module_key: key.to_string(), source_path: format!("{key}.tpy"), declarations: decls }
}

fn call(callee: &str) -> CallSite {
    CallSite {
        callee: callee.to_string(),
        line: 1,
        arg_count: 0,
        keyword_names: vec![],
        arg_values: vec![],
        starred_arg_values: vec![],
        keyword_arg_values: vec![],
        keyword_expansion_values: vec![],
    }
}

fn messages(ds: &[typepython_checking::diagnostics::Diagnostic]) -> Vec<String> {
    ds.iter().map(|d| format!("{} {}", d.code, d.message)).collect()
}

#[test]
fn bases_resolve_locally_then_through_imports() {
    let lib = module("pkg.lib", vec![class("Base", &[])]);
    let app = module("app", vec![class("Local", &[]), import("Base", "pkg.lib.Base"), import("Gone", "pkg.lib.Gone")]);
    let nodes = vec![lib];
    let (m, d) = resolve_direct_base(&nodes, &app, "Local").unwrap();
    assert_eq!((m.module_key.as_str(), d.name.as_str()), ("app", "Local"));
    let (m, d) = resolve_direct_base(&nodes, &app, "Base").unwrap();
    assert_eq!((m.module_key.as_str(), d.name.as_str()), ("pkg.lib", "Base"));
    assert!(resolve_direct_base(&nodes, &app, "Gone").is_none());
    assert!(resolve_direct_base(&nodes, &app, "Missing").is_none());
}

#[test]
fn sealed_descendants_follow_bases_transitively() {
    let m = module(
        "m",
        vec![class("Root", &[]), class("B", &["Root"]), class("A", &["B"]), class("C", &["Other"]), method("B", "f")],
    );
    assert_eq!(collect_sealed_descendants(&m, "Root"), vec!["A".to_string(), "B".to_string()]);
    assert_eq!(collect_sealed_descendants(&m, "Nothing"), Vec::<String>::new());
    let cyclic = module("m", vec![class("X", &["Y"]), class("Y", &["X"])]);
    assert_eq!(collect_sealed_descendants(&cyclic, "X"), vec!["X".to_string(), "Y".to_string()]);
}

#[test]
fn override_markers_need_a_base_member() {
    let mut good = method("Child", "run");
    good.is_override = true;
    let mut bad = method("Child", "stop");
    bad.is_override = true;
    let mut free = base_decl("helper", DeclarationKind::Function);
    free.is_override = true;
    let m = module("m", vec![class("Base", &[]), method("Base", "run"), class("Child", &["Base"]), good, bad, free]);
    assert_eq!(
        messages(&override_diagnostics(&m, &vec![])),
        vec![
            "TPY4005 member `stop` in type `Child` in module `m.tpy` is marked with @override but no direct base member was found".to_string(),
            "TPY4005 declaration `helper` in module `m.tpy` is marked with @override but has no base member to override".to_string(),
        ]
    );
}

#[test]
fn final_members_and_final_classes_cannot_be_overridden() {
    let mut fin = method("Base", "x");
    fin.is_final = true;
    let mut deco = method("Base", "y");
    deco.is_final_decorator = true;
    let mut base = class("Base", &[]);
    base.is_final_decorator = true;
    let m = module("m", vec![base, fin, deco, class("Child", &["Base"]), method("Child", "x"), method("Child", "y")]);
    assert_eq!(
        messages(&final_override_diagnostics(&m, &vec![])),
        vec!["TPY4006 type `Child` in module `m.tpy` overrides Final member `x` from base `Base`".to_string()]
    );
    assert_eq!(
        messages(&final_decorator_diagnostics(&m, &vec![])),
        vec![
            "TPY4005 type `Child` in module `m.tpy` subclasses final class `Base`".to_string(),
            "TPY4005 type `Child` in module `m.tpy` overrides final member `y` from base `Base`".to_string(),
        ]
    );
}

#[test]
fn abstract_members_must_be_implemented() {
    let mut a = method("Shape", "area");
    a.is_abstract_method = true;
    let mut p = method("Shape", "perimeter");
    p.is_abstract_method = true;
    let m = module(
        "m",
        vec![class("Shape", &[]), p, a, class("Square", &["Shape"]), method("Square", "area"), class("Circle", &["Shape"])],
    );
    assert_eq!(
        messages(&abstract_member_diagnostics(&m, &vec![])),
        vec![
            "TPY4008 type `Square` in module `m.tpy` does not implement abstract member `perimeter` from `Shape`".to_string(),
            "TPY4008 type `Circle` in module `m.tpy` does not implement abstract member `area` from `Shape`".to_string(),
            "TPY4008 type `Circle` in module `m.tpy` does not implement abstract member `perimeter` from `Shape`".to_string(),
        ]
    );
    assert_eq!(
        messages(&abstract_instantiation_diagnostics(&m, &vec![], &vec![call("Shape"), call("Square"), call("print")])),
        vec![
            "TPY4007 module `m.tpy` directly instantiates abstract class `Shape`".to_string(),
            "TPY4007 module `m.tpy` directly instantiates abstract class `Square`".to_string(),
        ]
    );
}

#[test]
fn generic_parameters_by_kind() {
    let mut f = base_decl("f", DeclarationKind::Function);
    f.type_params = vec![
        GenericTypeParam { name: "T".to_string(), kind: GenericTypeParamKind::TypeVar },
        GenericTypeParam { name: "P".to_string(), kind: GenericTypeParamKind::ParamSpec },
        GenericTypeParam { name: "Ts".to_string(), kind: GenericTypeParamKind::TypeVarTuple },
        GenericTypeParam { name: "A".to_string(), kind: GenericTypeParamKind::TypeVar },
    ];
    let (types, specs, packs) = generic_param_name_sets(&f);
    assert_eq!(types, vec!["A".to_string(), "T".to_string()]);
    assert_eq!(specs, vec!["P".to_string()]);
    assert_eq!(packs, vec!["Ts".to_string()]);
    assert!(declaration_has_runtime_generic_paramlist(&f));
    assert!(!declaration_has_runtime_generic_paramlist(&base_decl("g", DeclarationKind::Function)));
    let mut s = GenericSolution::empty();
    assert_eq!(unresolved_generic_instantiation_params(&f, &s), vec!["P".to_string(), "Ts".to_string()]);
    insert_param_spec_binding(&mut s, "P", ParamListBinding { params: vec![] });
    assert_eq!(unresolved_generic_instantiation_params(&f, &s), vec!["Ts".to_string()]);
}

fn kinded(name: &str, bases: &[&str], kind: DeclarationOwnerKind) -> Declaration {
    let mut d = class(name, bases);
    d.class_kind = Some(kind);
    d
}

#[test]
fn descent_follows_bases_across_modules_and_survives_cycles() {
    let lib = module("lib", vec![kinded("Shape", &[], DeclarationOwnerKind::SealedClass), class("Round", &["Shape"])]);
    let app = module(
        "app",
        vec![import("Round", "lib.Round"), class("Circle", &["Round"]), class("Loop", &["Loop"]), class("Plain", &["object"])],
    );
    let nodes = vec![lib];
    let circle = app.declarations[1].duplicate();
    assert!(sealed_descends_from(&nodes, &app, &circle, "Shape"));
    let looped = app.declarations[2].duplicate();
    assert!(!sealed_descends_from(&nodes, &app, &looped, "Shape"));
    assert!(sealed_descends_from(&nodes, &app, &looped, "Loop"));
    let plain = app.declarations[3].duplicate();
    assert!(!sealed_descends_from(&nodes, &app, &plain, "Shape"));
    let (m, root) = resolve_sealed_root(&nodes, &app, "Circle").unwrap();
    assert_eq!((m.module_key.as_str(), root.name.as_str()), ("lib", "Shape"));
    assert!(resolve_sealed_root(&nodes, &app, "Plain").is_none());
    assert!(resolve_sealed_root(&nodes, &app, "Loop").is_none());
}

#[test]
fn interfaces_are_found_up_the_bases() {
    let m = module(
        "m",
        vec![kinded("Proto", &[], DeclarationOwnerKind::Interface), class("Mid", &["Proto"]), class("Leaf", &["Mid"]), class("Other", &[])],
    );
    let leaf = m.declarations[2].duplicate();
    assert!(is_interface_like_declaration(&m, &leaf, &vec![]));
    let other = m.declarations[3].duplicate();
    assert!(!is_interface_like_declaration(&m, &other, &vec![]));
}

use typepython_checking::exhaustiveness::{sealed_match_exhaustiveness_diagnostic, sealed_match_exhaustiveness_diagnostics};
use typepython_checking::match_cases::{MatchCaseSite, MatchSite};
use typepython_checking::semantic_types::MatchPattern;

fn sealed_module() -> ModuleDeclarations {
    module(
        "shapes",
        vec![
            kinded("Shape", &[], DeclarationOwnerKind::SealedClass),
            class("Circle", &["Shape"]),
            class("Square", &["Shape"]),
            class("Rounded", &["Square"]),
        ],
    )
}

fn case(line: usize, guard: bool, patterns: Vec<MatchPattern>) -> MatchCaseSite {
    MatchCaseSite { line, has_guard: guard, patterns }
}

#[test]
fn sealed_match_reports_missing_subclasses_with_suggested_arms() {
    let m = sealed_module();
    let site = MatchSite { line: 2, cases: vec![case(3, false, vec![MatchPattern::Class("Circle".to_string())])] };
    let source = "def f(s):\n    match s:\n        case Circle():\n            pass\n    return 1\n";
    let d = sealed_match_exhaustiveness_diagnostic(&m, &vec![], &site, "Shape", Some(source)).unwrap();
    assert_eq!(d.code, "TPY4009");
    assert_eq!(
        d.message,
        "non-exhaustive `match` over sealed root `Shape` in module `shapes.tpy`; missing subclasses: Rounded, Square"
    );
    assert_eq!(d.suggestions.len(), 1);
    assert_eq!(d.suggestions[0].message, "Add missing `match` case arms");
    assert_eq!(d.suggestions[0].span.line, 5);
    assert_eq!(d.suggestions[0].replacement, "        case Rounded:\n            ...\n        case Square:\n            ...\n");
    let none = sealed_match_exhaustiveness_diagnostic(&m, &vec![], &site, "Shape", None).unwrap();
    assert!(none.suggestions.is_empty());
}

#[test]
fn sealed_match_is_exhaustive_with_wildcards_or_covering_classes() {
    let m = sealed_module();
    let wildcard = MatchSite { line: 1, cases: vec![case(2, false, vec![MatchPattern::Wildcard])] };
    assert!(sealed_match_exhaustiveness_diagnostic(&m, &vec![], &wildcard, "Shape", None).is_none());
    let guarded = MatchSite { line: 1, cases: vec![case(2, true, vec![MatchPattern::Wildcard])] };
    assert!(sealed_match_exhaustiveness_diagnostic(&m, &vec![], &guarded, "Shape", None).is_some());
    let covering = MatchSite {
        line: 1,
        cases: vec![
            case(2, false, vec![MatchPattern::Class("Circle".to_string())]),
            case(3, false, vec![MatchPattern::Class("Square".to_string())]),
        ],
    };
    assert!(sealed_match_exhaustiveness_diagnostic(&m, &vec![], &covering, "Shape", None).is_none());
    let root = MatchSite { line: 1, cases: vec![case(2, false, vec![MatchPattern::Class("Shape".to_string())])] };
    assert!(sealed_match_exhaustiveness_diagnostic(&m, &vec![], &root, "Shape", None).is_none());
    assert!(sealed_match_exhaustiveness_diagnostic(&m, &vec![], &root, "Unknown", None).is_none());
    let all = sealed_match_exhaustiveness_diagnostics(
        &m,
        &vec![],
        &vec![(covering, Some("Circle".to_string())), (root, None), (guarded, Some("Square".to_string()))],
        None,
    );
    assert_eq!(all.len(), 1);
    assert!(all[0].message.contains("missing subclasses: Circle, Rounded, Square"));
}

use typepython_checking::import_checks::unresolved_import_diagnostics;

#[test]
fn same_project_imports_must_resolve() {
    let lib = module("pkg.lib", vec![class("Thing", &[])]);
    let app = module(
        "pkg.app",
        vec![
            import("lib", "pkg.lib"),
            import("Thing", "pkg.lib.Thing"),
            import("Gone", "pkg.lib.Gone"),
            import("os", "os.path"),
            import("other", "pkg.missing"),
        ],
    );
    let nodes = vec![lib, module("pkg.app", vec![])];
    assert_eq!(
        messages(&unresolved_import_diagnostics(&app, &nodes)),
        vec![
            "TPY3001 module `pkg.app.tpy` imports unresolved same-project target `pkg.lib.Gone`".to_string(),
            "TPY3001 module `pkg.app.tpy` imports unresolved same-project target `pkg.missing`".to_string(),
        ]
    );
}

#[test]
fn overriding_methods_without_marker_are_reported_with_an_edit() {
    let mut marked = method("Child", "stop");
    marked.is_override = true;
    let m = module(
        "m",
        vec![
            class("Base", &[]),
            method("Base", "run"),
            method("Base", "stop"),
            method("Base", "walk"),
            class("Child", &["Base"]),
            method("Child", "run"),
            marked,
            method("Child", "walk"),
            method("Child", "fresh"),
        ],
    );
    let insertions = vec![OverrideInsertion {
        owner: "Child".to_string(),
        member: "run".to_string(),
        span: Span::new("m.tpy".to_string(), 7, 5, 7, 5),
    }];
    let ds = missing_override_diagnostics(&m, &vec![], &insertions);
    assert_eq!(
        messages(&ds),
        vec![
            "TPY4005 member `run` in type `Child` in module `m.tpy` overrides a direct base member but is missing @override".to_string(),
            "TPY4005 member `walk` in type `Child` in module `m.tpy` overrides a direct base member but is missing @override".to_string(),
        ]
    );
    assert_eq!(ds[0].suggestions.len(), 1);
    let s = &ds[0].suggestions[0];
    assert_eq!(s.message, "Insert `@override` above the overriding method");
    assert_eq!(s.replacement, "@override\n");
    assert_eq!((s.span.path.as_str(), s.span.line, s.span.column), ("m.tpy", 7, 5));
    assert!(matches!(s.applicability, SuggestionApplicability::MachineApplicable));
    assert!(ds[1].suggestions.is_empty());
}

#[test]
fn class_surfaces_are_open_only_through_unresolved_bases() {
    let m = module(
        "m",
        vec![
            class("Closed", &["object", "Generic[T]", "typing.Protocol"]),
            class("Child", &["Closed", "Mixin[int]"]),
            class("Mixin", &[]),
            class("Loose", &["Closed", "external.Thing"]),
            class("Deep", &["Loose"]),
            class("A", &["B"]),
            class("B", &["A"]),
        ],
    );
    let nodes = vec![];
    let open = |name: &str| {
        let d = m.declarations.iter().find(|d| d.name == name).unwrap();
        class_surface_is_open(&nodes, &m, d, &mut vec![])
    };
    assert!(!open("Closed"));
    assert!(!open("Child"));
    assert!(open("Loose"));
    assert!(open("Deep"));
    assert!(!open("A"));
    let d = m.declarations.iter().find(|d| d.name == "Loose").unwrap();
    let mut seen = vec![("m".to_string(), "Loose".to_string())];
    assert!(!class_surface_is_open(&nodes, &m, d, &mut seen));
}
