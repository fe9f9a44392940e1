//! Following tainted values from sources through local variables into sinks.
use vstd::prelude::*;
use crate::diagnostics::{Diagnostic, DiagnosticView, Span, Severity, spec_diagnostic, spec_point_span};
use crate::effect_summary::{SummaryKey, opt_view, clone_opt, opt_str_eq};
use crate::taint::{
    TaintContexts, TaintFacts, TaintFactKind, SpecTaintFact, spec_contexts_for_kind, opt_contexts,
    spec_matching_required, spec_unsanitized_after, taint_source_contexts, taint_sanitizer_contexts,
    taint_sink_contexts, taint_contexts_matching_required, unsanitized_contexts_after_sanitizer,
};
use crate::text::{owned, str_eq};
use crate::table::KeyTable;

verus! {

/// The parts of an expression's metadata that call-edge and taint analysis read.
#[derive(Debug)]
pub struct ExprMeta {
    pub value_callee: Option<String>,
    pub value_method_owner_name: Option<String>,
    pub value_method_name: Option<String>,
    pub value_name: Option<String>,
    pub value_subscript_target: Option<Box<ExprMeta>>,
    pub value_if_true: Option<Box<ExprMeta>>,
    pub value_if_false: Option<Box<ExprMeta>>,
    pub value_bool_left: Option<Box<ExprMeta>>,
    pub value_bool_right: Option<Box<ExprMeta>>,
    pub value_binop_left: Option<Box<ExprMeta>>,
    pub value_binop_right: Option<Box<ExprMeta>>,
    pub value_list_elements: Option<Vec<ExprMeta>>,
    pub value_set_elements: Option<Vec<ExprMeta>>,
    pub value_dict_entries: Option<Vec<DictEntryMeta>>,
    pub value_list_comprehension: Option<Box<ComprehensionMeta>>,
    pub value_generator_comprehension: Option<Box<ComprehensionMeta>>,
}

/// An entry `key: value` of a dictionary display; the key is absent for `**mapping`.
#[derive(Debug)]
pub struct DictEntryMeta {
    pub key_value: Option<Box<ExprMeta>>,
    pub value: ExprMeta,
}

/// A comprehension: its key (for a dictionary comprehension), its element, and the iterated
/// expression of each `for` clause.
#[derive(Debug)]
pub struct ComprehensionMeta {
    pub key: Option<Box<ExprMeta>>,
    pub element: ExprMeta,
    pub clause_iters: Vec<ExprMeta>,
}

/// The taint facts of decorated callables, keyed by owner type (none for functions) and name.
pub type TaintDecorations = KeyTable<TaintFacts>;

/// The contexts in which local variables hold tainted values, keyed by owning function and
/// variable name.
pub type TaintedLocals = KeyTable<TaintContexts>;

/// The plain-value view of decorations.
pub type DecorationsView = Map<SummaryKey, Set<SpecTaintFact>>;

/// The plain-value view of tainted locals.
pub type LocalsView = Map<SummaryKey, Set<Option<Seq<char>>>>;

/// The facts of a decorated callable, if it is decorated.
pub open spec fn facts_of(dec: DecorationsView, key: SummaryKey) -> Option<Set<SpecTaintFact>> {
    if dec.contains_key(key) {
        Some(dec[key])
    } else {
        None
    }
}

/// The contexts of facts of `kind` among optional facts.
pub open spec fn kind_contexts(facts: Option<Set<SpecTaintFact>>, kind: TaintFactKind) -> Option<Set<Option<Seq<char>>>> {
    match facts {
        Some(f) => spec_contexts_for_kind(f, kind),
        None => None,
    }
}

/// The facts of a method call's target, when both the owner and the method are known.
pub open spec fn spec_method_facts(
    dec: DecorationsView,
    owner: Option<Seq<char>>,
    method: Option<Seq<char>>,
) -> Option<Set<SpecTaintFact>> {
    match (owner, method) {
        (Some(o), Some(m)) => facts_of(dec, (Some(o), m)),
        _ => None,
    }
}

/// The contexts reached through an optional sub-expression.
pub open spec fn spec_child_contexts(
    child: Option<Box<ExprMeta>>,
    dec: DecorationsView,
    locals: LocalsView,
    owner: Option<Seq<char>>,
    required: Option<Set<Option<Seq<char>>>>,
) -> Set<Option<Seq<char>>>
    decreases child,
{
    match child {
        Some(b) => spec_arg_contexts(*b, dec, locals, owner, required),
        None => Set::empty(),
    }
}

/// The taint contexts an expression carries (restricted to `required` when given): from a
/// source callee or method, from a tainted local, or from its sub-expressions; a sanitizer
/// callee or method instead leaves only the required contexts it does not cover.
pub open spec fn spec_arg_contexts(
    arg: ExprMeta,
    dec: DecorationsView,
    locals: LocalsView,
    owner: Option<Seq<char>>,
    required: Option<Set<Option<Seq<char>>>>,
) -> Set<Option<Seq<char>>>
    decreases arg,
{
    let callee_facts = match arg.value_callee {
        Some(c) => facts_of(dec, (None, c@)),
        None => None,
    };
    let method_facts = spec_method_facts(dec, opt_view(arg.value_method_owner_name), opt_view(arg.value_method_name));
    if let Some(san) = kind_contexts(callee_facts, TaintFactKind::Sanitizer) {
        spec_unsanitized_after(san, required)
    } else if let Some(san) = kind_contexts(method_facts, TaintFactKind::Sanitizer) {
        spec_unsanitized_after(san, required)
    } else {
        let from_callee = match kind_contexts(callee_facts, TaintFactKind::Source) {
            Some(src) => spec_matching_required(src, required),
            None => Set::empty(),
        };
        let from_method = match kind_contexts(method_facts, TaintFactKind::Source) {
            Some(src) => spec_matching_required(src, required),
            None => Set::empty(),
        };
        let from_local = match arg.value_name {
            Some(n) => if locals.contains_key((owner, n@)) {
                spec_matching_required(locals[(owner, n@)], required)
            } else {
                Set::empty()
            },
            None => Set::empty(),
        };
        from_callee.union(from_method).union(from_local).union(
            spec_child_contexts(arg.value_subscript_target, dec, locals, owner, required),
        ).union(spec_child_contexts(arg.value_if_true, dec, locals, owner, required)).union(
            spec_child_contexts(arg.value_if_false, dec, locals, owner, required),
        ).union(spec_child_contexts(arg.value_bool_left, dec, locals, owner, required)).union(
            spec_child_contexts(arg.value_bool_right, dec, locals, owner, required),
        ).union(spec_child_contexts(arg.value_binop_left, dec, locals, owner, required)).union(
            spec_child_contexts(arg.value_binop_right, dec, locals, owner, required),
        )
    }
}

/// The view of an optional borrowed context set.
pub open spec fn opt_required(r: Option<&TaintContexts>) -> Option<Set<Option<Seq<char>>>> {
    match r {
        Some(c) => Some(c@),
        None => None,
    }
}

/// The view of an optional borrowed string.
pub open spec fn opt_str(o: Option<&str>) -> Option<Seq<char>> {
    match o {
        Some(s) => Some(s@),
        None => None,
    }
}

/// The facts of a method call's target, when both the owner and the method are known.
pub fn taint_method_facts<'a>(
    decorated: &'a TaintDecorations,
    owner_name: Option<&str>,
    method_name: Option<&str>,
) -> (res: Option<&'a TaintFacts>)
    requires
        decorated.wf(),
    ensures
        match res {
            Some(f) => spec_method_facts(decorated@, opt_str(owner_name), opt_str(method_name)) == Some(f@),
            None => spec_method_facts(decorated@, opt_str(owner_name), opt_str(method_name)) is None,
        },
{
    let owner = match owner_name {
        Some(o) => o,
        None => {
            return None;
        },
    };
    let method = match method_name {
        Some(m) => m,
        None => {
            return None;
        },
    };
    decorated.get(&Some(owned(owner)), method)
}

fn child_contexts(
    child: &Option<Box<ExprMeta>>,
    decorated: &TaintDecorations,
    tainted_locals: &TaintedLocals,
    owner_name: &Option<String>,
    required: Option<&TaintContexts>,
) -> (res: TaintContexts)
    requires
        decorated.wf(),
        tainted_locals.wf(),
    ensures
        res@ == spec_child_contexts(*child, decorated@, tainted_locals@, opt_view(*owner_name), opt_required(required)),
    decreases child,
{
    match child {
        Some(b) => argument_taint_contexts(b, decorated, tainted_locals, owner_name, required),
        None => TaintContexts::new(),
    }
}

/// The taint contexts an expression carries, restricted to `required_contexts` when given.
pub fn argument_taint_contexts(
    arg: &ExprMeta,
    decorated: &TaintDecorations,
    tainted_locals: &TaintedLocals,
    owner_name: &Option<String>,
    required_contexts: Option<&TaintContexts>,
) -> (res: TaintContexts)
    requires
        decorated.wf(),
        tainted_locals.wf(),
    ensures
        res@ == spec_arg_contexts(*arg, decorated@, tainted_locals@, opt_view(*owner_name), opt_required(required_contexts)),
    decreases arg,
{
    let none: Option<String> = None;
    let callee_facts = match &arg.value_callee {
        Some(c) => decorated.get(&none, c),
        None => None,
    };
    let method_facts = taint_method_facts(
        decorated,
        match &arg.value_method_owner_name {
            Some(o) => Some(o.as_str()),
            None => None,
        },
        match &arg.value_method_name {
            Some(m) => Some(m.as_str()),
            None => None,
        },
    );
    let mut contexts = TaintContexts::new();
    if let Some(facts) = callee_facts {
        if let Some(san) = taint_sanitizer_contexts(facts) {
            return unsanitized_contexts_after_sanitizer(&san, required_contexts);
        }
    }
    if let Some(facts) = method_facts {
        if let Some(san) = taint_sanitizer_contexts(facts) {
            return unsanitized_contexts_after_sanitizer(&san, required_contexts);
        }
    }
    if let Some(facts) = callee_facts {
        if let Some(src) = taint_source_contexts(facts) {
            contexts.extend(&taint_contexts_matching_required(&src, required_contexts));
        }
    }
    if let Some(facts) = method_facts {
        if let Some(src) = taint_source_contexts(facts) {
            contexts.extend(&taint_contexts_matching_required(&src, required_contexts));
        }
    }
    if let Some(name) = &arg.value_name {
        if let Some(local) = tainted_locals.get(owner_name, name) {
            contexts.extend(&taint_contexts_matching_required(local, required_contexts));
        }
    }
    contexts.extend(&child_contexts(&arg.value_subscript_target, decorated, tainted_locals, owner_name, required_contexts));
    contexts.extend(&child_contexts(&arg.value_if_true, decorated, tainted_locals, owner_name, required_contexts));
    contexts.extend(&child_contexts(&arg.value_if_false, decorated, tainted_locals, owner_name, required_contexts));
    contexts.extend(&child_contexts(&arg.value_bool_left, decorated, tainted_locals, owner_name, required_contexts));
    contexts.extend(&child_contexts(&arg.value_bool_right, decorated, tainted_locals, owner_name, required_contexts));
    contexts.extend(&child_contexts(&arg.value_binop_left, decorated, tainted_locals, owner_name, required_contexts));
    contexts.extend(&child_contexts(&arg.value_binop_right, decorated, tainted_locals, owner_name, required_contexts));
    proof {
        assert(contexts@ =~= spec_arg_contexts(*arg, decorated@, tainted_locals@, opt_view(*owner_name), opt_required(required_contexts)));
    }
    contexts
}

/// Whether an argument still carries taint in one of the sink's contexts.
pub fn argument_is_unsanitized_source(
    arg: &ExprMeta,
    decorated: &TaintDecorations,
    tainted_locals: &TaintedLocals,
    owner_name: &Option<String>,
    required_contexts: &TaintContexts,
) -> (res: bool)
    requires
        decorated.wf(),
        tainted_locals.wf(),
    ensures
        res == (spec_arg_contexts(*arg, decorated@, tainted_locals@, opt_view(*owner_name), Some(required_contexts@))
            != Set::<Option<Seq<char>>>::empty()),
{
    !argument_taint_contexts(arg, decorated, tainted_locals, owner_name, Some(required_contexts)).is_empty()
}

} // verus!
