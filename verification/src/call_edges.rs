//! The calls a module's functions and methods make, as call edges from an owner to a callee,
//! read from the metadata of the expressions and guards in their bodies.
use vstd::prelude::*;
use crate::effect_summary::{SummaryKey, opt_view, clone_opt};
use crate::inference::{EffectCallCallee, EffectCallEdge, EdgeView};
use crate::taint_flow::{ExprMeta, DictEntryMeta, ComprehensionMeta};
use crate::sites::{
    AssignmentSite, ReturnSite, OwnedExprSite, GuardCondition, GuardSite, DirectCallContextSite,
    CallSite, MethodCallSite, ModuleSites,
};
use crate::table::{LineTable, LineKey};

verus! {

/// The edges taken by their views.
pub open spec fn edge_views(s: Seq<EffectCallEdge>) -> Seq<EdgeView> {
    s.map_values(|e: EffectCallEdge| e.spec_view())
}

/// The edge from `owner` to a function.
pub open spec fn function_edge(owner: SummaryKey, callee: Seq<char>, line: int) -> EdgeView {
    EdgeView { owner_key: owner, callee_key: (None, callee), line }
}

/// The edge from `owner` to a method of a type.
pub open spec fn method_edge(owner: SummaryKey, owner_type: Seq<char>, method: Seq<char>, line: int) -> EdgeView {
    EdgeView { owner_key: owner, callee_key: (Some(owner_type), method), line }
}

/// The edge of an expression's own call of a function, if it makes one.
pub open spec fn spec_own_call(e: ExprMeta, owner: SummaryKey, line: int) -> Seq<EdgeView> {
    match e.value_callee {
        Some(c) => seq![function_edge(owner, c@, line)],
        None => Seq::empty(),
    }
}

/// The edge of an expression's own call of a method, if both receiver type and method are known.
pub open spec fn spec_own_method(e: ExprMeta, owner: SummaryKey, line: int) -> Seq<EdgeView> {
    match (e.value_method_owner_name, e.value_method_name) {
        (Some(o), Some(m)) => seq![method_edge(owner, o@, m@, line)],
        _ => Seq::empty(),
    }
}

/// The edges of an expression: its own call of a function, then of a method (when both the
/// receiver type and the method are known), then those of its sub-expressions, elements,
/// dictionary entries and comprehensions, in that order.
pub open spec fn spec_expr_edges(e: ExprMeta, owner: SummaryKey, line: int) -> Seq<EdgeView>
    decreases e,
{
    spec_own_call(e, owner, line) + spec_own_method(e, owner, line) + spec_opt_expr_edges(e.value_subscript_target, owner, line)
        + spec_opt_expr_edges(e.value_bool_left, owner, line) + spec_opt_expr_edges(
        e.value_bool_right,
        owner,
        line,
    ) + spec_opt_expr_edges(e.value_if_true, owner, line) + spec_opt_expr_edges(
        e.value_if_false,
        owner,
        line,
    ) + spec_opt_expr_edges(e.value_binop_left, owner, line) + spec_opt_expr_edges(
        e.value_binop_right,
        owner,
        line,
    ) + spec_opt_exprs_edges(e.value_list_elements, owner, line) + spec_opt_exprs_edges(
        e.value_set_elements,
        owner,
        line,
    ) + spec_opt_entries_edges(e.value_dict_entries, owner, line) + spec_opt_comprehension_edges(
        e.value_list_comprehension,
        owner,
        line,
    ) + spec_opt_comprehension_edges(e.value_generator_comprehension, owner, line)
}

/// The edges of an optional expression.
pub open spec fn spec_opt_expr_edges(e: Option<Box<ExprMeta>>, owner: SummaryKey, line: int) -> Seq<
    EdgeView,
>
    decreases e,
{
    match e {
        Some(b) => spec_expr_edges(*b, owner, line),
        None => Seq::empty(),
    }
}

/// The edges of a list of expressions, in order.
pub open spec fn spec_exprs_edges(s: Seq<ExprMeta>, owner: SummaryKey, line: int) -> Seq<EdgeView>
    decreases s,
{
    if s.len() == 0 {
        Seq::empty()
    } else {
        spec_exprs_edges(s.drop_last(), owner, line) + spec_expr_edges(s.last(), owner, line)
    }
}

/// The edges of an optional list of expressions.
pub open spec fn spec_opt_exprs_edges(s: Option<Vec<ExprMeta>>, owner: SummaryKey, line: int) -> Seq<
    EdgeView,
>
    decreases s,
{
    match s {
        Some(v) => spec_exprs_edges(v@, owner, line),
        None => Seq::empty(),
    }
}

/// The edges of dictionary entries: each key, then each value.
pub open spec fn spec_entries_edges(s: Seq<DictEntryMeta>, owner: SummaryKey, line: int) -> Seq<
    EdgeView,
>
    decreases s,
{
    if s.len() == 0 {
        Seq::empty()
    } else {
        let entry = s.last();
        spec_entries_edges(s.drop_last(), owner, line) + spec_opt_expr_edges(entry.key_value, owner, line)
            + spec_expr_edges(entry.value, owner, line)
    }
}

/// The edges of optional dictionary entries.
pub open spec fn spec_opt_entries_edges(s: Option<Vec<DictEntryMeta>>, owner: SummaryKey, line: int) -> Seq<
    EdgeView,
>
    decreases s,
{
    match s {
        Some(v) => spec_entries_edges(v@, owner, line),
        None => Seq::empty(),
    }
}

/// The edges of a comprehension: its key, its element, then each clause's iterated expression.
pub open spec fn spec_comprehension_edges(c: ComprehensionMeta, owner: SummaryKey, line: int) -> Seq<
    EdgeView,
>
    decreases c,
{
    spec_opt_expr_edges(c.key, owner, line) + spec_expr_edges(c.element, owner, line)
        + spec_exprs_edges(c.clause_iters@, owner, line)
}

/// The edges of an optional comprehension.
pub open spec fn spec_opt_comprehension_edges(
    c: Option<Box<ComprehensionMeta>>,
    owner: SummaryKey,
    line: int,
) -> Seq<EdgeView>
    decreases c,
{
    match c {
        Some(b) => spec_comprehension_edges(*b, owner, line),
        None => Seq::empty(),
    }
}

fn push_function_edge(
    edges: &mut Vec<EffectCallEdge>,
    owner_type_name: &Option<String>,
    owner_name: &str,
    callee: &str,
    line: usize,
)
    ensures
        edge_views(final(edges)@) == edge_views(old(edges)@).push(
            function_edge((opt_view(*owner_type_name), owner_name@), callee@, line as int),
        ),
{
    let ghost before = edge_views(edges@);
    let e = EffectCallEdge {
        owner_type_name: clone_opt(owner_type_name),
        owner_name: owner_name.to_owned(),
        callee: EffectCallCallee::Function(callee.to_owned()),
        line,
    };
    edges.push(e);
    assert(edge_views(edges@) =~= before.push(e.spec_view()));
}

fn push_method_edge(
    edges: &mut Vec<EffectCallEdge>,
    owner_type_name: &Option<String>,
    owner_name: &str,
    callee_owner: &str,
    method: &str,
    line: usize,
)
    ensures
        edge_views(final(edges)@) == edge_views(old(edges)@).push(
            method_edge((opt_view(*owner_type_name), owner_name@), callee_owner@, method@, line as int),
        ),
{
    let ghost before = edge_views(edges@);
    let e = EffectCallEdge {
        owner_type_name: clone_opt(owner_type_name),
        owner_name: owner_name.to_owned(),
        callee: EffectCallCallee::Method {
            owner_type_name: callee_owner.to_owned(),
            method_name: method.to_owned(),
        },
        line,
    };
    edges.push(e);
    assert(edge_views(edges@) =~= before.push(e.spec_view()));
}

fn expr_edges(
    e: &ExprMeta,
    owner_type_name: &Option<String>,
    owner_name: &str,
    line: usize,
    edges: &mut Vec<EffectCallEdge>,
)
    ensures
        edge_views(final(edges)@) == edge_views(old(edges)@) + spec_expr_edges(
            *e,
            (opt_view(*owner_type_name), owner_name@),
            line as int,
        ),
    decreases e,
{
    let ghost owner = (opt_view(*owner_type_name), owner_name@);
    let ghost l = line as int;
    let ghost start = edge_views(edges@);
    match &e.value_callee {
        Some(c) => push_function_edge(edges, owner_type_name, owner_name, c, line),
        None => {},
    }
    let ghost mut acc = spec_own_call(*e, owner, l);
    assert(edge_views(edges@) =~= start + acc);
    match (&e.value_method_owner_name, &e.value_method_name) {
        (Some(o), Some(m)) => push_method_edge(edges, owner_type_name, owner_name, o, m, line),
        _ => {},
    }
    proof {
        lemma_append_assoc(start, acc, spec_own_method(*e, owner, l));
        acc = acc + spec_own_method(*e, owner, l);
    }
    assert(edge_views(edges@) =~= start + acc);
    opt_expr_edges(&e.value_subscript_target, owner_type_name, owner_name, line, edges);
    proof {
        lemma_append_assoc(start, acc, spec_opt_expr_edges(e.value_subscript_target, owner, l));
        acc = acc + spec_opt_expr_edges(e.value_subscript_target, owner, l);
    }
    opt_expr_edges(&e.value_bool_left, owner_type_name, owner_name, line, edges);
    proof {
        lemma_append_assoc(start, acc, spec_opt_expr_edges(e.value_bool_left, owner, l));
        acc = acc + spec_opt_expr_edges(e.value_bool_left, owner, l);
    }
    opt_expr_edges(&e.value_bool_right, owner_type_name, owner_name, line, edges);
    proof {
        lemma_append_assoc(start, acc, spec_opt_expr_edges(e.value_bool_right, owner, l));
        acc = acc + spec_opt_expr_edges(e.value_bool_right, owner, l);
    }
    opt_expr_edges(&e.value_if_true, owner_type_name, owner_name, line, edges);
    proof {
        lemma_append_assoc(start, acc, spec_opt_expr_edges(e.value_if_true, owner, l));
        acc = acc + spec_opt_expr_edges(e.value_if_true, owner, l);
    }
    opt_expr_edges(&e.value_if_false, owner_type_name, owner_name, line, edges);
    proof {
        lemma_append_assoc(start, acc, spec_opt_expr_edges(e.value_if_false, owner, l));
        acc = acc + spec_opt_expr_edges(e.value_if_false, owner, l);
    }
    opt_expr_edges(&e.value_binop_left, owner_type_name, owner_name, line, edges);
    proof {
        lemma_append_assoc(start, acc, spec_opt_expr_edges(e.value_binop_left, owner, l));
        acc = acc + spec_opt_expr_edges(e.value_binop_left, owner, l);
    }
    opt_expr_edges(&e.value_binop_right, owner_type_name, owner_name, line, edges);
    proof {
        lemma_append_assoc(start, acc, spec_opt_expr_edges(e.value_binop_right, owner, l));
        acc = acc + spec_opt_expr_edges(e.value_binop_right, owner, l);
    }
    opt_exprs_edges(&e.value_list_elements, owner_type_name, owner_name, line, edges);
    proof {
        lemma_append_assoc(start, acc, spec_opt_exprs_edges(e.value_list_elements, owner, l));
        acc = acc + spec_opt_exprs_edges(e.value_list_elements, owner, l);
    }
    opt_exprs_edges(&e.value_set_elements, owner_type_name, owner_name, line, edges);
    proof {
        lemma_append_assoc(start, acc, spec_opt_exprs_edges(e.value_set_elements, owner, l));
        acc = acc + spec_opt_exprs_edges(e.value_set_elements, owner, l);
    }
    opt_entries_edges(&e.value_dict_entries, owner_type_name, owner_name, line, edges);
    proof {
        lemma_append_assoc(start, acc, spec_opt_entries_edges(e.value_dict_entries, owner, l));
        acc = acc + spec_opt_entries_edges(e.value_dict_entries, owner, l);
    }
    opt_comprehension_edges(&e.value_list_comprehension, owner_type_name, owner_name, line, edges);
    proof {
        lemma_append_assoc(start, acc, spec_opt_comprehension_edges(e.value_list_comprehension, owner, l));
        acc = acc + spec_opt_comprehension_edges(e.value_list_comprehension, owner, l);
    }
    opt_comprehension_edges(&e.value_generator_comprehension, owner_type_name, owner_name, line, edges);
    proof {
        lemma_append_assoc(start, acc, spec_opt_comprehension_edges(e.value_generator_comprehension, owner, l));
        acc = acc + spec_opt_comprehension_edges(e.value_generator_comprehension, owner, l);
        assert(acc == spec_expr_edges(*e, owner, l));
    }
}

/// Appending is associative.
proof fn lemma_append_assoc(a: Seq<EdgeView>, b: Seq<EdgeView>, c: Seq<EdgeView>)
    ensures
        a + b + c == a + (b + c),
{
    assert(a + b + c =~= a + (b + c));
}

fn opt_expr_edges(
    e: &Option<Box<ExprMeta>>,
    owner_type_name: &Option<String>,
    owner_name: &str,
    line: usize,
    edges: &mut Vec<EffectCallEdge>,
)
    ensures
        edge_views(final(edges)@) == edge_views(old(edges)@) + spec_opt_expr_edges(
            *e,
            (opt_view(*owner_type_name), owner_name@),
            line as int,
        ),
    decreases e,
{
    match e {
        Some(b) => expr_edges(b, owner_type_name, owner_name, line, edges),
        None => {
            assert(edge_views(edges@) =~= edge_views(edges@) + Seq::<EdgeView>::empty());
        },
    }
}

fn exprs_edges(
    v: &Vec<ExprMeta>,
    owner_type_name: &Option<String>,
    owner_name: &str,
    line: usize,
    edges: &mut Vec<EffectCallEdge>,
)
    ensures
        edge_views(final(edges)@) == edge_views(old(edges)@) + spec_exprs_edges(
            v@,
            (opt_view(*owner_type_name), owner_name@),
            line as int,
        ),
    decreases v,
{
    let ghost owner = (opt_view(*owner_type_name), owner_name@);
    let ghost start = edge_views(edges@);
    let n = v.len();
    let mut i: usize = 0;
    assert(v@.take(0) =~= Seq::<ExprMeta>::empty());
    assert(start + Seq::<EdgeView>::empty() =~= start);
    while i < n
        invariant
            n == v@.len(),
            i <= n,
            owner == (opt_view(*owner_type_name), owner_name@),
            edge_views(edges@) == start + spec_exprs_edges(v@.take(i as int), owner, line as int),
        decreases n - i,
    {
        assert(v@.take(i + 1).drop_last() =~= v@.take(i as int));
        assert(v@.take(i + 1).last() == v@[i as int]);
        assert(decreases_to!(v => v@[i as int]));
        expr_edges(&v[i], owner_type_name, owner_name, line, edges);
        i = i + 1;
    }
    assert(v@.take(n as int) =~= v@);
}

fn opt_exprs_edges(
    v: &Option<Vec<ExprMeta>>,
    owner_type_name: &Option<String>,
    owner_name: &str,
    line: usize,
    edges: &mut Vec<EffectCallEdge>,
)
    ensures
        edge_views(final(edges)@) == edge_views(old(edges)@) + spec_opt_exprs_edges(
            *v,
            (opt_view(*owner_type_name), owner_name@),
            line as int,
        ),
    decreases v,
{
    match v {
        Some(items) => exprs_edges(items, owner_type_name, owner_name, line, edges),
        None => {
            assert(edge_views(edges@) =~= edge_views(edges@) + Seq::<EdgeView>::empty());
        },
    }
}

fn entries_edges(
    v: &Vec<DictEntryMeta>,
    owner_type_name: &Option<String>,
    owner_name: &str,
    line: usize,
    edges: &mut Vec<EffectCallEdge>,
)
    ensures
        edge_views(final(edges)@) == edge_views(old(edges)@) + spec_entries_edges(
            v@,
            (opt_view(*owner_type_name), owner_name@),
            line as int,
        ),
    decreases v,
{
    let ghost owner = (opt_view(*owner_type_name), owner_name@);
    let ghost start = edge_views(edges@);
    let n = v.len();
    let mut i: usize = 0;
    assert(v@.take(0) =~= Seq::<DictEntryMeta>::empty());
    assert(start + Seq::<EdgeView>::empty() =~= start);
    while i < n
        invariant
            n == v@.len(),
            i <= n,
            owner == (opt_view(*owner_type_name), owner_name@),
            edge_views(edges@) == start + spec_entries_edges(v@.take(i as int), owner, line as int),
        decreases n - i,
    {
        assert(v@.take(i + 1).drop_last() =~= v@.take(i as int));
        assert(v@.take(i + 1).last() == v@[i as int]);
        let entry = &v[i];
        assert(decreases_to!(v => v@[i as int].key_value));
        assert(decreases_to!(v => v@[i as int].value));
        let ghost mid = edge_views(edges@);
        opt_expr_edges(&entry.key_value, owner_type_name, owner_name, line, edges);
        expr_edges(&entry.value, owner_type_name, owner_name, line, edges);
        i = i + 1;
    }
    assert(v@.take(n as int) =~= v@);
}

fn opt_entries_edges(
    v: &Option<Vec<DictEntryMeta>>,
    owner_type_name: &Option<String>,
    owner_name: &str,
    line: usize,
    edges: &mut Vec<EffectCallEdge>,
)
    ensures
        edge_views(final(edges)@) == edge_views(old(edges)@) + spec_opt_entries_edges(
            *v,
            (opt_view(*owner_type_name), owner_name@),
            line as int,
        ),
    decreases v,
{
    match v {
        Some(items) => entries_edges(items, owner_type_name, owner_name, line, edges),
        None => {
            assert(edge_views(edges@) =~= edge_views(edges@) + Seq::<EdgeView>::empty());
        },
    }
}

fn comprehension_edges(
    c: &ComprehensionMeta,
    owner_type_name: &Option<String>,
    owner_name: &str,
    line: usize,
    edges: &mut Vec<EffectCallEdge>,
)
    ensures
        edge_views(final(edges)@) == edge_views(old(edges)@) + spec_comprehension_edges(
            *c,
            (opt_view(*owner_type_name), owner_name@),
            line as int,
        ),
    decreases c,
{
    let ghost owner = (opt_view(*owner_type_name), owner_name@);
    let ghost start = edge_views(edges@);
    opt_expr_edges(&c.key, owner_type_name, owner_name, line, edges);
    expr_edges(&c.element, owner_type_name, owner_name, line, edges);
    exprs_edges(&c.clause_iters, owner_type_name, owner_name, line, edges);
    assert(edge_views(edges@) =~= start + spec_comprehension_edges(*c, owner, line as int));
}

fn opt_comprehension_edges(
    c: &Option<Box<ComprehensionMeta>>,
    owner_type_name: &Option<String>,
    owner_name: &str,
    line: usize,
    edges: &mut Vec<EffectCallEdge>,
)
    ensures
        edge_views(final(edges)@) == edge_views(old(edges)@) + spec_opt_comprehension_edges(
            *c,
            (opt_view(*owner_type_name), owner_name@),
            line as int,
        ),
    decreases c,
{
    match c {
        Some(b) => comprehension_edges(b, owner_type_name, owner_name, line, edges),
        None => {
            assert(edge_views(edges@) =~= edge_views(edges@) + Seq::<EdgeView>::empty());
        },
    }
}

/// Appends the call edges of an expression in the body of `owner_name` (of `owner_type_name`)
/// on `line`: the calls it makes itself, then those of its parts.
pub fn collect_expr_call_edges(
    value: Option<&ExprMeta>,
    owner_type_name: &Option<String>,
    owner_name: &str,
    line: usize,
    edges: &mut Vec<EffectCallEdge>,
)
    ensures
        edge_views(final(edges)@) == edge_views(old(edges)@) + match value {
            Some(e) => spec_expr_edges(*e, (opt_view(*owner_type_name), owner_name@), line as int),
            None => Seq::<EdgeView>::empty(),
        },
{
    match value {
        Some(e) => expr_edges(e, owner_type_name, owner_name, line, edges),
        None => {
            assert(edge_views(edges@) =~= edge_views(edges@) + Seq::<EdgeView>::empty());
        },
    }
}

/// The edges of the predicate calls in a condition, left to right.
pub open spec fn spec_guard_edges(g: GuardCondition, owner: SummaryKey, line: int) -> Seq<EdgeView>
    decreases g,
{
    match g {
        GuardCondition::PredicateCall { callee } => seq![function_edge(owner, callee@, line)],
        GuardCondition::Not(inner) => spec_guard_edges(*inner, owner, line),
        GuardCondition::And(gs) => spec_guards_edges(gs@, owner, line),
        GuardCondition::Or(gs) => spec_guards_edges(gs@, owner, line),
        _ => Seq::empty(),
    }
}

/// The edges of a list of conditions, in order.
pub open spec fn spec_guards_edges(s: Seq<GuardCondition>, owner: SummaryKey, line: int) -> Seq<EdgeView>
    decreases s,
{
    if s.len() == 0 {
        Seq::empty()
    } else {
        spec_guards_edges(s.drop_last(), owner, line) + spec_guard_edges(s.last(), owner, line)
    }
}

fn guard_edges(
    g: &GuardCondition,
    owner_type_name: &Option<String>,
    owner_name: &str,
    line: usize,
    edges: &mut Vec<EffectCallEdge>,
)
    ensures
        edge_views(final(edges)@) == edge_views(old(edges)@) + spec_guard_edges(
            *g,
            (opt_view(*owner_type_name), owner_name@),
            line as int,
        ),
    decreases g,
{
    match g {
        GuardCondition::PredicateCall { callee } => {
            let ghost before = edge_views(edges@);
            push_function_edge(edges, owner_type_name, owner_name, callee, line);
            assert(edge_views(edges@) =~= before + spec_guard_edges(*g, (opt_view(*owner_type_name), owner_name@), line as int));
        },
        GuardCondition::Not(inner) => guard_edges(inner, owner_type_name, owner_name, line, edges),
        GuardCondition::And(gs) => guards_edges(gs, owner_type_name, owner_name, line, edges),
        GuardCondition::Or(gs) => guards_edges(gs, owner_type_name, owner_name, line, edges),
        _ => {
            assert(edge_views(edges@) =~= edge_views(edges@) + Seq::<EdgeView>::empty());
        },
    }
}

fn guards_edges(
    v: &Vec<GuardCondition>,
    owner_type_name: &Option<String>,
    owner_name: &str,
    line: usize,
    edges: &mut Vec<EffectCallEdge>,
)
    ensures
        edge_views(final(edges)@) == edge_views(old(edges)@) + spec_guards_edges(
            v@,
            (opt_view(*owner_type_name), owner_name@),
            line as int,
        ),
    decreases v,
{
    let ghost owner = (opt_view(*owner_type_name), owner_name@);
    let ghost start = edge_views(edges@);
    let n = v.len();
    let mut i: usize = 0;
    assert(v@.take(0) =~= Seq::<GuardCondition>::empty());
    assert(start + Seq::<EdgeView>::empty() =~= start);
    while i < n
        invariant
            n == v@.len(),
            i <= n,
            owner == (opt_view(*owner_type_name), owner_name@),
            edge_views(edges@) == start + spec_guards_edges(v@.take(i as int), owner, line as int),
        decreases n - i,
    {
        assert(v@.take(i + 1).drop_last() =~= v@.take(i as int));
        assert(v@.take(i + 1).last() == v@[i as int]);
        assert(decreases_to!(v => v@[i as int]));
        guard_edges(&v[i], owner_type_name, owner_name, line, edges);
        i = i + 1;
    }
    assert(v@.take(n as int) =~= v@);
}

/// Appends the edges of the predicate calls in a condition of `owner_name` on `line`.
pub fn collect_guard_call_edges(
    guard: Option<&GuardCondition>,
    owner_type_name: &Option<String>,
    owner_name: &str,
    line: usize,
    edges: &mut Vec<EffectCallEdge>,
)
    ensures
        edge_views(final(edges)@) == edge_views(old(edges)@) + match guard {
            Some(g) => spec_guard_edges(*g, (opt_view(*owner_type_name), owner_name@), line as int),
            None => Seq::<EdgeView>::empty(),
        },
{
    match guard {
        Some(g) => guard_edges(g, owner_type_name, owner_name, line, edges),
        None => {
            assert(edge_views(edges@) =~= edge_views(edges@) + Seq::<EdgeView>::empty());
        },
    }
}

/// The edges of an optional expression of a statement.
pub open spec fn spec_meta_edges(v: Option<ExprMeta>, owner: SummaryKey, line: int) -> Seq<EdgeView> {
    match v {
        Some(e) => spec_expr_edges(e, owner, line),
        None => Seq::empty(),
    }
}

/// The edges of the assigned values of assignments inside functions.
pub open spec fn spec_assignments_edges(s: Seq<AssignmentSite>) -> Seq<EdgeView>
    decreases s.len(),
{
    if s.len() == 0 {
        Seq::empty()
    } else {
        let a = s.last();
        spec_assignments_edges(s.drop_last()) + match a.owner_name {
            Some(o) => spec_meta_edges(a.value, (opt_view(a.owner_type_name), o@), a.line as int),
            None => Seq::empty(),
        }
    }
}

/// The edges of returned values.
pub open spec fn spec_returns_edges(s: Seq<ReturnSite>) -> Seq<EdgeView>
    decreases s.len(),
{
    if s.len() == 0 {
        Seq::empty()
    } else {
        let r = s.last();
        spec_returns_edges(s.drop_last()) + spec_meta_edges(
            r.value,
            (opt_view(r.owner_type_name), r.owner_name@),
            r.line as int,
        )
    }
}

/// The edges of the expressions of statements inside functions.
pub open spec fn spec_owned_sites_edges(s: Seq<OwnedExprSite>) -> Seq<EdgeView>
    decreases s.len(),
{
    if s.len() == 0 {
        Seq::empty()
    } else {
        let w = s.last();
        spec_owned_sites_edges(s.drop_last()) + match w.owner_name {
            Some(o) => spec_meta_edges(w.value, (opt_view(w.owner_type_name), o@), w.line as int),
            None => Seq::empty(),
        }
    }
}

/// The edges of the conditions of guards inside functions.
pub open spec fn spec_guard_sites_edges(s: Seq<GuardSite>) -> Seq<EdgeView>
    decreases s.len(),
{
    if s.len() == 0 {
        Seq::empty()
    } else {
        let g = s.last();
        spec_guard_sites_edges(s.drop_last()) + match (g.owner_name, g.guard) {
            (Some(o), Some(c)) => spec_guard_edges(c, (opt_view(g.owner_type_name), o@), g.line as int),
            _ => Seq::empty(),
        }
    }
}

/// The edges of direct calls inside functions.
pub open spec fn spec_context_sites_edges(s: Seq<DirectCallContextSite>) -> Seq<EdgeView>
    decreases s.len(),
{
    if s.len() == 0 {
        Seq::empty()
    } else {
        let c = s.last();
        spec_context_sites_edges(s.drop_last()) + match c.owner_name {
            Some(o) => seq![function_edge((opt_view(c.owner_type_name), o@), c.callee@, c.line as int)],
            None => Seq::empty(),
        }
    }
}

/// The owner of each line that some statement inside a function places there; a later statement
/// of the same line replaces an earlier one.
pub open spec fn spec_owner_lookup(sites: ModuleSites) -> Map<LineKey, (Option<String>, Seq<char>)> {
    spec_lookup_method_calls(
        spec_lookup_contexts(
            spec_lookup_returns(spec_lookup_assignments(Map::empty(), sites.assignments@), sites.returns@),
            sites.call_context_sites@,
        ),
        sites.method_calls@,
    )
}

pub open spec fn spec_lookup_assignments(
    m: Map<LineKey, (Option<String>, Seq<char>)>,
    s: Seq<AssignmentSite>,
) -> Map<LineKey, (Option<String>, Seq<char>)>
    decreases s.len(),
{
    if s.len() == 0 {
        m
    } else {
        let prev = spec_lookup_assignments(m, s.drop_last());
        let a = s.last();
        match a.owner_name {
            Some(o) => prev.insert((None, a.line as int), (a.owner_type_name, o@)),
            None => prev,
        }
    }
}

pub open spec fn spec_lookup_returns(
    m: Map<LineKey, (Option<String>, Seq<char>)>,
    s: Seq<ReturnSite>,
) -> Map<LineKey, (Option<String>, Seq<char>)>
    decreases s.len(),
{
    if s.len() == 0 {
        m
    } else {
        let r = s.last();
        spec_lookup_returns(m, s.drop_last()).insert((None, r.line as int), (r.owner_type_name, r.owner_name@))
    }
}

pub open spec fn spec_lookup_contexts(
    m: Map<LineKey, (Option<String>, Seq<char>)>,
    s: Seq<DirectCallContextSite>,
) -> Map<LineKey, (Option<String>, Seq<char>)>
    decreases s.len(),
{
    if s.len() == 0 {
        m
    } else {
        let prev = spec_lookup_contexts(m, s.drop_last());
        let c = s.last();
        match c.owner_name {
            Some(o) => prev.insert((None, c.line as int), (c.owner_type_name, o@)),
            None => prev,
        }
    }
}

pub open spec fn spec_lookup_method_calls(
    m: Map<LineKey, (Option<String>, Seq<char>)>,
    s: Seq<MethodCallSite>,
) -> Map<LineKey, (Option<String>, Seq<char>)>
    decreases s.len(),
{
    if s.len() == 0 {
        m
    } else {
        let prev = spec_lookup_method_calls(m, s.drop_last());
        let c = s.last();
        match c.current_owner_name {
            Some(o) => prev.insert((None, c.line as int), (c.current_owner_type_name, o@)),
            None => prev,
        }
    }
}

fn copy_opt(o: &Option<String>) -> (res: Option<String>)
    ensures
        res == *o,
{
    match o {
        Some(s) => Some(s.clone()),
        None => None,
    }
}

/// The owner (function and type) of each line on which an assignment, return, direct call or
/// method call inside a function stands.
pub fn effect_owner_lookup(sites: &ModuleSites) -> (res: LineTable<(Option<String>, String)>)
    ensures
        res.wf(),
        res@ == spec_owner_lookup(*sites),
{
    let mut owners: LineTable<(Option<String>, String)> = LineTable::new();
    let mut i: usize = 0;
    assert(sites.assignments@.take(0) =~= Seq::<AssignmentSite>::empty());
    while i < sites.assignments.len()
        invariant
            i <= sites.assignments@.len(),
            owners.wf(),
            owners@ == spec_lookup_assignments(Map::empty(), sites.assignments@.take(i as int)),
        decreases sites.assignments@.len() - i,
    {
        let a = &sites.assignments[i];
        assert(sites.assignments@.take(i + 1).drop_last() =~= sites.assignments@.take(i as int));
        assert(sites.assignments@.take(i + 1).last() == *a);
        match &a.owner_name {
            Some(o) => owners.set(None, a.line, (copy_opt(&a.owner_type_name), o.clone())),
            None => {},
        }
        i = i + 1;
    }
    assert(sites.assignments@.take(i as int) =~= sites.assignments@);
    let ghost m1 = owners@;
    let mut i: usize = 0;
    assert(sites.returns@.take(0) =~= Seq::<ReturnSite>::empty());
    while i < sites.returns.len()
        invariant
            i <= sites.returns@.len(),
            owners.wf(),
            owners@ == spec_lookup_returns(m1, sites.returns@.take(i as int)),
        decreases sites.returns@.len() - i,
    {
        let r = &sites.returns[i];
        assert(sites.returns@.take(i + 1).drop_last() =~= sites.returns@.take(i as int));
        assert(sites.returns@.take(i + 1).last() == *r);
        owners.set(None, r.line, (copy_opt(&r.owner_type_name), r.owner_name.clone()));
        i = i + 1;
    }
    assert(sites.returns@.take(i as int) =~= sites.returns@);
    let ghost m2 = owners@;
    let mut i: usize = 0;
    assert(sites.call_context_sites@.take(0) =~= Seq::<DirectCallContextSite>::empty());
    while i < sites.call_context_sites.len()
        invariant
            i <= sites.call_context_sites@.len(),
            owners.wf(),
            owners@ == spec_lookup_contexts(m2, sites.call_context_sites@.take(i as int)),
        decreases sites.call_context_sites@.len() - i,
    {
        let c = &sites.call_context_sites[i];
        assert(sites.call_context_sites@.take(i + 1).drop_last() =~= sites.call_context_sites@.take(i as int));
        assert(sites.call_context_sites@.take(i + 1).last() == *c);
        match &c.owner_name {
            Some(o) => owners.set(None, c.line, (copy_opt(&c.owner_type_name), o.clone())),
            None => {},
        }
        i = i + 1;
    }
    assert(sites.call_context_sites@.take(i as int) =~= sites.call_context_sites@);
    let ghost m3 = owners@;
    let mut i: usize = 0;
    assert(sites.method_calls@.take(0) =~= Seq::<MethodCallSite>::empty());
    while i < sites.method_calls.len()
        invariant
            i <= sites.method_calls@.len(),
            owners.wf(),
            owners@ == spec_lookup_method_calls(m3, sites.method_calls@.take(i as int)),
        decreases sites.method_calls@.len() - i,
    {
        let c = &sites.method_calls[i];
        assert(sites.method_calls@.take(i + 1).drop_last() =~= sites.method_calls@.take(i as int));
        assert(sites.method_calls@.take(i + 1).last() == *c);
        match &c.current_owner_name {
            Some(o) => owners.set(None, c.line, (copy_opt(&c.current_owner_type_name), o.clone())),
            None => {},
        }
        i = i + 1;
    }
    assert(sites.method_calls@.take(i as int) =~= sites.method_calls@);
    owners
}

/// The edges of the four argument lists of a call.
pub open spec fn spec_args_edges(
    a: Seq<ExprMeta>,
    b: Seq<ExprMeta>,
    c: Seq<ExprMeta>,
    d: Seq<ExprMeta>,
    owner: SummaryKey,
    line: int,
) -> Seq<EdgeView> {
    spec_exprs_edges(a, owner, line) + spec_exprs_edges(b, owner, line) + spec_exprs_edges(c, owner, line)
        + spec_exprs_edges(d, owner, line)
}

/// The edges of calls of functions on lines whose owner is known: the call itself, then the
/// calls inside its arguments.
pub open spec fn spec_calls_edges(s: Seq<CallSite>, lookup: Map<LineKey, (Option<String>, Seq<char>)>) -> Seq<
    EdgeView,
>
    decreases s.len(),
{
    if s.len() == 0 {
        Seq::empty()
    } else {
        let c = s.last();
        let l = c.line as int;
        spec_calls_edges(s.drop_last(), lookup) + if lookup.contains_key((None, l)) {
            let owner = (opt_view(lookup[(None, l)].0), lookup[(None, l)].1);
            seq![function_edge(owner, c.callee@, l)] + spec_args_edges(
                c.arg_values@,
                c.starred_arg_values@,
                c.keyword_arg_values@,
                c.keyword_expansion_values@,
                owner,
                l,
            )
        } else {
            Seq::empty()
        }
    }
}

/// The edges of method calls inside functions: the call itself, then the calls inside its
/// arguments.
pub open spec fn spec_method_calls_edges(s: Seq<MethodCallSite>) -> Seq<EdgeView>
    decreases s.len(),
{
    if s.len() == 0 {
        Seq::empty()
    } else {
        let c = s.last();
        let l = c.line as int;
        spec_method_calls_edges(s.drop_last()) + match c.current_owner_name {
            Some(o) => {
                let owner = (opt_view(c.current_owner_type_name), o@);
                seq![method_edge(owner, c.owner_name@, c.method@, l)] + spec_args_edges(
                    c.arg_values@,
                    c.starred_arg_values@,
                    c.keyword_arg_values@,
                    c.keyword_expansion_values@,
                    owner,
                    l,
                )
            },
            None => Seq::empty(),
        }
    }
}

/// All call edges of a module, section by section: assigned values, returned values, yielded
/// values, `if` and `assert` conditions, `match` subjects, `for` iterables, `with` contexts,
/// direct calls, nested direct calls, calls of functions, and method calls.
pub open spec fn spec_module_edges(sites: ModuleSites) -> Seq<EdgeView> {
    spec_assignments_edges(sites.assignments@) + spec_returns_edges(sites.returns@)
        + spec_owned_sites_edges(sites.yields@) + spec_guard_sites_edges(sites.if_guards@)
        + spec_guard_sites_edges(sites.asserts@) + spec_owned_sites_edges(sites.matches@)
        + spec_owned_sites_edges(sites.for_loops@) + spec_owned_sites_edges(sites.with_statements@)
        + spec_context_sites_edges(sites.call_context_sites@) + spec_context_sites_edges(
        sites.nested_call_sites@,
    ) + spec_calls_edges(sites.calls@, spec_owner_lookup(sites)) + spec_method_calls_edges(
        sites.method_calls@,
    )
}

fn assignments_edges(s: &Vec<AssignmentSite>, edges: &mut Vec<EffectCallEdge>)
    ensures
        edge_views(final(edges)@) == edge_views(old(edges)@) + spec_assignments_edges(s@),
{
    let ghost start = edge_views(edges@);
    let mut i: usize = 0;
    assert(s@.take(0) =~= Seq::<AssignmentSite>::empty());
    assert(start + Seq::<EdgeView>::empty() =~= start);
    while i < s.len()
        invariant
            i <= s@.len(),
            edge_views(edges@) == start + spec_assignments_edges(s@.take(i as int)),
        decreases s@.len() - i,
    {
        let a = &s[i];
        assert(s@.take(i + 1).drop_last() =~= s@.take(i as int));
        assert(s@.take(i + 1).last() == *a);
        let ghost mid = edge_views(edges@);
        match &a.owner_name {
            Some(o) => {
                let value = match &a.value {
                    Some(e) => Some(e),
                    None => None,
                };
                collect_expr_call_edges(value, &a.owner_type_name, o, a.line, edges);
            },
            None => {},
        }
        assert(edge_views(edges@) =~= start + spec_assignments_edges(s@.take(i + 1)));
        i = i + 1;
    }
    assert(s@.take(i as int) =~= s@);
}

fn returns_edges(s: &Vec<ReturnSite>, edges: &mut Vec<EffectCallEdge>)
    ensures
        edge_views(final(edges)@) == edge_views(old(edges)@) + spec_returns_edges(s@),
{
    let ghost start = edge_views(edges@);
    let mut i: usize = 0;
    assert(s@.take(0) =~= Seq::<ReturnSite>::empty());
    assert(start + Seq::<EdgeView>::empty() =~= start);
    while i < s.len()
        invariant
            i <= s@.len(),
            edge_views(edges@) == start + spec_returns_edges(s@.take(i as int)),
        decreases s@.len() - i,
    {
        let r = &s[i];
        assert(s@.take(i + 1).drop_last() =~= s@.take(i as int));
        assert(s@.take(i + 1).last() == *r);
        let value = match &r.value {
            Some(e) => Some(e),
            None => None,
        };
        collect_expr_call_edges(value, &r.owner_type_name, &r.owner_name, r.line, edges);
        assert(edge_views(edges@) =~= start + spec_returns_edges(s@.take(i + 1)));
        i = i + 1;
    }
    assert(s@.take(i as int) =~= s@);
}

fn owned_sites_edges(s: &Vec<OwnedExprSite>, edges: &mut Vec<EffectCallEdge>)
    ensures
        edge_views(final(edges)@) == edge_views(old(edges)@) + spec_owned_sites_edges(s@),
{
    let ghost start = edge_views(edges@);
    let mut i: usize = 0;
    assert(s@.take(0) =~= Seq::<OwnedExprSite>::empty());
    assert(start + Seq::<EdgeView>::empty() =~= start);
    while i < s.len()
        invariant
            i <= s@.len(),
            edge_views(edges@) == start + spec_owned_sites_edges(s@.take(i as int)),
        decreases s@.len() - i,
    {
        let w = &s[i];
        assert(s@.take(i + 1).drop_last() =~= s@.take(i as int));
        assert(s@.take(i + 1).last() == *w);
        match &w.owner_name {
            Some(o) => {
                let value = match &w.value {
                    Some(e) => Some(e),
                    None => None,
                };
                collect_expr_call_edges(value, &w.owner_type_name, o, w.line, edges);
            },
            None => {},
        }
        assert(edge_views(edges@) =~= start + spec_owned_sites_edges(s@.take(i + 1)));
        i = i + 1;
    }
    assert(s@.take(i as int) =~= s@);
}

fn guard_sites_edges(s: &Vec<GuardSite>, edges: &mut Vec<EffectCallEdge>)
    ensures
        edge_views(final(edges)@) == edge_views(old(edges)@) + spec_guard_sites_edges(s@),
{
    let ghost start = edge_views(edges@);
    let mut i: usize = 0;
    assert(s@.take(0) =~= Seq::<GuardSite>::empty());
    assert(start + Seq::<EdgeView>::empty() =~= start);
    while i < s.len()
        invariant
            i <= s@.len(),
            edge_views(edges@) == start + spec_guard_sites_edges(s@.take(i as int)),
        decreases s@.len() - i,
    {
        let g = &s[i];
        assert(s@.take(i + 1).drop_last() =~= s@.take(i as int));
        assert(s@.take(i + 1).last() == *g);
        match &g.owner_name {
            Some(o) => {
                let guard = match &g.guard {
                    Some(c) => Some(c),
                    None => None,
                };
                collect_guard_call_edges(guard, &g.owner_type_name, o, g.line, edges);
            },
            None => {},
        }
        assert(edge_views(edges@) =~= start + spec_guard_sites_edges(s@.take(i + 1)));
        i = i + 1;
    }
    assert(s@.take(i as int) =~= s@);
}

fn context_sites_edges(s: &Vec<DirectCallContextSite>, edges: &mut Vec<EffectCallEdge>)
    ensures
        edge_views(final(edges)@) == edge_views(old(edges)@) + spec_context_sites_edges(s@),
{
    let ghost start = edge_views(edges@);
    let mut i: usize = 0;
    assert(s@.take(0) =~= Seq::<DirectCallContextSite>::empty());
    assert(start + Seq::<EdgeView>::empty() =~= start);
    while i < s.len()
        invariant
            i <= s@.len(),
            edge_views(edges@) == start + spec_context_sites_edges(s@.take(i as int)),
        decreases s@.len() - i,
    {
        let c = &s[i];
        assert(s@.take(i + 1).drop_last() =~= s@.take(i as int));
        assert(s@.take(i + 1).last() == *c);
        match &c.owner_name {
            Some(o) => push_function_edge(edges, &c.owner_type_name, o, &c.callee, c.line),
            None => {},
        }
        assert(edge_views(edges@) =~= start + spec_context_sites_edges(s@.take(i + 1)));
        i = i + 1;
    }
    assert(s@.take(i as int) =~= s@);
}

fn args_edges(
    a: &Vec<ExprMeta>,
    b: &Vec<ExprMeta>,
    c: &Vec<ExprMeta>,
    d: &Vec<ExprMeta>,
    owner_type_name: &Option<String>,
    owner_name: &str,
    line: usize,
    edges: &mut Vec<EffectCallEdge>,
)
    ensures
        edge_views(final(edges)@) == edge_views(old(edges)@) + spec_args_edges(
            a@,
            b@,
            c@,
            d@,
            (opt_view(*owner_type_name), owner_name@),
            line as int,
        ),
{
    let ghost owner = (opt_view(*owner_type_name), owner_name@);
    let ghost start = edge_views(edges@);
    let ghost l = line as int;
    exprs_edges(a, owner_type_name, owner_name, line, edges);
    exprs_edges(b, owner_type_name, owner_name, line, edges);
    proof {
        lemma_append_assoc(start, spec_exprs_edges(a@, owner, l), spec_exprs_edges(b@, owner, l));
    }
    exprs_edges(c, owner_type_name, owner_name, line, edges);
    proof {
        lemma_append_assoc(start, spec_exprs_edges(a@, owner, l) + spec_exprs_edges(b@, owner, l), spec_exprs_edges(c@, owner, l));
    }
    exprs_edges(d, owner_type_name, owner_name, line, edges);
    proof {
        lemma_append_assoc(
            start,
            spec_exprs_edges(a@, owner, l) + spec_exprs_edges(b@, owner, l) + spec_exprs_edges(c@, owner, l),
            spec_exprs_edges(d@, owner, l),
        );
    }
}

fn calls_edges(
    s: &Vec<CallSite>,
    lookup: &LineTable<(Option<String>, String)>,
    edges: &mut Vec<EffectCallEdge>,
)
    requires
        lookup.wf(),
    ensures
        edge_views(final(edges)@) == edge_views(old(edges)@) + spec_calls_edges(s@, lookup@),
{
    let ghost start = edge_views(edges@);
    let none: Option<String> = None;
    let mut i: usize = 0;
    assert(s@.take(0) =~= Seq::<CallSite>::empty());
    assert(start + Seq::<EdgeView>::empty() =~= start);
    while i < s.len()
        invariant
            i <= s@.len(),
            lookup.wf(),
            none is None,
            edge_views(edges@) == start + spec_calls_edges(s@.take(i as int), lookup@),
        decreases s@.len() - i,
    {
        let c = &s[i];
        assert(s@.take(i + 1).drop_last() =~= s@.take(i as int));
        assert(s@.take(i + 1).last() == *c);
        let ghost mid = edge_views(edges@);
        match lookup.get(&none, c.line) {
            Some(owner) => {
                let ghost ok = (opt_view(owner.0), owner.1@);
                push_function_edge(edges, &owner.0, &owner.1, &c.callee, c.line);
                args_edges(
                    &c.arg_values,
                    &c.starred_arg_values,
                    &c.keyword_arg_values,
                    &c.keyword_expansion_values,
                    &owner.0,
                    &owner.1,
                    c.line,
                    edges,
                );
                proof {
                    lemma_append_assoc(
                        mid,
                        seq![function_edge(ok, c.callee@, c.line as int)],
                        spec_args_edges(
                            c.arg_values@,
                            c.starred_arg_values@,
                            c.keyword_arg_values@,
                            c.keyword_expansion_values@,
                            ok,
                            c.line as int,
                        ),
                    );
                }
            },
            None => {},
        }
        assert(edge_views(edges@) =~= start + spec_calls_edges(s@.take(i + 1), lookup@));
        i = i + 1;
    }
    assert(s@.take(i as int) =~= s@);
}

fn method_calls_edges(s: &Vec<MethodCallSite>, edges: &mut Vec<EffectCallEdge>)
    ensures
        edge_views(final(edges)@) == edge_views(old(edges)@) + spec_method_calls_edges(s@),
{
    let ghost start = edge_views(edges@);
    let mut i: usize = 0;
    assert(s@.take(0) =~= Seq::<MethodCallSite>::empty());
    assert(start + Seq::<EdgeView>::empty() =~= start);
    while i < s.len()
        invariant
            i <= s@.len(),
            edge_views(edges@) == start + spec_method_calls_edges(s@.take(i as int)),
        decreases s@.len() - i,
    {
        let c = &s[i];
        assert(s@.take(i + 1).drop_last() =~= s@.take(i as int));
        assert(s@.take(i + 1).last() == *c);
        let ghost mid = edge_views(edges@);
        match &c.current_owner_name {
            Some(o) => {
                let ghost ok = (opt_view(c.current_owner_type_name), o@);
                push_method_edge(edges, &c.current_owner_type_name, o, &c.owner_name, &c.method, c.line);
                args_edges(
                    &c.arg_values,
                    &c.starred_arg_values,
                    &c.keyword_arg_values,
                    &c.keyword_expansion_values,
                    &c.current_owner_type_name,
                    o,
                    c.line,
                    edges,
                );
                proof {
                    lemma_append_assoc(
                        mid,
                        seq![method_edge(ok, c.owner_name@, c.method@, c.line as int)],
                        spec_args_edges(
                            c.arg_values@,
                            c.starred_arg_values@,
                            c.keyword_arg_values@,
                            c.keyword_expansion_values@,
                            ok,
                            c.line as int,
                        ),
                    );
                }
            },
            None => {},
        }
        assert(edge_views(edges@) =~= start + spec_method_calls_edges(s@.take(i + 1)));
        i = i + 1;
    }
    assert(s@.take(i as int) =~= s@);
}

/// All call edges of a module: from each statement inside a function or method to what it
/// calls, in the order of `spec_module_edges`.
pub fn effect_call_edges(sites: &ModuleSites) -> (res: Vec<EffectCallEdge>)
    ensures
        edge_views(res@) == spec_module_edges(*sites),
{
    let owner_lookup = effect_owner_lookup(sites);
    let mut edges: Vec<EffectCallEdge> = Vec::new();
    let ghost e0 = edge_views(edges@);
    assert(e0 =~= Seq::<EdgeView>::empty());
    assignments_edges(&sites.assignments, &mut edges);
    let ghost a1 = spec_assignments_edges(sites.assignments@);
    assert(edge_views(edges@) =~= a1);
    returns_edges(&sites.returns, &mut edges);
    let ghost a2 = a1 + spec_returns_edges(sites.returns@);
    owned_sites_edges(&sites.yields, &mut edges);
    let ghost a3 = a2 + spec_owned_sites_edges(sites.yields@);
    guard_sites_edges(&sites.if_guards, &mut edges);
    let ghost a4 = a3 + spec_guard_sites_edges(sites.if_guards@);
    guard_sites_edges(&sites.asserts, &mut edges);
    let ghost a5 = a4 + spec_guard_sites_edges(sites.asserts@);
    owned_sites_edges(&sites.matches, &mut edges);
    let ghost a6 = a5 + spec_owned_sites_edges(sites.matches@);
    owned_sites_edges(&sites.for_loops, &mut edges);
    let ghost a7 = a6 + spec_owned_sites_edges(sites.for_loops@);
    owned_sites_edges(&sites.with_statements, &mut edges);
    let ghost a8 = a7 + spec_owned_sites_edges(sites.with_statements@);
    context_sites_edges(&sites.call_context_sites, &mut edges);
    let ghost a9 = a8 + spec_context_sites_edges(sites.call_context_sites@);
    context_sites_edges(&sites.nested_call_sites, &mut edges);
    let ghost a10 = a9 + spec_context_sites_edges(sites.nested_call_sites@);
    calls_edges(&sites.calls, &owner_lookup, &mut edges);
    let ghost a11 = a10 + spec_calls_edges(sites.calls@, spec_owner_lookup(*sites));
    method_calls_edges(&sites.method_calls, &mut edges);
    assert(edge_views(edges@) == a11 + spec_method_calls_edges(sites.method_calls@));
    edges
}

} // verus!
