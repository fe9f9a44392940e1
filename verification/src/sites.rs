//! The facts about a module's statements that effect and taint checking read: assignments,
//! returns, calls and method calls, with the owner (function and type) they occur in.
use vstd::prelude::*;
use crate::taint_flow::ExprMeta;

verus! {

/// An assignment `name = value` on a line, with its annotation, what the value calls, and,
/// where the value is a binary operation, the name its left operand reads, its operator, and
/// whether it has a right operand.
#[derive(Debug)]
pub struct AssignmentSite {
    pub name: String,
    pub owner_name: Option<String>,
    pub owner_type_name: Option<String>,
    pub line: usize,
    pub annotation: Option<String>,
    pub value: Option<ExprMeta>,
    pub value_callee: Option<String>,
    pub value_method_owner_name: Option<String>,
    pub value_method_name: Option<String>,
    pub value_binop_left_name: Option<String>,
    pub value_binop_operator: Option<String>,
    pub has_value_binop_right: bool,
}

/// A place where names lose what was known of them: its line, the function and class it stands
/// in, the names, and whether it rebinds them as an assignment does.
#[derive(Debug)]
pub struct InvalidationSite {
    pub rebind_like: bool,
    pub line: usize,
    pub owner_name: Option<String>,
    pub owner_type_name: Option<String>,
    pub names: Vec<String>,
}

/// A `return` statement of a function or method, with what the returned value is: the name,
/// member, method or function it reads or calls, and which kind of literal or expression it is.
#[derive(Debug)]
pub struct ReturnSite {
    pub owner_name: String,
    pub owner_type_name: Option<String>,
    pub line: usize,
    pub value: Option<ExprMeta>,
    pub value_callee: Option<String>,
    pub value_method_owner_name: Option<String>,
    pub value_method_name: Option<String>,
    pub value_name: Option<String>,
    pub value_member_owner_name: Option<String>,
    pub value_member_name: Option<String>,
    pub value_subscript_string_key: Option<String>,
    pub value_has_lambda: bool,
    pub value_has_list_elements: bool,
    pub value_has_set_elements: bool,
    pub value_has_dict_entries: bool,
    pub value_has_subscript_target: bool,
}

/// A call of a function by name, with its positional, starred, keyword and `**` argument
/// expressions.
#[derive(Debug)]
pub struct CallSite {
    pub callee: String,
    pub line: usize,
    pub arg_count: usize,
    pub keyword_names: Vec<String>,
    pub arg_values: Vec<ExprMeta>,
    pub starred_arg_values: Vec<ExprMeta>,
    pub keyword_arg_values: Vec<ExprMeta>,
    pub keyword_expansion_values: Vec<ExprMeta>,
}

/// A call of a method on a receiver, with the function or method it occurs in.
#[derive(Debug)]
pub struct MethodCallSite {
    pub current_owner_name: Option<String>,
    pub current_owner_type_name: Option<String>,
    pub owner_name: String,
    pub method: String,
    pub line: usize,
    pub arg_values: Vec<ExprMeta>,
    pub starred_arg_values: Vec<ExprMeta>,
    pub keyword_arg_values: Vec<ExprMeta>,
    pub keyword_expansion_values: Vec<ExprMeta>,
}

/// A direct call of a function by name, with the function or method it occurs in.
#[derive(Debug, Clone)]
pub struct DirectCallContextSite {
    pub owner_name: Option<String>,
    pub owner_type_name: Option<String>,
    pub callee: String,
    pub line: usize,
}

/// A statement whose expression is read for the calls it makes (a `yield`, a `match` subject,
/// a `for` iterable, a `with` context), with the function or method it occurs in.
#[derive(Debug)]
pub struct OwnedExprSite {
    pub owner_name: Option<String>,
    pub owner_type_name: Option<String>,
    pub line: usize,
    pub value: Option<ExprMeta>,
}

/// The condition of an `if` or `assert`, as far as calls in it are concerned.
#[derive(Debug)]
pub enum GuardCondition {
    IsNone,
    IsInstance,
    TruthyName,
    PredicateCall { callee: String },
    Not(Box<GuardCondition>),
    And(Vec<GuardCondition>),
    Or(Vec<GuardCondition>),
}

/// An `if` or `assert` with its condition, in the function or method it occurs in.
#[derive(Debug)]
pub struct GuardSite {
    pub owner_name: Option<String>,
    pub owner_type_name: Option<String>,
    pub line: usize,
    pub guard: Option<GuardCondition>,
}

/// The statements of a module that call-edge, effect and taint analysis read.
#[derive(Debug)]
pub struct ModuleSites {
    pub assignments: Vec<AssignmentSite>,
    pub returns: Vec<ReturnSite>,
    pub yields: Vec<OwnedExprSite>,
    pub if_guards: Vec<GuardSite>,
    pub asserts: Vec<GuardSite>,
    pub matches: Vec<OwnedExprSite>,
    pub for_loops: Vec<OwnedExprSite>,
    pub with_statements: Vec<OwnedExprSite>,
    pub call_context_sites: Vec<DirectCallContextSite>,
    pub nested_call_sites: Vec<DirectCallContextSite>,
    pub calls: Vec<CallSite>,
    pub method_calls: Vec<MethodCallSite>,
}

} // verus!
