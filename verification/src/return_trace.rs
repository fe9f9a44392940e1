//! How a `return` statement is described in a return-type inference trace.
use vstd::prelude::*;
use crate::effect_summary::{opt_view, opt_str_eq};
use crate::sites::ReturnSite;
use crate::text::{owned, str_eq};

verus! {

/// Whether two returns belong to the same function or method.
pub fn same_return_owner(left: &ReturnSite, right: &ReturnSite) -> (res: bool)
    ensures
        res == (left.owner_name@ == right.owner_name@ && opt_view(left.owner_type_name) == opt_view(
            right.owner_type_name,
        )),
{
    str_eq(&left.owner_name, &right.owner_name) && opt_str_eq(&left.owner_type_name, &right.owner_type_name)
}

/// How a return is described: a bare return, the name, member, method or function it returns
/// or calls, a keyed subscript, a lambda, a literal, or an expression, in that order of
/// preference.
pub open spec fn spec_describe_return(r: ReturnSite) -> Seq<char> {
    if r.value_name is None && r.value_member_name is None && r.value_method_name is None
        && r.value_callee is None && !r.value_has_lambda && !r.value_has_list_elements
        && !r.value_has_set_elements && !r.value_has_dict_entries && !r.value_has_subscript_target {
        "bare return"@
    } else if r.value_name is Some {
        "return "@ + r.value_name.unwrap()@
    } else if r.value_member_owner_name is Some && r.value_member_name is Some {
        "return "@ + r.value_member_owner_name.unwrap()@ + "."@ + r.value_member_name.unwrap()@
    } else if r.value_method_owner_name is Some && r.value_method_name is Some {
        "return "@ + r.value_method_owner_name.unwrap()@ + "."@ + r.value_method_name.unwrap()@
            + "(...)"@
    } else if r.value_callee is Some {
        "return "@ + r.value_callee.unwrap()@ + "(...)"@
    } else if r.value_subscript_string_key is Some {
        "return [...][\""@ + r.value_subscript_string_key.unwrap()@ + "\"]"@
    } else if r.value_has_lambda {
        "return lambda"@
    } else if r.value_has_dict_entries {
        "return dict literal"@
    } else if r.value_has_list_elements {
        "return list literal"@
    } else if r.value_has_set_elements {
        "return set literal"@
    } else {
        "return expression"@
    }
}

/// How a return is described in a return-type inference trace.
pub fn describe_return_trace_expression(return_site: &ReturnSite) -> (res: String)
    ensures
        res@ == spec_describe_return(*return_site),
{
    let r = return_site;
    if r.value_name.is_none() && r.value_member_name.is_none() && r.value_method_name.is_none()
        && r.value_callee.is_none() && !r.value_has_lambda && !r.value_has_list_elements
        && !r.value_has_set_elements && !r.value_has_dict_entries && !r.value_has_subscript_target {
        return owned("bare return");
    }
    if let Some(name) = &r.value_name {
        let mut s = owned("return ");
        s.append(name);
        return s;
    }
    if let (Some(owner), Some(member)) = (&r.value_member_owner_name, &r.value_member_name) {
        let mut s = owned("return ");
        s.append(owner);
        s.append(".");
        s.append(member);
        return s;
    }
    if let (Some(owner), Some(method)) = (&r.value_method_owner_name, &r.value_method_name) {
        let mut s = owned("return ");
        s.append(owner);
        s.append(".");
        s.append(method);
        s.append("(...)");
        return s;
    }
    if let Some(callee) = &r.value_callee {
        let mut s = owned("return ");
        s.append(callee);
        s.append("(...)");
        return s;
    }
    if let Some(key) = &r.value_subscript_string_key {
        let mut s = owned("return [...][\"");
        s.append(key);
        s.append("\"]");
        return s;
    }
    if r.value_has_lambda {
        return owned("return lambda");
    }
    if r.value_has_dict_entries {
        return owned("return dict literal");
    }
    if r.value_has_list_elements {
        return owned("return list literal");
    }
    if r.value_has_set_elements {
        return owned("return set literal");
    }
    owned("return expression")
}

} // verus!
