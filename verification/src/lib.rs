use vstd::prelude::*;

pub mod text;
pub mod diagnostics;
pub mod effect_row;
pub mod effect_summary;
pub mod taint;
pub mod decorators;
pub mod owners;
pub mod inference;
pub mod effect_diagnostics;
pub mod table;
pub mod ordering;
pub mod sites;
pub mod taint_check;
pub mod taint_flow;
pub mod declarations;
pub mod declaration_laws;
pub mod annotations;
pub mod typed_dict;
pub mod typed_dict_mutations;
pub mod signatures;
pub mod effect_collect;
pub mod call_edges;
pub mod capability_check;
pub mod semantic_types;
pub mod declaration_semantics;
pub mod reporting;
pub mod return_trace;
pub mod match_cases;
pub mod generic_solution;
pub mod hierarchy;
pub mod class_checks;
pub mod exhaustiveness;
pub mod import_checks;
pub mod dataclass_checks;
pub mod dataclass_shapes;
pub mod frozen_fields;
pub mod attribute_writes;
pub mod augmented_assignments;
pub mod member_guards;
pub mod source_calls;
pub mod argument_types;
pub mod method_call_variants;
pub mod variant_merge;
pub mod property_setters;
pub mod warning_laws;
pub mod check_laws;
pub mod laws;

verus! {

} // verus!
