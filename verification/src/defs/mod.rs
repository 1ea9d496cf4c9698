//! The definition language.

pub mod arithmetic_laws;
pub mod ast;
pub mod average_laws;
pub mod builtins;
pub mod deps;
pub mod error;
pub mod eval;
pub mod eval_laws;
pub mod eval_scope_laws;
pub mod exact_fold_laws;
pub mod float_fold_laws;
pub mod grammar;
pub mod grammar_laws;
pub mod group_laws;
pub mod invertibility;
pub mod lexer;
pub mod lifecycle;
pub mod lifecycle_laws;
pub mod literal_laws;
pub mod model;
pub mod oid;
pub mod occurrence_laws;
pub mod oracle;
pub mod parser;
pub mod pg_type;
pub mod query_laws;
pub mod reading_laws;
pub mod recompute;
pub mod recompute_laws;
pub mod refusal_laws;
pub mod registry;
pub mod relationship_data;
pub mod render_laws;
pub mod report_laws;
pub mod row_order_laws;
pub mod soundness;
pub mod statement_laws;
pub mod substitute;
pub mod substitute_laws;
pub mod substitute_values;
pub mod type_laws;
pub mod type_report_laws;
pub mod typed_literal;
pub mod typing;
pub mod typing_laws;
pub mod validate;
pub mod validate_laws;
pub mod value;
pub mod value_laws;
pub mod writing_laws;
pub mod validation_error;
