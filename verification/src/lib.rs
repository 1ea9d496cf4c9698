//! Definitions of derived tables over Postgres sources: a small transform
//! language with its lexer, parser, validator and evaluator.

pub mod binary;
pub mod calendar_laws;
pub mod defs;
pub mod error_code;
pub mod float;
pub mod float_laws;
pub mod float_text;
pub mod integer;
pub mod interval;
pub mod interval_laws;
pub mod jsonb;
pub mod names;
pub mod natural;
pub mod netaddr;
pub mod numeric;
pub mod ordered;
pub mod pattern;
pub mod pattern_laws;
pub mod shortest;
pub mod sql;
pub mod temporal;
pub mod text;
