//! A small, stable set of error categories.

use vstd::prelude::*;

use crate::text;

verus! {

/// The category of an error.
#[derive(Debug, Clone, Copy, PartialEq, Eq, Structural)]
#[non_exhaustive]
pub enum ErrorCode {
    Parse,
    Validation,
    Connectivity,
    Conflict,
    NotFound,
    Internal,
}

impl ErrorCode {
    pub open spec fn name(self) -> Seq<char> {
        match self {
            ErrorCode::Parse => "parse"@,
            ErrorCode::Validation => "validation"@,
            ErrorCode::Connectivity => "connectivity"@,
            ErrorCode::Conflict => "conflict"@,
            ErrorCode::NotFound => "not_found"@,
            ErrorCode::Internal => "internal"@,
        }
    }

    /// The category's name.
    pub fn as_str(self) -> (r: &'static str)
        ensures
            r@ == self.name(),
    {
        match self {
            ErrorCode::Parse => "parse",
            ErrorCode::Validation => "validation",
            ErrorCode::Connectivity => "connectivity",
            ErrorCode::Conflict => "conflict",
            ErrorCode::NotFound => "not_found",
            ErrorCode::Internal => "internal",
        }
    }

    /// The category's name.
    pub fn to_string(&self) -> (r: String)
        ensures
            r@ == self.name(),
    {
        text::owned(self.as_str())
    }
}

/// An error of the Postgres client.
#[verifier::external_type_specification]
#[verifier::external_body]
pub struct ExPgError(tokio_postgres::Error);

/// A SQLSTATE of the Postgres client.
#[verifier::external_type_specification]
#[verifier::external_body]
pub struct ExSqlState(tokio_postgres::error::SqlState);

/// The characters of a SQLSTATE.
pub uninterp spec fn sqlstate_chars(state: tokio_postgres::error::SqlState) -> Seq<char>;

/// The SQLSTATE that the server sent with the error, if it sent the error.
pub uninterp spec fn pg_error_sqlstate(err: tokio_postgres::Error) -> Option<Seq<char>>;

/// `SqlState::code` of the Postgres client gives the SQLSTATE's characters,
/// the same for every call on one value.
pub assume_specification[ tokio_postgres::error::SqlState::code ](
    state: &tokio_postgres::error::SqlState,
) -> (r: &str)
    ensures
        r@ == sqlstate_chars(*state),
;

/// `Error::code` of the Postgres client gives the SQLSTATE that came with an
/// error the server sent, and none for any other error, the same for every
/// call on one value.
pub assume_specification[ tokio_postgres::Error::code ](err: &tokio_postgres::Error) -> (r: Option<
    &tokio_postgres::error::SqlState,
>)
    ensures
        pg_error_sqlstate(*err) == (match r {
            Some(state) => Some(sqlstate_chars(*state)),
            None => None,
        }),
;

/// The category of a SQLSTATE: a lost or refused connection, a violated
/// uniqueness or reference, a missing table, or anything else.
pub open spec fn sqlstate_category(code: Seq<char>) -> ErrorCode {
    if code.len() >= 2 && code[0] == '0' && code[1] == '8' {
        ErrorCode::Connectivity
    } else if code == "57P01"@ || code == "57P02"@ || code == "57P03"@ {
        ErrorCode::Connectivity
    } else if code == "23505"@ || code == "23503"@ {
        ErrorCode::Conflict
    } else if code == "42P01"@ {
        ErrorCode::NotFound
    } else {
        ErrorCode::Internal
    }
}

/// The category of an error with the given SQLSTATE; an error without one
/// never reached the server.
pub open spec fn pg_error_category(sqlstate: Option<Seq<char>>) -> ErrorCode {
    match sqlstate {
        Some(code) => sqlstate_category(code),
        None => ErrorCode::Connectivity,
    }
}

/// The category of a SQLSTATE, by its characters.
pub fn classify_code(code: &str) -> (r: ErrorCode)
    ensures
        r == sqlstate_category(code@),
{
    let cs = text::chars_of(code);
    if cs.len() >= 2 && cs[0] == '0' && cs[1] == '8' {
        ErrorCode::Connectivity
    } else if *code == *"57P01" || *code == *"57P02" || *code == *"57P03" {
        ErrorCode::Connectivity
    } else if *code == *"23505" || *code == *"23503" {
        ErrorCode::Conflict
    } else if *code == *"42P01" {
        ErrorCode::NotFound
    } else {
        ErrorCode::Internal
    }
}

/// The category of a SQLSTATE.
pub fn classify_sqlstate(state: &tokio_postgres::error::SqlState) -> (r: ErrorCode)
    ensures
        r == sqlstate_category(sqlstate_chars(*state)),
{
    classify_code(state.code())
}

/// The category of an error of the Postgres client.
pub fn classify_pg_error(err: &tokio_postgres::Error) -> (r: ErrorCode)
    ensures
        r == pg_error_category(pg_error_sqlstate(*err)),
{
    match err.code() {
        Some(state) => classify_sqlstate(state),
        None => ErrorCode::Connectivity,
    }
}

// ---------------------------------------------------------------------------
// Laws
// ---------------------------------------------------------------------------

/// No two categories share a name.
pub proof fn error_code_names_differ(a: ErrorCode, b: ErrorCode)
    ensures
        a.name() == b.name() ==> a == b,
{
    reveal_strlit("parse");
    reveal_strlit("validation");
    reveal_strlit("connectivity");
    reveal_strlit("conflict");
    reveal_strlit("not_found");
    reveal_strlit("internal");
    assert(a.name().len() == b.name().len() && a.name()[0] == b.name()[0] ==> a == b);
}

/// An error of the server is never taken for a failed parse or validation.
pub proof fn server_errors_are_not_definition_errors(sqlstate: Option<Seq<char>>)
    ensures
        pg_error_category(sqlstate) != ErrorCode::Parse,
        pg_error_category(sqlstate) != ErrorCode::Validation,
{
}

} // verus!
