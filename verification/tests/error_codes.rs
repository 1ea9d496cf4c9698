use tokio_postgres::error::SqlState;

use trellis::error_code::{classify_code, classify_pg_error, classify_sqlstate, ErrorCode};

#[test]
fn connection_loss_sqlstates_classify_as_connectivity() {
    for code in [
        SqlState::ADMIN_SHUTDOWN,
        SqlState::CRASH_SHUTDOWN,
        SqlState::CANNOT_CONNECT_NOW,
        SqlState::CONNECTION_EXCEPTION,
        SqlState::CONNECTION_FAILURE,
        SqlState::CONNECTION_DOES_NOT_EXIST,
        SqlState::SQLCLIENT_UNABLE_TO_ESTABLISH_SQLCONNECTION,
        SqlState::PROTOCOL_VIOLATION,
    ] {
        assert_eq!(
            classify_sqlstate(&code),
            ErrorCode::Connectivity,
            "{}",
            code.code()
        );
    }
}

#[test]
fn other_sqlstates_keep_their_classification() {
    assert_eq!(
        classify_sqlstate(&SqlState::UNIQUE_VIOLATION),
        ErrorCode::Conflict
    );
    assert_eq!(
        classify_sqlstate(&SqlState::FOREIGN_KEY_VIOLATION),
        ErrorCode::Conflict
    );
    assert_eq!(
        classify_sqlstate(&SqlState::UNDEFINED_TABLE),
        ErrorCode::NotFound
    );
    assert_eq!(
        classify_sqlstate(&SqlState::QUERY_CANCELED),
        ErrorCode::Internal
    );
    assert_eq!(
        classify_sqlstate(&SqlState::SYNTAX_ERROR),
        ErrorCode::Internal
    );
}

#[test]
fn an_error_that_never_reached_the_server_is_connectivity() {
    let err = "port=no".parse::<tokio_postgres::Config>().unwrap_err();
    assert_eq!(classify_pg_error(&err), ErrorCode::Connectivity);
}

#[test]
fn every_connection_exception_is_connectivity() {
    assert_eq!(classify_code("08000"), ErrorCode::Connectivity);
    assert_eq!(classify_code("08P99"), ErrorCode::Connectivity);
    assert_eq!(classify_code("57P03"), ErrorCode::Connectivity);
    assert_eq!(classify_code("57P04"), ErrorCode::Internal);
    assert_eq!(classify_code("0"), ErrorCode::Internal);
    assert_eq!(classify_code(""), ErrorCode::Internal);
}

#[test]
fn categories_have_names_of_their_own() {
    let names = [
        ErrorCode::Parse,
        ErrorCode::Validation,
        ErrorCode::Connectivity,
        ErrorCode::Conflict,
        ErrorCode::NotFound,
        ErrorCode::Internal,
    ]
    .map(|code| code.to_string());
    for (i, a) in names.iter().enumerate() {
        for b in &names[i + 1..] {
            assert_ne!(a, b);
        }
    }
}
