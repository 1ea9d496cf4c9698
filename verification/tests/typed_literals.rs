use trellis::defs::ast::{pg_type_name, ValueType};
use trellis::defs::pg_type::PgType;
use trellis::defs::typed_literal::{
    canonical_bytea, canonical_date, canonical_timestamp, canonical_varbit, lookup_typed_literal,
    TypedLiteralSpec, TYPED_LITERAL_KEYWORDS,
};

fn typed_literals() -> Vec<TypedLiteralSpec> {
    TYPED_LITERAL_KEYWORDS
        .iter()
        .map(|keyword| lookup_typed_literal(keyword).expect("every keyword is one"))
        .collect()
}

#[test]
fn type_keyword_matches_value_type() {
    for spec in typed_literals() {
        assert_eq!(
            spec.keyword,
            pg_type_name(spec.value_type).to_ascii_uppercase(),
            "{} must be spelled as its own pg type keyword",
            spec.keyword
        );
    }
}

#[test]
fn every_allowlisted_type_lacks_a_bare_literal_syntax() {
    for spec in typed_literals() {
        assert!(
            matches!(spec.value_type, ValueType::Other(_) | ValueType::Float(_)),
            "{} has a bare literal syntax and must not be allowlisted",
            spec.keyword
        );
    }
}

#[test]
fn epic_excluded_families_are_absent() {
    for excluded in [
        PgType::Money,
        PgType::Json,
        PgType::Xml,
        PgType::TsVector,
        PgType::TsQuery,
        PgType::Unrecognized,
    ] {
        assert!(
            !typed_literals()
                .iter()
                .any(|spec| spec.value_type == ValueType::Other(excluded)),
            "{excluded:?} must not be spellable"
        );
    }
}

#[test]
fn lookup_is_by_canonical_uppercase_keyword() {
    assert_eq!(
        lookup_typed_literal("DATE").map(|spec| spec.value_type),
        Some(ValueType::Other(PgType::Date))
    );
    assert!(lookup_typed_literal("date").is_none());
    assert!(lookup_typed_literal("TIMESTAMPTZ").is_none());
}

#[test]
fn canonical_dates_are_accepted() {
    for text in ["2024-01-01", "0001-01-01", "9999-12-31", "2024-02-29"] {
        assert!(canonical_date(text).is_ok(), "{text:?} should be canonical");
    }
}

#[test]
fn non_canonical_or_non_immutable_dates_are_rejected() {
    for text in [
        "today",
        "yesterday",
        "tomorrow",
        "now",
        "epoch",
        "infinity",
        "-infinity",
        "2024-1-5",
        "01/02/2024",
        "20240101",
        "2024-01-01 00:00:00",
        "2023-02-29",
        "2024-02-30",
        "2024-13-01",
        "2024-00-01",
        "2024-01-00",
        "0000-01-01",
        "+024-01-01",
        "2024- 1-01",
        "",
    ] {
        assert!(
            canonical_date(text).is_err(),
            "{text:?} must not be accepted as a date literal"
        );
    }
}

#[test]
fn canonical_timestamps_are_accepted() {
    for text in [
        "2024-01-01 12:00:00",
        "2024-01-01 00:00:00",
        "2024-01-01 23:59:59",
        "2024-01-01 12:00:00.5",
        "2024-01-01 12:00:00.123456",
    ] {
        assert!(
            canonical_timestamp(text).is_ok(),
            "{text:?} should be canonical"
        );
    }
}

#[test]
fn non_canonical_or_non_immutable_timestamps_are_rejected() {
    for text in [
        "now",
        "epoch",
        "infinity",
        "2024-01-01",
        "2024-01-01T12:00:00",
        "2024-01-01 12:00:00.10",
        "2024-01-01 12:00:00.0",
        "2024-01-01 12:00:00.1234567",
        "2024-01-01 12:00:00.",
        "2024-01-01 12:00:60",
        "2024-01-01 24:00:00",
        "2024-01-01 12:60:00",
        "2024-01-01 12:00:00+02",
        "2024-02-30 12:00:00",
        "",
    ] {
        assert!(
            canonical_timestamp(text).is_err(),
            "{text:?} must not be accepted as a timestamp literal"
        );
    }
}

#[test]
fn canonical_byteas_are_accepted() {
    for text in ["\\x", "\\x00", "\\x0102ff", "\\xdeadbeef"] {
        assert!(canonical_bytea(text).is_ok(), "{text:?} should be canonical");
    }
}

#[test]
fn non_canonical_byteas_are_rejected() {
    for text in [
        "\\000",
        "abc",
        "\\xDEADBEEF",
        "\\xAb",
        "\\x0",
        "\\x0g",
        "\\x 01",
        "",
        "\\",
        "x0102",
    ] {
        assert!(
            canonical_bytea(text).is_err(),
            "{text:?} must not be accepted as a bytea literal"
        );
    }
}

#[test]
fn canonical_varbits_are_accepted() {
    for text in ["", "0", "1", "101", "00000000", "10100101"] {
        assert!(
            canonical_varbit(text).is_ok(),
            "{text:?} should be canonical"
        );
    }
}

#[test]
fn non_canonical_varbits_are_rejected() {
    for text in ["2", "01x", "0 1", "b101", "0b101", "-1", "true"] {
        assert!(
            canonical_varbit(text).is_err(),
            "{text:?} must not be accepted as a varbit literal"
        );
    }
}

#[test]
fn varbit_is_looked_up_by_its_canonical_uppercase_keyword() {
    assert_eq!(
        lookup_typed_literal("VARBIT").map(|spec| spec.value_type),
        Some(ValueType::Other(PgType::VarBit))
    );
    assert!(lookup_typed_literal("varbit").is_none());
    assert!(lookup_typed_literal("BIT").is_none());
}
