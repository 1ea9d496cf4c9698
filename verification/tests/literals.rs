use trellis::defs::ast::ValueType;
use trellis::defs::pg_type::{value_type_for_oid, EnumTokens, PgType};
use trellis::defs::oid;
use trellis::defs::typed_literal::{
    canonical_oid, canonical_time, canonical_timetz, lookup_typed_literal, render_sql,
    TYPED_LITERAL_KEYWORDS,
};
use trellis::jsonb::canonical_jsonb;
use trellis::netaddr::{canonical_cidr, canonical_inet, canonical_macaddr, canonical_macaddr8};
use trellis::sql::{quote_ident, quote_pair, quote_string};

fn all_of(check: fn(&str) -> Result<(), &'static str>, good: &[&str], bad: &[&str]) {
    for text in good {
        assert!(check(text).is_ok(), "{text:?} is canonical");
    }
    for text in bad {
        assert!(check(text).is_err(), "{text:?} is not canonical");
    }
}

#[test]
fn times_of_day() {
    all_of(
        canonical_time,
        &["00:00:00", "23:59:59", "12:00:00.5", "12:00:00.123456"],
        &["", "24:00:01", "12:60:00", "12:00:60", "1:00:00", "12:00:00.50", "12:00", "noon"],
    );
    all_of(
        canonical_timetz,
        &["12:00:00+00", "12:00:00-05", "12:00:00+05:30", "12:00:00.5-08", "12:00:00-00:00:30"],
        &["12:00:00", "12:00:00-00", "12:00:00-00:00", "12:00:00Z", "12:00:00+5", "12:00:00+05:00", "12:00:00 +05", "12:00:00+16"],
    );
}

#[test]
fn object_identifiers() {
    all_of(
        canonical_oid,
        &["0", "7", "4294967295"],
        &["", "-1", "+1", "01", "4294967296", "99999999999999999999", "1.0", "x"],
    );
}

#[test]
fn hardware_addresses() {
    all_of(
        canonical_macaddr,
        &["08:00:2b:01:02:03", "ff:ff:ff:ff:ff:ff"],
        &["", "08-00-2b-01-02-03", "08:00:2B:01:02:03", "08002b010203", "08:00:2b:01:02"],
    );
    all_of(
        canonical_macaddr8,
        &["08:00:2b:01:02:03:04:05"],
        &["08:00:2b:01:02:03", "08:00:2b:01:02:03:04:0g", "8:00:2b:01:02:03:04:05"],
    );
}

#[test]
fn network_addresses() {
    all_of(
        canonical_inet,
        &["192.168.1.5/24", "0.0.0.0/0", "10.0.0.1/32", "2001:db8::1/128", "::/0", "::1/64"],
        &[
            "192.168.1.5", "192.168.1.5/33", "192.168.01.5/24", "256.0.0.1/8", "1.2.3/24",
            "2001:DB8::1/128", "2001:db8:0:0:0:0:0:1/128", "::1/129", "1::2::3/64", "",
        ],
    );
    all_of(
        canonical_cidr,
        &["192.168.1.0/24", "10.0.0.0/8", "0.0.0.0/0", "2001:db8::/32", "192.168.1.5/32"],
        &["192.168.1.5/24", "10.1.0.0/8", "2001:db8::1/32", "192.168.1.0"],
    );
}

#[test]
fn documents() {
    all_of(
        canonical_jsonb,
        &[
            "null", "true", "1", "-1.50", "\"a\"", "[]", "{}", "[1, 2]",
            "{\"a\": 1, \"b\": [true, null]}", "{\"b\": 1, \"aa\": 2}", "\"\\n\"", "\"é\"",
        ],
        &[
            "", " 1", "1 ", "[1,2]", "{\"a\":1}", "{\"b\": 1, \"a\": 2}",
            "{\"a\": 1, \"a\": 2}", "{\"aa\": 1, \"b\": 2}", "1e5", "01", "nul", "\"\\u0041\"",
            "'a'", "[1, ]",
        ],
    );
}

#[test]
fn every_keyword_is_looked_up_and_spelled() {
    for keyword in TYPED_LITERAL_KEYWORDS {
        let spec = lookup_typed_literal(keyword).unwrap();
        assert_eq!(spec.keyword, keyword);
        assert_eq!(
            render_sql(spec.value_type, "it's"),
            format!("'it''s'::{}", keyword.to_lowercase())
        );
    }
}

#[test]
fn quotes_are_doubled() {
    assert_eq!(quote_ident("a\"b"), "\"a\"\"b\"");
    assert_eq!(quote_string("it's"), "'it''s'");
    assert_eq!(quote_pair("s", "t\""), "\"s\".\"t\"\"\"");
}

#[test]
fn a_catalog_type_is_an_enum_only_where_no_builtin_has_its_oid() {
    let mut tokens = EnumTokens::new();
    let name = Some(("public".to_string(), "status".to_string()));
    assert_eq!(
        value_type_for_oid(oid::UUID, name, &mut tokens),
        ValueType::Uuid
    );
    let name = Some(("public".to_string(), "status".to_string()));
    let found = value_type_for_oid(999_999, name, &mut tokens);
    match found {
        ValueType::Other(pg_type) => {
            assert_eq!(pg_type.name(), "enum:public.status");
            assert_eq!(pg_type.sql_type_name(), "\"public\".\"status\"");
            assert_eq!(PgType::from_name("enum:public.status", &mut tokens), Some(pg_type));
        }
        other => panic!("expected an enum, got {other:?}"),
    }
    let dotted = Some(("public".to_string(), "sta.tus".to_string()));
    assert_eq!(
        value_type_for_oid(999_999, dotted, &mut tokens),
        ValueType::Other(PgType::Unrecognized)
    );
    assert_eq!(
        value_type_for_oid(999_999, None, &mut tokens),
        ValueType::Other(PgType::Unrecognized)
    );
}
