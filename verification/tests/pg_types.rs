use trellis::defs::ast::ValueType;
use trellis::defs::oid;
use trellis::defs::pg_type::{value_type_for_builtin_oid, EnumTokens, PgType};
use trellis::float::FloatWidth;
use trellis::integer::IntWidth;

#[test]
fn well_known_builtins_classify_as_expected() {
    assert_eq!(value_type_for_builtin_oid(oid::BOOL), ValueType::Boolean);
    assert_eq!(value_type_for_builtin_oid(oid::UUID), ValueType::Uuid);
    assert_eq!(value_type_for_builtin_oid(oid::TEXT), ValueType::Text);
    assert_eq!(value_type_for_builtin_oid(oid::VARCHAR), ValueType::Text);
    assert_eq!(
        value_type_for_builtin_oid(oid::INT2),
        ValueType::Integer(IntWidth::Int2)
    );
    assert_eq!(
        value_type_for_builtin_oid(oid::INT4),
        ValueType::Integer(IntWidth::Int4)
    );
    assert_eq!(
        value_type_for_builtin_oid(oid::INT8),
        ValueType::Integer(IntWidth::Int8)
    );
    assert_eq!(value_type_for_builtin_oid(oid::NUMERIC), ValueType::Numeric);
    assert_eq!(
        value_type_for_builtin_oid(oid::FLOAT4),
        ValueType::Float(FloatWidth::Float4)
    );
    assert_eq!(
        value_type_for_builtin_oid(oid::FLOAT8),
        ValueType::Float(FloatWidth::Float8)
    );
    assert_eq!(
        value_type_for_builtin_oid(oid::BYTEA),
        ValueType::Other(PgType::Bytea)
    );
    assert_eq!(
        value_type_for_builtin_oid(oid::JSONB),
        ValueType::Other(PgType::Jsonb)
    );
    assert_eq!(
        value_type_for_builtin_oid(oid::TIMESTAMPTZ),
        ValueType::Other(PgType::TimestampTz)
    );
}

#[test]
fn unrecognized_oid_is_tagged_not_silently_text() {
    assert_eq!(
        value_type_for_builtin_oid(999_999),
        ValueType::Other(PgType::Unrecognized)
    );
}

const DEMO_ENUM: PgType = PgType::Enum("enum:public.demo_enum");

const ALL: [PgType; 22] = [
    PgType::Oid,
    PgType::Bytea,
    PgType::Date,
    PgType::Time,
    PgType::TimeTz,
    PgType::Timestamp,
    PgType::TimestampTz,
    PgType::Interval,
    PgType::Json,
    PgType::Jsonb,
    PgType::Inet,
    PgType::Cidr,
    PgType::MacAddr,
    PgType::MacAddr8,
    PgType::Bit,
    PgType::VarBit,
    PgType::Money,
    PgType::Xml,
    PgType::TsVector,
    PgType::TsQuery,
    DEMO_ENUM,
    PgType::Unrecognized,
];

#[test]
fn every_pg_type_name_round_trips() {
    for pg_type in ALL {
        assert_eq!(PgType::from_name(pg_type.name(), &mut EnumTokens::new()), Some(pg_type));
    }
}

#[test]
fn sql_type_name_is_never_the_unrecognized_non_type() {
    for pg_type in ALL {
        let sql = pg_type.sql_type_name();
        assert_ne!(
            sql, "unrecognized",
            "{pg_type:?} must not render a fake pg type into SQL"
        );
        match pg_type {
            PgType::Unrecognized => assert_eq!(sql, "text"),
            PgType::Enum(_) => assert_eq!(sql, "\"public\".\"demo_enum\""),
            _ => assert_eq!(
                sql,
                pg_type.name(),
                "a recognized family's SQL keyword is its persisted token"
            ),
        }
    }
}

#[test]
fn unknown_persisted_token_does_not_parse() {
    assert_eq!(PgType::from_name("frobnicate", &mut EnumTokens::new()), None);
}

#[test]
fn enum_qualified_name_strips_the_persisted_prefix() {
    assert_eq!(DEMO_ENUM.enum_qualified_name(), Some("public.demo_enum"));
    assert_eq!(PgType::Bytea.enum_qualified_name(), None);
}

#[test]
fn two_distinct_enum_types_are_not_the_same_pgtype() {
    let mut tokens = EnumTokens::new();
    let status = PgType::for_enum("public.status_enum", &mut tokens);
    let priority = PgType::for_enum("public.priority_enum", &mut tokens);
    assert_ne!(status, priority);
    assert_ne!(ValueType::Other(status), ValueType::Other(priority));
}

#[test]
fn for_enum_interns_so_repeat_classifications_share_one_token() {
    let mut tokens = EnumTokens::new();
    let a = PgType::for_enum("public.status_enum", &mut tokens);
    let b = PgType::for_enum("public.status_enum", &mut tokens);
    assert_eq!(a, b);
    let (PgType::Enum(ta), PgType::Enum(tb)) = (a, b) else {
        unreachable!("for_enum always returns PgType::Enum");
    };
    assert!(std::ptr::eq(ta, tb));
}
