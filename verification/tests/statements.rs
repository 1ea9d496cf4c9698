use trellis::defs::ast::{DefinitionRef, GroupByKey, KeySpace, Statement, TransformRef};
use trellis::defs::error::ParseError;
use trellis::defs::parser::{parse, parse_relationship, parse_statement};

fn transform(target: &str, column: Option<&str>) -> TransformRef {
    TransformRef {
        target: target.to_string(),
        column: column.map(str::to_string),
    }
}

fn relationship(schema: Option<&str>, from_table: &str, name: &str) -> DefinitionRef {
    DefinitionRef::Relationship {
        schema: schema.map(str::to_string),
        from_table: from_table.to_string(),
        name: name.to_string(),
    }
}

#[test]
fn a_transform_statement_parses_to_the_same_def_parse_produces() {
    let text = "TRANSFORM reporting.order_totals FROM sales.orders SELECT a + b AS total";
    let Statement::DefineTransform(def) = parse_statement(text).unwrap() else {
        panic!("a TRANSFORM statement must parse as one");
    };
    assert_eq!(def, parse(text).unwrap());
    assert_eq!(def.target, "order_totals");
    assert_eq!(def.explicit_target_schema, Some("reporting".to_string()));
}

#[test]
fn a_relationship_statement_parses_to_the_same_def_parse_relationship_produces() {
    let text = "RELATIONSHIP product FROM order_line_items.product_id TO products.id";
    let Statement::DefineRelationship(def) = parse_statement(text).unwrap() else {
        panic!("a RELATIONSHIP statement must parse as one");
    };
    assert_eq!(def, parse_relationship(text).unwrap());
    assert_eq!(def.name, "product");
}

#[test]
fn an_aggregate_transform_statement_keeps_its_key_space() {
    let Statement::DefineTransform(def) = parse_statement(
        "TRANSFORM order_totals FROM order_line_items GROUP BY order_id \
         SELECT order_id AS order_id, SUM(amount) AS total_amount",
    )
    .unwrap() else {
        panic!("a TRANSFORM statement must parse as one");
    };
    assert_eq!(
        def.key_space,
        KeySpace::Aggregate {
            group_by: vec![GroupByKey::Column("order_id".to_string())]
        }
    );
}

#[test]
fn pause_resume_and_drop_a_whole_transform() {
    assert_eq!(
        parse_statement("PAUSE TRANSFORM order_totals").unwrap(),
        Statement::Pause(transform("order_totals", None))
    );
    assert_eq!(
        parse_statement("RESUME TRANSFORM order_totals").unwrap(),
        Statement::Resume(transform("order_totals", None))
    );
    assert_eq!(
        parse_statement("DROP TRANSFORM order_totals").unwrap(),
        Statement::Drop(DefinitionRef::Transform("order_totals".to_string()))
    );
}

#[test]
fn pause_and_resume_accept_a_column_address() {
    assert_eq!(
        parse_statement("PAUSE TRANSFORM order_totals.total").unwrap(),
        Statement::Pause(transform("order_totals", Some("total")))
    );
    assert_eq!(
        parse_statement("RESUME TRANSFORM order_totals.total").unwrap(),
        Statement::Resume(transform("order_totals", Some("total")))
    );
}

#[test]
fn a_dotted_transform_address_is_a_column_not_a_schema() {
    assert_eq!(
        parse_statement("PAUSE TRANSFORM reporting.order_totals").unwrap(),
        Statement::Pause(transform("reporting", Some("order_totals"))),
    );
}

#[test]
fn an_over_qualified_transform_address_is_refused_naming_the_whole_address() {
    let err = parse_statement("PAUSE TRANSFORM reporting.order_totals.total").unwrap_err();
    let ParseError::MalformedDefinitionAddress {
        statement, address, ..
    } = &err
    else {
        panic!("expected a malformed-address error, got {err:?}");
    };
    assert_eq!(statement, "PAUSE TRANSFORM");
    assert_eq!(address, "reporting.order_totals.total");
    assert!(err.to_string().contains("bare target table"), "{err:?}");
}

#[test]
fn drop_refuses_a_column_address() {
    let err = parse_statement("DROP TRANSFORM order_totals.total").unwrap_err();
    let ParseError::MalformedDefinitionAddress {
        statement, address, ..
    } = &err
    else {
        panic!("expected a malformed-address error, got {err:?}");
    };
    assert_eq!(statement, "DROP TRANSFORM");
    assert_eq!(address, "order_totals.total");
    assert!(err.to_string().contains("ALTER TRANSFORM"), "{err:?}");
}

#[test]
fn drop_relationship_accepts_both_scoped_spellings() {
    assert_eq!(
        parse_statement("DROP RELATIONSHIP posts.author").unwrap(),
        Statement::Drop(relationship(None, "posts", "author"))
    );
    assert_eq!(
        parse_statement("DROP RELATIONSHIP blog.posts.author").unwrap(),
        Statement::Drop(relationship(Some("blog"), "posts", "author"))
    );
}

#[test]
fn drop_relationship_refuses_a_bare_unscoped_name() {
    let err = parse_statement("DROP RELATIONSHIP author").unwrap_err();
    assert!(
        matches!(&err, ParseError::UnscopedRelationshipAddress { address } if address == "author"),
        "expected an unscoped-address error, got {err:?}"
    );
    assert!(err.to_string().contains("posts.author"), "{err:?}");
}

#[test]
fn drop_relationship_refuses_a_four_part_address() {
    let err = parse_statement("DROP RELATIONSHIP a.b.c.d").unwrap_err();
    let ParseError::MalformedDefinitionAddress { address, .. } = &err else {
        panic!("expected a malformed-address error, got {err:?}");
    };
    assert_eq!(address, "a.b.c.d");
}

#[test]
fn pause_and_resume_are_transform_only() {
    for text in [
        "PAUSE RELATIONSHIP posts.author",
        "RESUME RELATIONSHIP posts.author",
        "PAUSE RELATIONSHIP author",
        "RESUME RELATIONSHIP blog.posts.author",
    ] {
        let err = parse_statement(text).unwrap_err();
        let ParseError::UnexpectedToken { expected, found } = &err else {
            panic!("expected an ordinary unexpected-token error for {text:?}, got {err:?}");
        };
        assert_eq!(expected, "'TRANSFORM'");
        assert_eq!(found, "identifier 'RELATIONSHIP'");
    }
}

#[test]
fn drop_is_the_one_verb_that_accepts_either_kind() {
    assert!(parse_statement("DROP RELATIONSHIP posts.author").is_ok());
    assert!(parse_statement("DROP TRANSFORM order_totals").is_ok());
    assert!(parse_statement("PAUSE RELATIONSHIP posts.author").is_err());
    assert!(parse_statement("RESUME RELATIONSHIP posts.author").is_err());
}

#[test]
fn the_new_keywords_are_case_insensitive() {
    assert_eq!(
        parse_statement("pause transform order_totals").unwrap(),
        Statement::Pause(transform("order_totals", None))
    );
    assert_eq!(
        parse_statement("ReSuMe TrAnSfOrM order_totals.total").unwrap(),
        Statement::Resume(transform("order_totals", Some("total")))
    );
    assert_eq!(
        parse_statement("dRoP rElAtIoNsHiP posts.author").unwrap(),
        Statement::Drop(relationship(None, "posts", "author"))
    );
}

#[test]
fn an_unrecognized_leading_keyword_names_every_statement_form() {
    let err = parse_statement("DELETE TRANSFORM order_totals").unwrap_err();
    let message = err.to_string();
    for keyword in ["TRANSFORM", "RELATIONSHIP", "PAUSE", "RESUME", "DROP"] {
        assert!(message.contains(keyword), "{message} is missing {keyword}");
    }
}

#[test]
fn empty_input_asks_for_a_statement_keyword() {
    let err = parse_statement("   ").unwrap_err();
    assert!(
        matches!(err, ParseError::UnexpectedEof { .. }),
        "got {err:?}"
    );
    assert!(err.to_string().contains("PAUSE"), "{err:?}");
}

#[test]
fn the_kind_keyword_is_required_after_the_verb() {
    let err = parse_statement("PAUSE order_totals").unwrap_err();
    assert!(err.to_string().contains("TRANSFORM"), "{err:?}");

    let err = parse_statement("DROP order_totals").unwrap_err();
    let message = err.to_string();
    assert!(message.contains("TRANSFORM"), "{message}");
    assert!(message.contains("RELATIONSHIP"), "{message}");
}

#[test]
fn a_verb_with_no_address_at_all_is_refused() {
    assert!(matches!(
        parse_statement("PAUSE TRANSFORM").unwrap_err(),
        ParseError::UnexpectedEof { .. }
    ));
    assert!(matches!(
        parse_statement("DROP RELATIONSHIP").unwrap_err(),
        ParseError::UnexpectedEof { .. }
    ));
}

#[test]
fn trailing_tokens_after_an_address_are_refused() {
    let err = parse_statement("DROP TRANSFORM order_totals CASCADE").unwrap_err();
    assert!(
        matches!(&err, ParseError::UnexpectedToken { expected, .. } if expected == "end of input"),
        "got {err:?}"
    );
}

#[test]
fn the_alter_flavored_spelling_is_not_accepted() {
    assert!(parse_statement("ALTER TRANSFORM order_totals PAUSE").is_err());
}

#[test]
fn amend_is_not_part_of_this_grammar_yet() {
    assert!(parse_statement("AMEND TRANSFORM order_totals").is_err());
}
