use trellis::defs::ast::{FieldDef, ValueType};
use trellis::defs::eval::{
    can_be_folded, evaluate, evaluate_aggregate, evaluate_excluding, RegexCache, Row, Value,
};
use trellis::defs::oracle::{referenced_source_columns, render_expr_sql};
use trellis::defs::parser::parse;
use trellis::defs::pg_type::PgType;
use trellis::defs::recompute::{recompute_rows, row_image};
use trellis::defs::substitute::substitute_field;
use trellis::defs::typing::infer_field_types;
use trellis::defs::validate::validate;
use trellis::float::FloatWidth;
use trellis::names::NameMap;

fn row(cells: &[(&str, Option<&str>)]) -> Row {
    let columns: Vec<String> = cells.iter().map(|(n, _)| n.to_string()).collect();
    let texts: Vec<Option<String>> =
        cells.iter().map(|(_, c)| c.map(|s| s.to_string())).collect();
    row_image(&columns, &texts)
}

fn columns() -> NameMap<ValueType> {
    NameMap::from_entries(vec![
        ("a".to_string(), ValueType::Numeric),
        ("b".to_string(), ValueType::Numeric),
        ("s".to_string(), ValueType::Text),
    ])
}

const DEFINITION: &str = "TRANSFORM t FROM src SELECT a + b AS x, x + 1 AS y, \
     COALESCE(y, 0) > 2 AS big, CHAR_LENGTH(s) AS n, s AS s";

const NAMES: [&str; 5] = ["x", "y", "big", "n", "s"];

#[test]
fn values_have_the_types_of_their_fields() {
    let def = parse(DEFINITION).unwrap();
    assert_eq!(validate(&def, &columns(), &NameMap::from_entries(vec![])), Ok(()));
    let types = infer_field_types(&def, &columns(), &NameMap::from_entries(vec![])).unwrap();
    let full = row(&[("a", Some("1.5")), ("b", Some("2")), ("s", Some("né"))]);
    let nulls = row(&[("a", None), ("b", Some("2")), ("s", None)]);
    for source in [full, nulls] {
        let mut cache = RegexCache::new();
        let values = evaluate(&def, &source, &columns(), &mut cache).unwrap();
        for name in NAMES {
            let fits = match (types.get(name).unwrap(), values.get(name).unwrap()) {
                (_, None) => true,
                (ValueType::Text, Some(v)) => matches!(v, Value::Text(_)),
                (ValueType::Boolean, Some(v)) => matches!(v, Value::Boolean(_)),
                (_, Some(v)) => matches!(v, Value::Numeric(_)),
            };
            assert!(fits, "{name}");
        }
    }
}

#[test]
fn the_listed_columns_are_enough() {
    let def = parse("TRANSFORM t FROM src SELECT a + 1 AS x, x + b AS y").unwrap();
    let mut read = referenced_source_columns(&def);
    read.sort();
    assert_eq!(read, vec!["a".to_string(), "b".to_string()]);
    let all = row(&[("a", Some("3")), ("b", Some("4")), ("s", Some("ignored"))]);
    let listed = row(&[("a", Some("3")), ("b", Some("4"))]);
    let other = row(&[("a", Some("3")), ("b", Some("4")), ("s", None)]);
    let rows = vec![
        ("1".to_string(), all),
        ("2".to_string(), listed),
        ("3".to_string(), other),
    ];
    let target = recompute_rows(&def, &rows, &columns()).unwrap();
    for name in ["x", "y"] {
        let first = target.get("1").unwrap().get(name).unwrap();
        assert_eq!(target.get("2").unwrap().get(name).unwrap(), first);
        assert_eq!(target.get("3").unwrap().get(name).unwrap(), first);
    }
}

#[test]
fn a_field_in_source_columns_has_its_value() {
    let def = parse(DEFINITION).unwrap();
    let source = row(&[("a", Some("1.5")), ("b", Some("2")), ("s", Some("né"))]);
    let mut cache = RegexCache::new();
    let values = evaluate(&def, &source, &columns(), &mut cache).unwrap();
    for (i, name) in NAMES.iter().enumerate() {
        let mut alone = parse(DEFINITION).unwrap();
        alone.fields = vec![FieldDef {
            name: name.to_string(),
            expr: substitute_field(&def.fields, i).unwrap(),
        }];
        let mut cache = RegexCache::new();
        let again = evaluate(&alone, &source, &columns(), &mut cache).unwrap();
        assert_eq!(again.get(name).unwrap(), values.get(name).unwrap());
    }
}

#[test]
fn what_is_parsed_can_be_used() {
    for text in [DEFINITION, "TRANSFORM t FROM src SELECT a AS a"] {
        let def = parse(text).unwrap();
        assert!(can_be_folded(&def));
        for field in &def.fields {
            assert!(!render_expr_sql(&field.expr).is_empty());
        }
    }
    let grouped = parse("TRANSFORM t FROM src GROUP BY a SELECT a AS a, SUM(b) AS total").unwrap();
    assert!(can_be_folded(&grouped));
}

#[test]
fn patterns_that_are_met_are_compiled() {
    let def = parse(
        "TRANSFORM t FROM src SELECT COALESCE(REGEXP_COUNT(s, 'a+'), REGEXP_COUNT(s, 'b+')) AS n",
    )
    .unwrap();
    let mut cache = RegexCache::new();
    let empty = row(&[("s", None)]);
    evaluate(&def, &empty, &columns(), &mut cache).unwrap();
    assert!(!cache.contains("a+") && !cache.contains("b+"));
    let source = row(&[("s", Some("aab"))]);
    evaluate(&def, &source, &columns(), &mut cache).unwrap();
    assert!(cache.contains("a+") && !cache.contains("b+"));
    let broken = parse("TRANSFORM t FROM src SELECT REGEXP_COUNT(s, '(') AS n").unwrap();
    let values = evaluate(&broken, &source, &columns(), &mut cache).unwrap();
    assert_eq!(*values.get("n").unwrap(), None);
    assert!(cache.contains("a+") && !cache.contains("("));
}

#[test]
fn a_grouped_field_in_source_columns_has_its_value() {
    let text = "TRANSFORM t FROM src GROUP BY a SELECT a AS a, a + 1 AS next, \
         SUM(next) + SUM(b) AS total, total + COUNT(*) AS more";
    let def = parse(text).unwrap();
    assert_eq!(validate(&def, &columns(), &NameMap::from_entries(vec![])), Ok(()));
    let rows = vec![
        row(&[("a", Some("3")), ("b", Some("10"))]),
        row(&[("a", Some("3")), ("b", None)]),
    ];
    let values = evaluate_aggregate(&def, &rows, &columns(), &mut RegexCache::new()).unwrap();
    assert_eq!(values.get("more").unwrap().as_ref().unwrap().to_string(), "20");
    for (i, field) in def.fields.iter().enumerate() {
        let mut alone = parse(text).unwrap();
        alone.fields = vec![FieldDef {
            name: field.name.clone(),
            expr: substitute_field(&def.fields, i).unwrap(),
        }];
        let again =
            evaluate_aggregate(&alone, &rows, &columns(), &mut RegexCache::new()).unwrap();
        assert_eq!(again.get(&field.name).unwrap(), values.get(&field.name).unwrap());
    }
}

#[test]
fn both_spellings_of_a_typed_literal_agree() {
    let spellings = [
        ("date", "2024-01-01"),
        ("Double Precision", "1.5"),
        ("JSONB", "{\"a\": \"it''s\"}"),
    ];
    for (keyword, text) in spellings {
        let prefixed = format!("TRANSFORM t FROM s SELECT {keyword} '{text}' AS d");
        let cast = format!("TRANSFORM t FROM s SELECT CAST('{text}' AS {keyword}) AS d");
        assert_eq!(parse(&prefixed).unwrap(), parse(&cast).unwrap());
    }
}

#[test]
fn the_order_of_rows_makes_no_difference() {
    let def = parse(
        "TRANSFORM t FROM src GROUP BY a SELECT a AS a, SUM(b) AS total, MIN(b) + 1 AS low, \
         AVG(b) AS middle, COUNT(b) AS n",
    )
    .unwrap();
    let one = row(&[("a", Some("3")), ("b", Some("10"))]);
    let two = row(&[("a", Some("3")), ("b", None)]);
    let three = row(&[("a", Some("3")), ("b", Some("2.50"))]);
    let mut groups = vec![vec![one, two, three]];
    let one = row(&[("a", Some("3")), ("b", Some("10"))]);
    let two = row(&[("a", Some("3")), ("b", None)]);
    let three = row(&[("a", Some("3")), ("b", Some("2.50"))]);
    groups.push(vec![three, one, two]);
    let mut shown: Vec<Vec<String>> = Vec::new();
    for rows in &groups {
        let values = evaluate_aggregate(&def, rows, &columns(), &mut RegexCache::new()).unwrap();
        shown.push(
            ["a", "total", "low", "middle", "n"]
                .iter()
                .map(|n| values.get(n).unwrap().as_ref().unwrap().to_string())
                .collect(),
        );
    }
    assert_eq!(shown[0], shown[1]);
    assert_eq!(shown[0][1..3], ["12.50".to_string(), "3.50".to_string()]);
}

#[test]
fn a_float_that_is_not_summed_leaves_the_order_of_rows_free() {
    let def = parse(
        "TRANSFORM t FROM src GROUP BY a SELECT a AS a, SUM(b) AS total, MIN(d) AS low, \
         MAX(d) + 1 AS high, SUM(i) AS spent",
    )
    .unwrap();
    let types = NameMap::from_entries(vec![
        ("a".to_string(), ValueType::Numeric),
        ("b".to_string(), ValueType::Numeric),
        ("d".to_string(), ValueType::Float(FloatWidth::Float8)),
        ("i".to_string(), ValueType::Other(PgType::Interval)),
    ]);
    let cells = [("1", "0.1", "1 day"), ("2", "NaN", "02:00:00"), ("4", "-3.5", "-1 mons")];
    let mut shown: Vec<Vec<String>> = Vec::new();
    for order in [[0, 1, 2], [2, 0, 1], [1, 2, 0]] {
        let rows: Vec<Row> = order
            .iter()
            .map(|k: &usize| {
                let (b, d, i) = cells[*k];
                row(&[("a", Some("3")), ("b", Some(b)), ("d", Some(d)), ("i", Some(i))])
            })
            .collect();
        let values = evaluate_aggregate(&def, &rows, &types, &mut RegexCache::new()).unwrap();
        shown.push(
            ["total", "low", "high", "spent"]
                .iter()
                .map(|n| values.get(n).unwrap().as_ref().unwrap().to_string())
                .collect(),
        );
    }
    assert_eq!(shown[0], ["7", "-3.5", "NaN", "-1 mons +1 day 02:00:00"]);
    assert_eq!(shown[0], shown[1]);
    assert_eq!(shown[0], shown[2]);
}

#[test]
fn an_error_names_a_field() {
    let def = parse("TRANSFORM t FROM src SELECT missing AS x, x + 1 AS y").unwrap();
    let source = row(&[("a", Some("1"))]);
    let error = evaluate(&def, &source, &columns(), &mut RegexCache::new()).unwrap_err();
    assert_eq!(error.field(), "x");
    let grouped = parse("TRANSFORM t FROM src GROUP BY a SELECT SUM(missing) AS z").unwrap();
    let error =
        evaluate_aggregate(&grouped, &[source], &columns(), &mut RegexCache::new()).unwrap_err();
    assert_eq!(error.field(), "z");
}

#[test]
fn excluded_fields_are_absent_and_read_as_null() {
    let def = parse("TRANSFORM t FROM src SELECT missing AS x, COALESCE(x, 7) AS y").unwrap();
    let source = row(&[("a", Some("1"))]);
    let excluded = vec!["x".to_string()];
    let values =
        evaluate_excluding(&def, &source, &columns(), &mut RegexCache::new(), &excluded).unwrap();
    assert!(values.get("x").is_none());
    assert_eq!(values.get("y").unwrap().as_ref().unwrap().to_string(), "7");
}
