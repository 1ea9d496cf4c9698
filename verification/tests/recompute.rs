use trellis::defs::ast::{GroupByKey, RelationshipDef, ValueType};
use trellis::defs::eval::{EvalError, Row, Value};
use trellis::defs::oracle::{
    quoted_source_from, render_aggregate_relationship_select_sql, render_aggregate_select_sql,
};
use trellis::defs::parser::parse;
use trellis::defs::recompute::{
    group_key, grouped_source_columns, recompute_groups, recompute_rows, row_image,
    source_query_sql,
};
use trellis::names::NameMap;

fn row(cells: &[(&str, Option<&str>)]) -> Row {
    let columns: Vec<String> = cells.iter().map(|(n, _)| n.to_string()).collect();
    let texts: Vec<Option<String>> =
        cells.iter().map(|(_, c)| c.map(|s| s.to_string())).collect();
    row_image(&columns, &texts)
}

fn numeric(names: &[&str]) -> NameMap<ValueType> {
    NameMap::from_entries(
        names
            .iter()
            .map(|n| (n.to_string(), ValueType::Numeric))
            .collect(),
    )
}

fn shown(values: &NameMap<Option<Value>>, name: &str) -> String {
    values.get(name).unwrap().as_ref().unwrap().to_string()
}

#[test]
fn rows_are_read_as_text() {
    let def = parse("TRANSFORM t FROM app.s SELECT a + b AS x").unwrap();
    assert_eq!(quoted_source_from(&def), "\"app\".\"s\"");
    assert_eq!(
        source_query_sql(&def, &vec!["id".to_string(), "a".to_string()]),
        "select \"id\"::text, \"a\"::text from \"app\".\"s\""
    );
}

#[test]
fn each_row_has_its_values() {
    let def = parse("TRANSFORM t FROM s SELECT a + 1 AS x").unwrap();
    let rows = vec![
        ("1".to_string(), row(&[("a", Some("10"))])),
        ("2".to_string(), row(&[("a", None)])),
    ];
    let target = recompute_rows(&def, &rows, &numeric(&["a"])).unwrap();
    assert_eq!(shown(target.get("1").unwrap(), "x"), "11");
    assert_eq!(*target.get("2").unwrap().get("x").unwrap(), None);
    assert!(target.get("3").is_none());

    let rows = vec![("1".to_string(), row(&[]))];
    assert_eq!(
        recompute_rows(&def, &rows, &numeric(&["a"])).unwrap_err(),
        EvalError::MissingColumn {
            field: "x".to_string(),
            column: "a".to_string(),
        }
    );
}

#[test]
fn group_keys_tell_commas_apart() {
    let keys = vec![
        GroupByKey::Column("a".to_string()),
        GroupByKey::Column("b".to_string()),
    ];
    let first = group_key(&row(&[("a", Some("x,y")), ("b", Some("z"))]), &keys);
    let second = group_key(&row(&[("a", Some("x")), ("b", Some("y,z"))]), &keys);
    assert_eq!(first, "3:x,y1:z");
    assert_eq!(second, "1:x3:y,z");
    assert_eq!(group_key(&row(&[("a", Some("é")), ("b", None)]), &keys), "2:é0:");
}

#[test]
fn each_group_has_its_values() {
    let def = parse("TRANSFORM t FROM s GROUP BY k SELECT k AS k, SUM(a) AS total").unwrap();
    let mut read = grouped_source_columns(&def);
    read.sort();
    assert_eq!(read, vec!["a".to_string(), "k".to_string()]);
    let rows = vec![
        row(&[("k", Some("1")), ("a", Some("10"))]),
        row(&[("k", Some("2")), ("a", Some("5"))]),
        row(&[("k", Some("1")), ("a", Some("2"))]),
    ];
    let target = recompute_groups(&def, rows, &numeric(&["k", "a"])).unwrap();
    assert_eq!(shown(target.get("1:1").unwrap(), "total"), "12");
    assert_eq!(shown(target.get("1:2").unwrap(), "total"), "5");
    assert!(target.get("1:3").is_none());
    let rows = vec![row(&[("k", Some("1"))])];
    assert!(recompute_groups(&def, rows, &numeric(&["k", "a"])).is_err());
}

#[test]
fn a_grouped_query_spells_fields_out() {
    let def = parse(
        "TRANSFORM t FROM s GROUP BY k SELECT k AS k, k + 1 AS next, SUM(next) AS total",
    )
    .unwrap();
    assert_eq!(
        render_aggregate_select_sql(&def),
        "select \"k\" as \"k\", (\"k\" + 1::numeric) as \"next\", \
         sum((\"k\" + 1::numeric)) as \"total\" from \"s\" group by \"k\""
    );
}

#[test]
fn a_grouped_query_joins_what_it_follows() {
    let def = parse("TRANSFORM t FROM tags GROUP BY post.author SELECT COUNT(*) AS n").unwrap();
    let relationships = NameMap::from_entries(vec![(
        "post".to_string(),
        RelationshipDef {
            name: "post".to_string(),
            from_table: "tags".to_string(),
            from_col: "post_id".to_string(),
            to_table: "posts".to_string(),
            to_col: "id".to_string(),
        },
    )]);
    assert_eq!(
        render_aggregate_relationship_select_sql(&def, &relationships),
        "select count(*) as \"n\" from \"tags\" \
         left join \"posts\" as \"post\" on \"post\".\"id\" = \"tags\".\"post_id\" \
         group by \"post\".\"author\""
    );
}
