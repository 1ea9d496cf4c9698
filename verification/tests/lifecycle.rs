use trellis::defs::lifecycle::{
    admit_drop, dependency_blockers, drop_table_sql, plan_drop, plan_pause, quote_qualified,
    relationship_readers, DropOutcome, DropStep, PauseOutcome, Refusal,
};
use trellis::defs::model::{EdgeKind, RelationshipCardinality, TransformStatus};
use trellis::ordered::sort_names;

fn texts(list: &[&str]) -> Vec<String> {
    list.iter().map(|s| s.to_string()).collect()
}

#[test]
fn pausing_freezes_what_is_not_frozen() {
    for status in [
        TransformStatus::WaitingToBackfill,
        TransformStatus::Backfilling,
        TransformStatus::Live,
    ] {
        assert_eq!(plan_pause("t", Some(status)), Ok(PauseOutcome::Paused));
    }
    for status in [TransformStatus::Paused, TransformStatus::Quarantined] {
        assert_eq!(
            plan_pause("t", Some(status)),
            Ok(PauseOutcome::AlreadyFrozen(status))
        );
    }
    assert_eq!(
        plan_pause("t", None),
        Err(Refusal::TransformNotFound {
            transform: "t".to_string()
        })
    );
}

#[test]
fn only_a_frozen_definition_is_dropped() {
    assert_eq!(
        plan_drop("t", None),
        Ok(DropStep::Finish(DropOutcome::Absent))
    );
    assert_eq!(
        plan_drop("t", Some(TransformStatus::Paused)),
        Ok(DropStep::CheckDependents)
    );
    assert_eq!(
        plan_drop("t", Some(TransformStatus::Quarantined)),
        Ok(DropStep::CheckDependents)
    );
    assert_eq!(
        plan_drop("t", Some(TransformStatus::Live)),
        Err(Refusal::TransformNotPaused {
            transform: "t".to_string(),
            status: TransformStatus::Live,
        })
    );
}

#[test]
fn dependents_block_a_drop() {
    assert_eq!(admit_drop("t", Vec::new()), Ok(()));
    assert_eq!(
        admit_drop("t", texts(&["u"])),
        Err(Refusal::DependentsBlockDrop {
            subject: "t".to_string(),
            dependents: texts(&["u"]),
        })
    );
}

#[test]
fn readers_are_those_over_the_from_table() {
    let stored = texts(&[
        "TRANSFORM a FROM posts SELECT author.name AS n",
        "TRANSFORM b FROM comments SELECT author.name AS n",
        "TRANSFORM c FROM posts SELECT title AS n",
        "TRANSFORM d FROM posts GROUP BY author.country SELECT COUNT(*) AS n",
    ]);
    assert_eq!(
        relationship_readers(&stored, "posts", "author", None).unwrap(),
        texts(&["a", "d"])
    );
    assert_eq!(
        relationship_readers(&stored, "posts", "author", Some("a")).unwrap(),
        texts(&["d"])
    );
    assert!(relationship_readers(&texts(&["nonsense"]), "posts", "author", None).is_err());
}

#[test]
fn blockers_are_sorted_and_named_once() {
    let stored = texts(&[
        "TRANSFORM z FROM posts SELECT stats.n AS n",
        "TRANSFORM stats FROM posts SELECT stats.n AS n",
    ]);
    let relationships = vec![("posts".to_string(), "stats".to_string())];
    assert_eq!(
        dependency_blockers(texts(&["z", "b"]), &relationships, &stored, "stats").unwrap(),
        texts(&["b", "posts.stats", "z"])
    );
    assert_eq!(
        dependency_blockers(Vec::new(), &Vec::new(), &stored, "stats").unwrap(),
        Vec::<String>::new()
    );
}

#[test]
fn names_are_sorted_by_their_characters() {
    assert_eq!(
        sort_names(&texts(&["b", "a", "ab", "b", "", "é", "z"])),
        texts(&["", "a", "ab", "b", "z", "é"])
    );
}

#[test]
fn a_stored_table_is_quoted_part_by_part() {
    assert_eq!(quote_qualified("public.order_totals"), "\"public\".\"order_totals\"");
    assert_eq!(
        drop_table_sql("public.a\"b"),
        "drop table if exists \"public\".\"a\"\"b\""
    );
}

#[test]
fn stored_words_are_read_back() {
    for cardinality in [RelationshipCardinality::ToOne, RelationshipCardinality::ToMany] {
        assert_eq!(
            RelationshipCardinality::from_persisted(cardinality.as_str()),
            Some(cardinality)
        );
    }
    assert_eq!(RelationshipCardinality::from_persisted("to_none"), None);
    assert_eq!(TransformStatus::from_persisted("gone"), None);
    assert_eq!(EdgeKind::Source.as_str(), "source");
    let words = [EdgeKind::Source, EdgeKind::Join, EdgeKind::Relationship].map(|k| k.as_str());
    assert!(words[0] != words[1] && words[1] != words[2] && words[0] != words[2]);
}
