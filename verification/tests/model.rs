use trellis::defs::model::TransformStatus;

#[test]
fn every_variant_is_listed_in_all() {
    for status in TransformStatus::ALL {
        match status {
            TransformStatus::WaitingToBackfill
            | TransformStatus::Backfilling
            | TransformStatus::Live
            | TransformStatus::Quarantined
            | TransformStatus::Paused => {}
        }
        assert_eq!(
            TransformStatus::from_persisted(status.as_str()),
            Some(status),
            "every listed variant round-trips through its persisted word"
        );
    }
    assert_eq!(
        TransformStatus::ALL.len(),
        5,
        "bump this alongside `ALL` when a status is added"
    );
}

#[test]
fn dispatchable_is_every_unfrozen_status() {
    assert_eq!(
        TransformStatus::dispatchable(),
        vec!["waiting_to_backfill", "backfilling", "live"],
        "a frozen definition is handed no new work; everything else is"
    );
    assert!(TransformStatus::Paused.is_frozen());
    assert!(TransformStatus::Quarantined.is_frozen());
}
