use mapping_manager::concept_store::ConceptStore;
use mapping_manager::omop_types::Date;
use mapping_manager::omop_types::EngineError;
use mapping_manager::omop_types::InvalidReason;
use mapping_manager::omop_types::MappedConcept;
use mapping_manager::omop_types::RelationshipKind;
use mapping_manager::omop_types::FIRST_LOCAL_CONCEPT_ID;
use mapping_manager::relationship_ledger::RelationshipLedger;

fn draft(code: &str) -> MappedConcept {
    MappedConcept {
        concept_name: "FBC_Haemoglobin".to_string(),
        domain_id: "LIMS.BloodResults".to_string(),
        vocabulary_id: "GSTT".to_string(),
        concept_class_id: "Observable Entity".to_string(),
        concept_code: code.to_string(),
        maps_to_concept_id: 37171451,
    }
}

fn day(d: u8) -> Date {
    Date { year: 2024, month: 3, day: d }
}

#[test]
fn store_assigns_consecutive_ids() {
    let mut s = ConceptStore::new();
    let a = s.insert(draft("FBC_Hb_Mass"), day(1)).unwrap();
    let b = s.insert(draft("FBC_WBC_Count"), day(1)).unwrap();
    assert_eq!(a, FIRST_LOCAL_CONCEPT_ID);
    assert_eq!(b, FIRST_LOCAL_CONCEPT_ID + 1);
}

#[test]
fn store_insert_refuses_active_duplicate() {
    let mut s = ConceptStore::new();
    s.insert(draft("FBC_Hb_Mass"), day(1)).unwrap();
    assert_eq!(s.insert(draft("FBC_Hb_Mass"), day(2)).unwrap_err(), EngineError::Conflict);
    assert!(s.find_active_duplicate(&draft("FBC_Hb_Mass")).is_some());
    assert!(s.find_active_duplicate(&draft("FBC_WBC_Count")).is_none());
}

#[test]
fn store_invalidate_is_a_conditional_update() {
    let mut s = ConceptStore::new();
    let id = s.insert(draft("FBC_Hb_Mass"), day(1)).unwrap();
    // Absent row: nothing changes.
    assert!(!s.invalidate(id + 7, InvalidReason::Deleted, day(2)));
    // Active row: one change.
    assert!(s.invalidate(id, InvalidReason::Deleted, day(2)));
    // Already invalidated: the guard refuses a second stamp.
    assert!(!s.invalidate(id, InvalidReason::Deleted, day(3)));
    let c = s.get(id).unwrap();
    assert_eq!(c.invalid_reason, Some(InvalidReason::Deleted));
    assert_eq!(c.valid_end_date, day(2));
}

#[test]
fn store_get_active_hides_invalidated_rows() {
    let mut s = ConceptStore::new();
    let id = s.insert(draft("FBC_Hb_Mass"), day(1)).unwrap();
    assert!(s.get_active(id).is_ok());
    s.invalidate(id, InvalidReason::Deleted, day(2));
    assert_eq!(s.get_active(id).unwrap_err(), EngineError::NotFound);
    // Still fetchable without the active filter.
    assert!(s.get(id).is_some());
    assert!(s.list_active().is_empty());
}

#[test]
fn ledger_tracks_one_active_row_per_source() {
    let mut l = RelationshipLedger::new();
    let src = FIRST_LOCAL_CONCEPT_ID;
    let expiry = Date { year: 2099, month: 12, day: 31 };
    l.insert(src, 37171451, day(1), expiry);
    assert_eq!(l.get_active_target(src), Some(37171451));

    assert_eq!(l.invalidate_all_active(src, InvalidReason::Superseded, day(2)), 1);
    assert_eq!(l.get_active_target(src), None);
    l.insert(src, 37208644, day(2), expiry);
    assert_eq!(l.get_active_target(src), Some(37208644));

    // No active row left after a cascade; a second cascade touches nothing.
    assert_eq!(l.invalidate_all_active(src, InvalidReason::Deleted, day(3)), 1);
    assert_eq!(l.invalidate_all_active(src, InvalidReason::Deleted, day(4)), 0);

    let rows = l.list_all();
    assert_eq!(rows.len(), 2);
    assert_eq!(rows[0].invalid_reason, Some(InvalidReason::Superseded));
    assert_eq!(rows[0].valid_end_date, day(2));
    assert_eq!(rows[1].invalid_reason, Some(InvalidReason::Deleted));
    assert_eq!(rows[1].valid_end_date, day(3));
    assert_eq!(rows[0].relationship_id, RelationshipKind::MapsTo);
    assert_eq!(rows[0].valid_start_date, day(1));
}

#[test]
fn reason_codes_match_the_persisted_letters() {
    assert_eq!(InvalidReason::Superseded.code(), 'U');
    assert_eq!(InvalidReason::Deleted.code(), 'D');
    assert_eq!(RelationshipKind::MapsTo.code(), "Maps to");
}
