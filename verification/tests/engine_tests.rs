use mapping_manager::engine::VersioningEngine;
use mapping_manager::omop_types::Concept;
use mapping_manager::omop_types::Date;
use mapping_manager::omop_types::EngineError;
use mapping_manager::omop_types::InvalidReason;
use mapping_manager::omop_types::MappedConcept;
use mapping_manager::omop_types::FIRST_LOCAL_CONCEPT_ID;

const TARGET_HB: i32 = 37171451;
const TARGET_HB_CORRECTED: i32 = 37208644;

fn terminology_row(id: i32, name: &str) -> Concept {
    Concept {
        concept_id: id,
        concept_name: name.to_string(),
        domain_id: "Observation".to_string(),
        vocabulary_id: "SNOMED".to_string(),
        concept_class_id: "Observable Entity".to_string(),
        standard_concept: Some("S".to_string()),
        concept_code: format!("code-{id}"),
        valid_start_date: Date { year: 2002, month: 1, day: 31 },
        valid_end_date: Date { year: 2099, month: 12, day: 31 },
        invalid_reason: None,
    }
}

fn engine() -> VersioningEngine {
    let terminology = vec![
        terminology_row(TARGET_HB, "Hemoglobin measurement"),
        terminology_row(TARGET_HB_CORRECTED, "Hemoglobin mass concentration"),
    ];
    VersioningEngine::new(terminology)
}

fn haemoglobin_draft(target: i32) -> MappedConcept {
    MappedConcept {
        concept_name: "FBC_Haemoglobin".to_string(),
        domain_id: "LIMS.BloodResults".to_string(),
        vocabulary_id: "GSTT".to_string(),
        concept_class_id: "Observable Entity".to_string(),
        concept_code: "FBC_Hb_Mass".to_string(),
        maps_to_concept_id: target,
    }
}

fn today() -> Date {
    Date { year: 2024, month: 6, day: 1 }
}

fn later() -> Date {
    Date { year: 2024, month: 7, day: 15 }
}

#[test]
fn create_assigns_first_local_id() {
    let mut e = engine();
    let id = e
        .create(haemoglobin_draft(TARGET_HB), today())
        .expect("create should succeed")
        .concept_id
        .expect("a fresh id is always assigned");
    assert_eq!(id, FIRST_LOCAL_CONCEPT_ID);
    assert_eq!(id, 2_000_000_000);
}

#[test]
fn created_concept_row_is_active_with_sentinel_expiry() {
    let mut e = engine();
    let id = e
        .create(haemoglobin_draft(TARGET_HB), today())
        .unwrap()
        .concept_id
        .unwrap();
    let c = e.get_concept(id).expect("created concept is fetchable");
    assert_eq!(c.concept_id, id);
    assert_eq!(c.concept_name, "FBC_Haemoglobin");
    assert_eq!(c.domain_id, "LIMS.BloodResults");
    assert_eq!(c.vocabulary_id, "GSTT");
    assert_eq!(c.concept_class_id, "Observable Entity");
    assert_eq!(c.concept_code, "FBC_Hb_Mass");
    assert_eq!(c.standard_concept, None);
    assert_eq!(c.valid_start_date, today());
    assert_eq!(c.valid_end_date, Date { year: 2099, month: 12, day: 31 });
    assert_eq!(c.invalid_reason, None);
}

#[test]
fn full_lifecycle_scenario() {
    // Create(A, T1); GetActiveTarget = T1.
    let mut e = engine();
    let x = e
        .create(haemoglobin_draft(TARGET_HB), today())
        .unwrap()
        .concept_id
        .unwrap();
    let t = e.get_active_target(x).expect("mapped concept has a target");
    assert_eq!(t.concept_id, TARGET_HB);

    // Retarget(X, T2); GetActiveTarget = T2, and the original row is 'U'.
    e.retarget(x, TARGET_HB_CORRECTED, later()).expect("retarget succeeds");
    let t2 = e.get_active_target(x).expect("still mapped");
    assert_eq!(t2.concept_id, TARGET_HB_CORRECTED);
    let rels = e.list_relationships();
    assert_eq!(rels.len(), 2);
    assert_eq!(rels[0].concept_id_1, x);
    assert_eq!(rels[0].concept_id_2, TARGET_HB);
    assert_eq!(rels[0].invalid_reason, Some(InvalidReason::Superseded));
    assert_eq!(rels[0].valid_end_date, later());
    assert_eq!(rels[1].concept_id_2, TARGET_HB_CORRECTED);
    assert_eq!(rels[1].invalid_reason, None);

    // Delete(X): concept stamped 'D', target gone, relationship row 'D'.
    e.delete(x, later()).expect("delete succeeds");
    let c = e.get_concept(x).expect("deleted concept stays fetchable by id");
    assert_eq!(c.invalid_reason, Some(InvalidReason::Deleted));
    assert_eq!(c.valid_end_date, later());
    assert_eq!(e.get_active_target(x).unwrap_err(), EngineError::NotFound);
    let rels = e.list_relationships();
    assert_eq!(rels[0].invalid_reason, Some(InvalidReason::Superseded));
    assert_eq!(rels[1].invalid_reason, Some(InvalidReason::Deleted));
    assert_eq!(rels[1].valid_end_date, later());
}

#[test]
fn duplicate_create_conflicts_whatever_the_id() {
    let mut e = engine();
    e.create(haemoglobin_draft(TARGET_HB), today()).expect("first create succeeds");
    // Same natural key, different name and target: still a conflict.
    let mut second = haemoglobin_draft(TARGET_HB_CORRECTED);
    second.concept_name = "FBC_Haemoglobin_v2".to_string();
    let err = e.create(second, later()).unwrap_err();
    assert_eq!(err, EngineError::Conflict);
    // Exactly one active concept row carries the key afterwards.
    assert_eq!(e.list_concepts().len(), 1);
    assert_eq!(e.list_relationships().len(), 1);
}

#[test]
fn create_with_unknown_target_writes_nothing() {
    let mut e = engine();
    let err = e.create(haemoglobin_draft(999999), today()).unwrap_err();
    assert_eq!(err, EngineError::TargetNotFound);
    assert!(e.list_concepts().is_empty());
    assert!(e.list_relationships().is_empty());
    assert_eq!(e.get_concept(FIRST_LOCAL_CONCEPT_ID).unwrap_err(), EngineError::NotFound);
}

#[test]
fn retarget_without_active_mapping_is_not_found() {
    let mut e = engine();
    // Never mapped at all.
    assert_eq!(
        e.retarget(FIRST_LOCAL_CONCEPT_ID, TARGET_HB, today()).unwrap_err(),
        EngineError::NotFound
    );
    assert!(e.list_relationships().is_empty());

    // Already deleted.
    let x = e
        .create(haemoglobin_draft(TARGET_HB), today())
        .unwrap()
        .concept_id
        .unwrap();
    e.delete(x, today()).unwrap();
    let before = e.list_relationships();
    assert_eq!(
        e.retarget(x, TARGET_HB_CORRECTED, later()).unwrap_err(),
        EngineError::NotFound
    );
    assert_eq!(e.list_relationships(), before);
}

#[test]
fn delete_unknown_or_deleted_is_not_found_without_cascade() {
    let mut e = engine();
    assert_eq!(e.delete(2_000_001_000, today()).unwrap_err(), EngineError::NotFound);
    assert!(e.list_concepts().is_empty());

    let x = e
        .create(haemoglobin_draft(TARGET_HB), today())
        .unwrap()
        .concept_id
        .unwrap();
    e.delete(x, today()).unwrap();
    let rels_before = e.list_relationships();
    // A second delete finds no active row and must not re-stamp anything.
    assert_eq!(e.delete(x, later()).unwrap_err(), EngineError::NotFound);
    assert_eq!(e.list_relationships(), rels_before);
    let c = e.get_concept(x).unwrap();
    assert_eq!(c.valid_end_date, today());
}

#[test]
fn deleted_concepts_hidden_from_list_but_fetchable_by_id() {
    let mut e = engine();
    let x = e
        .create(haemoglobin_draft(TARGET_HB), today())
        .unwrap()
        .concept_id
        .unwrap();
    assert_eq!(e.list_concepts().len(), 1);
    e.delete(x, later()).unwrap();
    assert!(e.list_concepts().is_empty());
    assert!(e.get_concept(x).is_ok());
}

#[test]
fn natural_key_reusable_after_deletion() {
    let mut e = engine();
    let x = e
        .create(haemoglobin_draft(TARGET_HB), today())
        .unwrap()
        .concept_id
        .unwrap();
    e.delete(x, today()).unwrap();
    // Invalidated concepts do not block reuse of the same natural key.
    let y = e
        .create(haemoglobin_draft(TARGET_HB), later())
        .expect("key freed by deletion")
        .concept_id
        .unwrap();
    assert_eq!(y, x + 1);
    assert_eq!(e.list_concepts().len(), 1);
}

#[test]
fn retarget_twice_keeps_one_active_relationship() {
    let mut e = engine();
    let x = e
        .create(haemoglobin_draft(TARGET_HB), today())
        .unwrap()
        .concept_id
        .unwrap();
    e.retarget(x, TARGET_HB_CORRECTED, later()).unwrap();
    e.retarget(x, TARGET_HB_CORRECTED, later()).unwrap();
    let rels = e.list_relationships();
    assert_eq!(rels.len(), 3);
    let active: Vec<_> = rels.iter().filter(|r| r.invalid_reason.is_none()).collect();
    assert_eq!(active.len(), 1);
    assert_eq!(active[0].concept_id_2, TARGET_HB_CORRECTED);
    assert_eq!(e.get_active_target(x).unwrap().concept_id, TARGET_HB_CORRECTED);
}

#[test]
fn get_concept_of_unknown_id_is_not_found() {
    let e = engine();
    assert_eq!(e.get_concept(123).unwrap_err(), EngineError::NotFound);
}

#[test]
fn target_exists_consults_the_terminology() {
    let e = engine();
    assert!(e.target_exists(TARGET_HB));
    assert!(e.target_exists(TARGET_HB_CORRECTED));
    assert!(!e.target_exists(999999));
}
