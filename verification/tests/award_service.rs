use ausawards::award::{AwardRespositoryImpl, AwardServiceImpl};
use ausawards::converters::AwardConverterImpl;
use ausawards::dto;
use ausawards::errors::ApiError;

fn service() -> AwardServiceImpl {
    AwardServiceImpl::new(AwardConverterImpl::new(), AwardRespositoryImpl::new())
}

fn sample_request() -> dto::CreateAwardRequest {
    dto::CreateAwardRequest {
        external_id: String::from("MA000001"),
        name: String::from("Test Award"),
        industry_name: String::from("Testing"),
        common_rule: None,
        alternate_ids: vec![dto::AwardAlternateId {
            id: String::from("AP1"),
            id_type: String::from("ORIGINAL_PRINT_ID"),
        }],
        operative_date: 1_600_000_000,
        expired_date: None,
        classifications: vec![dto::AwardClassification {
            id: String::from("c1"),
            title: String::from("Level 1"),
            active: true,
            note: String::new(),
        }],
    }
}

#[test]
fn create_award_succeeds_and_misses_stay_not_found() {
    let mut svc = service();
    svc.create_award(sample_request()).expect("create");
    let missing = svc.load_award(&String::from("no-such-id"));
    assert!(matches!(missing, Err(ApiError::NotFound)));
}

#[test]
fn updates_on_missing_award_report_not_found() {
    let mut svc = service();
    let missing_id = String::from("missing");
    assert!(matches!(
        svc.add_alt_id(
            &missing_id,
            dto::AwardAlternateId { id: String::from("x"), id_type: String::from("t") },
        ),
        Err(ApiError::NotFound)
    ));
    assert!(matches!(
        svc.update_expired_at(&missing_id, Some(5)),
        Err(ApiError::NotFound)
    ));
    assert!(matches!(
        svc.update_classification_status(&missing_id, &String::from("c1"), false),
        Err(ApiError::NotFound)
    ));
}

#[test]
fn classification_updates_take_effect() {
    let mut repo = AwardRespositoryImpl::new();
    let award = ausawards::model::Award {
        id: String::from("a1"),
        external_id: String::from("MA000002"),
        name: String::from("Second Award"),
        industry_name: String::from("Testing"),
        common_rule: Some(String::from("federal")),
        alternate_ids: vec![],
        operative_date: 1_600_000_000,
        expired_date: None,
        classifications: vec![ausawards::model::AwardClassification {
            id: String::from("c1"),
            title: String::from("Level 1"),
            active: true,
            note: String::new(),
        }],
    };
    repo.save(&award);
    let mut svc = AwardServiceImpl::new(AwardConverterImpl::new(), repo);
    let id = String::from("a1");

    svc.update_classification_status(&id, &String::from("c1"), false).expect("status");
    svc.update_classification_note(&id, &String::from("c1"), "superseded").expect("note");
    let unknown = svc.update_classification_status(&id, &String::from("zz"), true);
    assert!(matches!(unknown, Err(ApiError::NotFound)));

    let loaded = svc.load_award(&id).expect("load");
    assert_eq!(loaded.classifications.len(), 1);
    assert!(!loaded.classifications[0].active);
    assert_eq!(loaded.classifications[0].note, "superseded");

    svc.add_alt_id(
        &id,
        dto::AwardAlternateId {
            id: String::from("AP9"),
            id_type: String::from("ORIGINATING_MATTER"),
        },
    )
    .expect("alt id");
    svc.add_classification(
        &id,
        dto::AwardClassification {
            id: String::from("c2"),
            title: String::from("Level 2"),
            active: true,
            note: String::new(),
        },
    )
    .expect("classification");
    svc.update_expired_at(&id, Some(1_700_000_000)).expect("expiry");

    let loaded = svc.load_award(&id).expect("load");
    assert_eq!(loaded.alternate_ids.len(), 1);
    assert_eq!(loaded.alternate_ids[0].id, "AP9");
    assert_eq!(loaded.classifications.len(), 2);
    assert_eq!(loaded.expired_date, Some(1_700_000_000));

    svc.update_expired_at(&id, None).expect("expiry cleared");
    let loaded = svc.load_award(&id).expect("load");
    assert_eq!(loaded.expired_date, None);
}
