//! What is remembered of a base.

use onec_export::processings::ManifestItem;
use onec_export::state::{is_out_of_date, BaseState, StoredMapping};
use onec_export::state_db::{items_from_saved, items_to_save, saved_kinds, Discovery};
use onec_export::strmap::StrMap;

fn fetched(at: String) -> BaseState {
    BaseState {
        storage_mapping: Some(StoredMapping {
            table: "x".into(),
            field_storage: "x".into(),
            field_hash: "x".into(),
            field_kind: "x".into(),
            enum_table: "x".into(),
            fetched_at: at,
        }),
        ..Default::default()
    }
}

#[test]
fn needs_refetch_when_no_mapping() {
    let s = BaseState::default();
    assert!(s.needs_storage_refetch(30));
}

#[test]
fn needs_refetch_when_old() {
    let s = fetched((chrono::Utc::now() - chrono::Duration::days(100)).to_rfc3339());
    assert!(s.needs_storage_refetch(30));
}

#[test]
fn no_refetch_when_fresh() {
    let s = fetched(chrono::Utc::now().to_rfc3339());
    assert!(!s.needs_storage_refetch(30));
}

#[test]
fn unreadable_time_is_out_of_date() {
    assert!(fetched("вчера".to_string()).needs_storage_refetch(30));
    let days: i64 = 30 * 86400;
    assert!(is_out_of_date(None, (0, 0), 30));
    assert!(!is_out_of_date(Some((0, 0)), (days, 999_999_999), 30));
    assert!(is_out_of_date(Some((0, 0)), (days + 1, 0), 30));
    assert!(!is_out_of_date(Some((0, 1)), (days + 1, 0), 30));
    assert!(!is_out_of_date(Some((days, 0)), (0, 0), 0));
    // as chrono has it, in a leap second too
    let at = chrono::DateTime::parse_from_rfc3339("2016-12-31T23:59:60.5Z").unwrap();
    for to in ["2017-01-01T00:00:00Z", "2017-01-01T00:00:01.2Z", "2016-12-31T23:59:59.9Z"] {
        let to = chrono::DateTime::parse_from_rfc3339(to).unwrap();
        let instant = |t: &chrono::DateTime<chrono::FixedOffset>| {
            (t.timestamp(), t.timestamp_subsec_nanos())
        };
        assert_eq!(
            is_out_of_date(Some(instant(&at)), instant(&to), 0),
            (to - at).num_seconds() > 0,
            "{}",
            to
        );
    }
    let plain = (chrono::Utc::now() - chrono::Duration::days(1))
        .format("%Y-%m-%dT%H:%M:%S")
        .to_string();
    assert!(!fetched(plain).needs_storage_refetch(30));
}

#[test]
fn load_returns_default_when_missing() {
    let s = BaseState::restored("demo-ut", None);
    assert_eq!(s.alias, "demo-ut");
    assert!(s.last_processed_at.is_none());
    assert!(s.storage_mapping.is_none());
    assert_eq!(s.consecutive_failures, 0);
    assert_eq!(BaseState::file_name("demo-ut"), "demo-ut.json");
}

#[test]
fn processors_are_saved_and_read_again() {
    let mut items = StrMap::new();
    items.insert(
        "UUID1".to_string(),
        ManifestItem {
            name: "Отчёт продаж".into(),
            kind: "report".into(),
            hash: "ABC".into(),
            path: "processings/Отчёт продаж.erf".into(),
            size: 12345,
            updated: "2026-06-02T14:00:00+0300".into(),
        },
    );
    let saved = items_to_save(&items);
    assert_eq!(saved.get("UUID1").unwrap().size, 12345);
    let back = items_from_saved(&saved);
    assert_eq!(back.len(), 1);
    assert_eq!(back.get("UUID1").unwrap().name, "Отчёт продаж");
    assert_eq!(back.get("UUID1").unwrap().hash, "ABC");
}

#[test]
fn kinds_stay_when_a_mapping_is_found_anew() {
    let m = onec_export::storage_mapping::StorageMapping {
        table: "_Reference181".into(),
        field_storage: "_Fld4776".into(),
        field_hash: "_Version".into(),
        field_kind: "_Fld4766RRef".into(),
        enum_table: "_Enum1315".into(),
        hash_is_binary: true,
    };
    let mut d = Discovery::updated(None, &m, "t1".to_string());
    assert_eq!(d.kind_uuid_to_name.len(), 0);
    d.kind_uuid_to_name.insert("AABB".to_string(), "ДополнительныйОтчёт".to_string());
    let d = Discovery::updated(Some(d), &m, "t2".to_string());
    assert_eq!(d.kind_uuid_to_name.len(), 1);
    assert_eq!(d.discovered_at.as_deref(), Some("t2"));
    assert_eq!(d.mapping(), m);
}

#[test]
fn kinds_are_read_from_what_is_kept() {
    let kinds = saved_kinds(r#"{"AA": "Отчёт"}"#);
    assert_eq!(kinds.len(), 1);
    assert_eq!(kinds.get("AA").unwrap(), "Отчёт");
    assert_eq!(saved_kinds("нет").len(), 0);
}
