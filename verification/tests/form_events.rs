//! Names of the events of forms.

use onec_export::form_events::{
    is_uuid_like, merge_report, merge_warnings, FormEventTable, MergeStats, BUILTIN_FORM_EVENTS,
};
use onec_export::json::{parse_json, Json};

fn known_pair() -> (&'static str, &'static str) {
    BUILTIN_FORM_EVENTS[0]
}

#[test]
fn load_without_file_keeps_builtin() {
    let table = FormEventTable::builtin();
    assert_eq!(table.map.len(), BUILTIN_FORM_EVENTS.len());
    let (id, name) = known_pair();
    assert_eq!(table.event_name(id), Some(name));
}

#[test]
fn load_adds_new_record() {
    let mut check = FormEventTable::builtin();
    let stats = check
        .merge_json_str(r#"{"0f0f0f0f-1111-2222-3333-444444444444": "OnNewEvent"}"#, "тест")
        .expect("объект");
    assert_eq!(stats, MergeStats { read: 1, added: 1, overridden: 0, rejected: 0 });
    assert_eq!(check.event_name("0F0F0F0F-1111-2222-3333-444444444444"), Some("OnNewEvent"));
    assert_eq!(check.map.len(), BUILTIN_FORM_EVENTS.len() + 1);
}

#[test]
fn load_overrides_builtin_record() {
    let (id, _old) = known_pair();
    let body = format!(r#"{{"{}": "OnOverride"}}"#, id);
    let mut check = FormEventTable::builtin();
    let stats = check.merge_json_str(&body, "тест").expect("объект");
    assert_eq!(stats, MergeStats { read: 1, added: 0, overridden: 1, rejected: 0 });
    assert_eq!(check.event_name(id), Some("OnOverride"));
    assert_eq!(check.map.len(), BUILTIN_FORM_EVENTS.len());
}

#[test]
fn load_garbage_file_keeps_builtin() {
    let mut check = FormEventTable::builtin();
    assert!(check.merge_json_str("[[1, 2, 3]]", "тест").is_none());
    assert!(check.merge_json_str("это не json", "тест").is_none());
    assert_eq!(check.map.len(), BUILTIN_FORM_EVENTS.len());
}

const BAD_RECORDS: &str = r#"{
            "0f0f0f0f-1111-2222-3333-444444444444": "OnGood",
            "не-uuid": "OnBadId",
            "11111111-2222-3333-4444-55555555555": "OnShortId",
            "22222222-2222-3333-4444-555555555555": "",
            "33333333-2222-3333-4444-555555555555": "с пробелом",
            "44444444-2222-3333-4444-555555555555": 42
        }"#;

#[test]
fn bad_records_rejected_one_by_one() {
    let mut table = FormEventTable::builtin();
    let stats = table.merge_json_str(BAD_RECORDS, "тест").expect("объект");
    assert_eq!(stats.read, 6);
    assert_eq!(stats.added, 1);
    assert_eq!(stats.rejected, 5);
    assert_eq!(table.event_name("0f0f0f0f-1111-2222-3333-444444444444"), Some("OnGood"));
    assert!(table.event_name("не-uuid").is_none());
    assert_eq!(table.map.len(), BUILTIN_FORM_EVENTS.len() + 1);
}

#[test]
fn bad_records_are_named() {
    let records = match parse_json(BAD_RECORDS) {
        Some(Json::Object(records)) => records,
        other => panic!("{:?}", other),
    };
    let warnings = merge_warnings(&records, "f.json");
    assert_eq!(warnings.len(), 5);
    assert!(warnings.contains(
        &"⚠ formEventsPath (f.json): запись 'не-uuid' отброшена — идентификатор не uuid вида 8-4-4-4-12"
            .to_string()
    ));
    assert!(warnings.contains(
        &"⚠ formEventsPath (f.json): запись '44444444-2222-3333-4444-555555555555' отброшена — значение не строка"
            .to_string()
    ));
    let stats = MergeStats { read: 6, added: 1, overridden: 0, rejected: 5 };
    assert_eq!(
        merge_report("f.json", &stats),
        "formEventsPath: f.json — прочитано 6, новых 1, переопределено 0"
    );
}

#[test]
fn builtin_table_is_complete() {
    assert_eq!(BUILTIN_FORM_EVENTS.len(), 29);
    let table = FormEventTable::builtin();
    let spot_checks = [
        ("fe115cc8-9e33-4684-a166-bd5136fe7a9f", "OnChange"),
        ("1282f000-23b6-4887-87f4-9e8e79db3d32", "Selection"),
        ("178a97c4-0ffe-4fcc-93e6-505369939da5", "AutoComplete"),
        ("d710ea07-5c96-4c43-ab6e-e138d3653780", "URLProcessing"),
        ("53325f0c-b112-4c44-ab12-5d1ee0b1f07b", "DocumentComplete"),
    ];
    for (id, name) in spot_checks {
        assert_eq!(table.event_name(id), Some(name), "{id}");
    }
    let mut seen: Vec<&str> = Vec::new();
    for (id, name) in BUILTIN_FORM_EVENTS {
        assert!(is_uuid_like(id), "{id}");
        assert!(!name.is_empty() && !name.contains(char::is_whitespace), "{name:?}");
        assert!(!seen.contains(&id), "{id}");
        seen.push(id);
    }
}

#[test]
fn uuid_like_matches_strict_form() {
    assert!(is_uuid_like("0f0f0f0f-1111-2222-3333-444444444444"));
    assert!(is_uuid_like("0F0F0F0F-1111-2222-3333-444444444444"));
    assert!(!is_uuid_like("0f0f0f0f1111222233334444555555555555"));
    assert!(!is_uuid_like("0f0f0f0f-1111-2222-3333-44444444444"));
    assert!(!is_uuid_like(""));
    assert!(!is_uuid_like("zzzzzzzz-1111-2222-3333-444444444444"));
}

#[test]
fn builtin_identifiers_have_their_names_in_either_case() {
    let table = FormEventTable::builtin();
    for (id, name) in BUILTIN_FORM_EVENTS {
        assert_eq!(table.event_name(id), Some(name));
        assert_eq!(table.event_name(&id.to_uppercase()), Some(name));
    }
    assert_eq!(table.event_name("00000000-0000-0000-0000-000000000000"), None);
}
