//! Events of the log of a base.

use onec_export::eventlog_watcher::{
    answered_items, mark_events_processed, query_arguments, query_new_events, query_start, was_seen,
    LogEvent,
};
use onec_export::json::Json;
use onec_export::state::BaseState;
use sha2::Digest;

fn ev(date: &str, event: &str, user: &str) -> LogEvent {
    LogEvent {
        date: date.into(),
        event: event.into(),
        user: user.into(),
        metadata: String::new(),
        comment: String::new(),
        data_pres: String::new(),
        level: "Информация".into(),
    }
}

#[test]
fn hash_stable_and_distinct() {
    let a = ev("2026-04-26T21:02:38", "_$InfoBase$_.DBConfigUpdate", "Иванов");
    let b = ev("2026-04-26T21:02:38", "_$InfoBase$_.DBConfigUpdate", "Иванов");
    let c = ev("2026-04-26T21:02:38", "_$InfoBase$_.DBConfigUpdate", "Петров");
    assert_eq!(a.hash(), b.hash());
    assert_ne!(a.hash(), c.hash());
}

#[test]
fn hash_is_that_of_the_json_of_the_event() {
    let e = ev("2026-04-26T21:02:38", "X", "\"U\"");
    let text = "{\"Дата\":\"2026-04-26T21:02:38\",\"ИмяПользователя\":\"\\\"U\\\"\",\
                \"Комментарий\":\"\",\"Метаданные\":\"\",\"ПредставлениеДанных\":\"\",\
                \"Событие\":\"X\"}";
    let digest = sha2::Sha256::digest(text.as_bytes());
    let hex: String = digest.iter().map(|b| format!("{:02x}", b)).collect();
    assert_eq!(e.hash(), hex);
}

#[test]
fn mark_processed_writes_max_timestamp_and_hashes() {
    let mut state = BaseState::default();
    let events = vec![
        ev("2026-04-26T21:00:00", "X", "U1"),
        ev("2026-04-26T21:02:38", "X", "U1"),
        ev("2026-04-26T21:02:38", "X", "U2"),
        ev("2026-04-26T21:02:38", "Y", "U1"),
    ];
    mark_events_processed(&mut state, &events);
    assert_eq!(state.last_processed_at.as_deref(), Some("2026-04-26T21:02:38"));
    assert_eq!(state.processed_hashes_at_last_dt.len(), 3);
    let h_old = ev("2026-04-26T21:00:00", "X", "U1").hash();
    assert!(!state.processed_hashes_at_last_dt.contains(&h_old));
}

#[test]
fn mark_processed_noop_on_empty() {
    let mut state = BaseState {
        last_processed_at: Some("2026-04-26T20:00:00".into()),
        processed_hashes_at_last_dt: vec!["x".into()],
        ..Default::default()
    };
    mark_events_processed(&mut state, &[]);
    assert_eq!(state.last_processed_at.as_deref(), Some("2026-04-26T20:00:00"));
    assert_eq!(state.processed_hashes_at_last_dt, vec!["x".to_string()]);
}

#[test]
fn every_event_is_given_once() {
    let mut state = BaseState::default();
    assert_eq!(query_start(&state, "first".to_string()), "first");
    let first = vec![
        ev("2026-04-26T21:02:38", "X", "U1"),
        ev("2026-04-26T21:00:00", "X", "U1"),
    ];
    let new = query_new_events(&state, first);
    assert_eq!(new[0].date, "2026-04-26T21:00:00");
    assert_eq!(new[1].date, "2026-04-26T21:02:38");
    mark_events_processed(&mut state, &new);
    assert_eq!(query_start(&state, "first".to_string()), "2026-04-26T21:02:38");
    // the same second once more, with another event in it, and a later one
    let second = vec![
        ev("2026-04-26T21:02:39", "X", "U1"),
        ev("2026-04-26T21:02:38", "X", "U1"),
        ev("2026-04-26T21:02:38", "X", "U2"),
    ];
    assert!(was_seen(&state, &second[1]));
    let new = query_new_events(&state, second);
    assert_eq!(new.len(), 2);
    assert_eq!(new[0].user, "U2");
    assert_eq!(new[1].date, "2026-04-26T21:02:39");
}

#[test]
fn query_asks_for_the_kinds_of_events() {
    let kinds = vec!["a".to_string(), "b".to_string()];
    let asked = query_arguments("2026-04-26T21:02:38", &kinds);
    assert_eq!(asked.text("from").as_deref(), Some("2026-04-26T21:02:38"));
    assert!(matches!(asked.get("limit"), Some(Json::Number(n)) if n == "500"));
    let Some(Json::List(events)) = asked.get("filter").unwrap().get("events") else {
        panic!("no list")
    };
    assert!(matches!(&events[0], Json::Text(s) if s == "a"));
    assert!(matches!(&events[1], Json::Text(s) if s == "b"));
    assert_eq!(events.len(), 2);
}

#[test]
fn answer_gives_its_items() {
    let items = answered_items(r#"{"success":true,"items":[{"Событие":"X"},1]}"#).unwrap();
    assert_eq!(items.len(), 2);
    assert_eq!(items[0].text("Событие").as_deref(), Some("X"));
    for raw in ["{}", "[]", r#"{"items":{}}"#] {
        assert_eq!(answered_items(raw).unwrap().len(), 0, "{}", raw);
    }
    assert_eq!(
        answered_items("нет").unwrap_err(),
        "eventlog_query возврат не JSON: expected value at line 1 column 1\nbody[:500]=нет"
    );
}

#[test]
fn events_of_one_second_are_given_once() {
    let at = "2026-04-26T21:02:38";
    let (e1, e2) = (ev(at, "X", "U1"), ev(at, "X", "U2"));
    let mut state = BaseState::default();
    mark_events_processed(&mut state, &[e1.clone()]);
    let new = query_new_events(&state, vec![e1.clone(), e2.clone()]);
    assert_eq!(new, vec![e2.clone()]);
    mark_events_processed(&mut state, &new);
    assert_eq!(state.last_processed_at.as_deref(), Some(at));
    assert_eq!(state.processed_hashes_at_last_dt, vec![e1.hash(), e2.hash()]);
    assert!(query_new_events(&state, vec![e1, e2]).is_empty());
    // A later time leaves the hashes of the one before behind.
    let e3 = ev("2026-04-26T21:02:39", "X", "U1");
    mark_events_processed(&mut state, &[e3.clone()]);
    assert_eq!(state.processed_hashes_at_last_dt, vec![e3.hash()]);
}
