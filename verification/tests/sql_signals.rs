//! Fingerprints of the service tables.

use onec_export::sql_signals::{
    config_changed, config_signal, diff_signals, extension_signal_line, fingerprint, hash_select,
    processing_signal_line, processings_query, SignalScope, StoredMappingLite,
};
use onec_export::state::{SqlSignals, StoredMapping};

fn scope_all() -> SignalScope {
    SignalScope {
        base: true,
        extensions: true,
        processings: Some(StoredMappingLite {
            table: "_Reference181".into(),
            field_hash: "_Version".into(),
            hash_is_binary: true,
        }),
    }
}

#[test]
fn fingerprint_is_stable_and_sensitive() {
    let a = vec!["ext1|2026-09-04|1".to_string(), "ext2|2026-09-04|2".to_string()];
    let b = a.clone();
    assert_eq!(fingerprint(&a), fingerprint(&b));

    let mut c = a.clone();
    c[1] = "ext2|2026-09-04|3".to_string();
    assert_ne!(fingerprint(&a), fingerprint(&c));
    assert_ne!(fingerprint(&a), fingerprint(&a[..1].to_vec()));
    assert_eq!(fingerprint(&vec![]).len(), 64);
}

#[test]
fn hash_select_binary_and_string() {
    assert_eq!(
        hash_select("_Version", true),
        "CONVERT(VARCHAR(130), CAST(_Version AS VARBINARY(64)), 2)"
    );
    assert_eq!(hash_select("_Fld4776", false), "RTRIM(CONVERT(NVARCHAR(64), _Fld4776))");
}

#[test]
fn binary_flag_by_field_name() {
    let m = StoredMapping {
        table: "_Reference181".into(),
        field_storage: "_Fld4776".into(),
        field_hash: "_Version".into(),
        field_kind: "_Fld4766RRef".into(),
        enum_table: "_Enum1315".into(),
        fetched_at: "2026-09-04T10:00:00+00:00".into(),
    };
    assert!(StoredMappingLite::from_stored(&m).hash_is_binary);

    let m2 = StoredMapping { field_hash: "_Fld4777".into(), ..m };
    assert!(!StoredMappingLite::from_stored(&m2).hash_is_binary);
}

#[test]
fn diff_first_run_is_a_reason() {
    let cur = SqlSignals::default();
    let reasons = diff_signals(None, &cur, &scope_all());
    assert_eq!(reasons.len(), 1);
    assert!(reasons[0].contains("первый опрос"));
}

#[test]
fn diff_no_changes_is_empty() {
    let cur = SqlSignals {
        config: "2026-09-04|10".into(),
        extensions: "aa".into(),
        processings: "bb".into(),
        taken_at: "t2".into(),
    };
    let prev = SqlSignals { taken_at: "t1".into(), ..cur.clone() };
    assert!(diff_signals(Some(&prev), &cur, &scope_all()).is_empty());
}

fn signals(c: &str, e: &str, p: &str) -> SqlSignals {
    SqlSignals {
        config: c.into(),
        extensions: e.into(),
        processings: p.into(),
        taken_at: String::new(),
    }
}

#[test]
fn diff_reports_each_component() {
    let prev = signals("c1", "e1", "p1");
    let cur = signals("c2", "e2", "p2");
    let reasons = diff_signals(Some(&prev), &cur, &scope_all());
    assert_eq!(reasons.len(), 3);
    assert!(reasons[0].contains("основная конфигурация"));
    assert!(reasons[1].contains("расширения"));
    assert!(reasons[2].contains("допобработки"));
}

#[test]
fn diff_ignores_components_outside_scope() {
    let prev = signals("c1", "e1", "p1");
    let cur = signals("c2", "e2", "p2");
    let scope = SignalScope { base: true, extensions: false, processings: None };
    let reasons = diff_signals(Some(&prev), &cur, &scope);
    assert_eq!(reasons.len(), 1);
    assert!(reasons[0].contains("основная конфигурация"));
}

#[test]
fn config_changed_by_config_fingerprint_only() {
    let prev = signals("c1", "e1", "p1");
    let only_ext = SqlSignals { extensions: "e2".into(), ..prev.clone() };
    assert!(!config_changed(Some(&prev), &only_ext, &scope_all()));

    let cfg_moved = SqlSignals { config: "c2".into(), ..prev.clone() };
    assert!(config_changed(Some(&prev), &cfg_moved, &scope_all()));
    assert!(config_changed(None, &prev, &scope_all()));

    let scope = SignalScope { base: false, extensions: true, processings: None };
    assert!(!config_changed(None, &prev, &scope));
}

#[test]
fn signals_are_written_from_rows() {
    assert_eq!(config_signal(Some("2026-09-04".to_string()), Some(10)), "2026-09-04|10");
    let a = extension_signal_line(Some("A".to_string()), Some("t".to_string()), Some(2));
    let b = extension_signal_line(Some("A".to_string()), Some("t".to_string()), Some(3));
    assert_ne!(a, b);
    let p = processing_signal_line(Some("id".to_string()), Some("h".to_string()));
    assert!(p.contains("id") && p.contains('h'), "{}", p);
    let m = StoredMappingLite {
        table: "_Reference181".into(),
        field_hash: "_Version".into(),
        hash_is_binary: true,
    };
    let q = processings_query(&m);
    assert!(q.contains("_Reference181") && q.contains(&hash_select("_Version", true)), "{}", q);
}
