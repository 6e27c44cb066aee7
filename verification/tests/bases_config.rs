//! The register of bases.

use onec_export::bases_config::{
    alias_for_output_path_in, is_valid_git_autocrlf, normalize_output_path, BaseEntry,
    ChangeDetection, DaemonConfig,
};

fn sql_base() -> BaseEntry {
    BaseEntry::new(
        "ut".to_string(),
        "sql-server".to_string(),
        "ut".to_string(),
        "export_user".to_string(),
        String::new(),
        "C:/Program Files/1cv8/8.3/bin/ibcmd.exe".to_string(),
        "C:/Repos/demo-ut".to_string(),
    )
}

fn minimal_base() -> BaseEntry {
    BaseEntry {
        mcp_url: "http://1c-server/ut/hs/mcp".to_string(),
        mcp_api_key: "key123".to_string(),
        ..sql_base()
    }
}

#[test]
fn parses_minimal() {
    let cfg = DaemonConfig::new(vec![minimal_base()]);
    cfg.validate().unwrap();

    assert_eq!(cfg.check_interval_minutes, 30);
    assert_eq!(cfg.lookback_hours_first_run, 168);
    assert_eq!(cfg.bases.len(), 1);
    assert_eq!(cfg.bases[0].alias, "ut");
    assert!(cfg.bases[0].export_base);
    assert!(cfg.bases[0].export_extensions);
    assert!(!cfg.bases[0].export_processings);
    assert!(!cfg.bases[0].save_artifacts);
    assert_eq!(cfg.trigger_events.len(), 4);
}

#[test]
fn save_artifacts_defaults_to_false_and_reads_true() {
    let cfg = DaemonConfig::new(vec![minimal_base()]);
    assert!(!cfg.bases[0].save_artifacts);
    let cfg2 = DaemonConfig::new(vec![BaseEntry { save_artifacts: true, ..minimal_base() }]);
    assert!(cfg2.bases[0].save_artifacts);
}

#[test]
fn log_level_defaults_to_info_and_reads_debug() {
    let cfg = DaemonConfig::new(vec![minimal_base()]);
    assert_eq!(cfg.log_level, "info");
    let cfg2 = DaemonConfig { log_level: "debug".to_string(), ..DaemonConfig::new(vec![minimal_base()]) };
    assert_eq!(cfg2.log_level, "debug");
}

#[test]
fn git_autocrlf_defaults_to_false_and_validates_value() {
    let cfg = DaemonConfig::new(vec![minimal_base()]);
    cfg.validate().unwrap();
    assert_eq!(cfg.bases[0].git_autocrlf, "false");

    let cfg2 =
        DaemonConfig::new(vec![BaseEntry { git_autocrlf: "input".to_string(), ..minimal_base() }]);
    cfg2.validate().unwrap();
    assert_eq!(cfg2.bases[0].git_autocrlf, "input");

    let cfg3 =
        DaemonConfig::new(vec![BaseEntry { git_autocrlf: "yes".to_string(), ..minimal_base() }]);
    let err = format!("{}", cfg3.validate().unwrap_err());
    assert!(err.contains("gitAutocrlf"), "{}", err);
    assert!(err.contains("input"), "{}", err);
}

#[test]
fn alias_by_output_path_ignores_slashes_and_case() {
    let cfg = DaemonConfig::new(vec![minimal_base()]);
    assert_eq!(
        alias_for_output_path_in(&cfg.bases, r"C:\Repos\demo-ut").as_deref(),
        Some("ut")
    );
    assert_eq!(
        alias_for_output_path_in(&cfg.bases, "c:/repos/demo-ut/").as_deref(),
        Some("ut")
    );
    assert_eq!(alias_for_output_path_in(&cfg.bases, "C:/Repos/demo-bp"), None);
    assert_eq!(alias_for_output_path_in(&cfg.bases, "  "), None);
}

#[test]
fn paths_are_compared_in_lower_case() {
    assert_eq!(normalize_output_path(r" C:\Ёлка\ "), "c:/ёлка");
    assert_eq!(normalize_output_path("C:/Ёлка//"), "c:/ёлка");
}

#[test]
fn rejects_empty_bases() {
    let cfg = DaemonConfig::new(Vec::new());
    let err = cfg.validate().unwrap_err();
    assert!(format!("{}", err).contains("bases"));
}

#[test]
fn rejects_duplicate_alias() {
    let cfg = DaemonConfig::new(vec![minimal_base(), minimal_base()]);
    let err = cfg.validate().unwrap_err();
    assert!(format!("{}", err).contains("'ut'"));
}

#[test]
fn rejects_password_auth_without_creds() {
    let cfg =
        DaemonConfig::new(vec![BaseEntry { git_auth_type: "password".to_string(), ..minimal_base() }]);
    let err = cfg.validate().unwrap_err();
    assert!(format!("{}", err).contains("git_user"));
}

#[test]
fn change_detection_defaults_to_sql() {
    let cfg = DaemonConfig::new(vec![sql_base()]);
    assert_eq!(cfg.bases[0].change_detection, ChangeDetection::Sql);
    assert_eq!(cfg.bases[0].mcp_url, "");
    cfg.validate().unwrap();
}

#[test]
fn rejects_eventlog_without_mcp_url() {
    let cfg = DaemonConfig::new(vec![BaseEntry {
        change_detection: ChangeDetection::Eventlog,
        ..sql_base()
    }]);
    let err = cfg.validate().unwrap_err();
    assert!(format!("{}", err).contains("changeDetection=eventlog"));
    let with_url = DaemonConfig::new(vec![BaseEntry {
        change_detection: ChangeDetection::Eventlog,
        ..minimal_base()
    }]);
    with_url.validate().unwrap();
}

#[test]
fn git_gc_fields_default_false() {
    let cfg = DaemonConfig::new(vec![minimal_base()]);
    let base = &cfg.bases[0];
    assert!(!base.git_gc_after_push);
    assert!(!base.git_gc_aggressive);
}

#[test]
fn line_ends_are_one_of_four() {
    for v in ["false", "true", "input", ""] {
        assert!(is_valid_git_autocrlf(v), "{}", v);
    }
    assert!(!is_valid_git_autocrlf("yes"));
    assert!(!is_valid_git_autocrlf("TRUE"));
}
