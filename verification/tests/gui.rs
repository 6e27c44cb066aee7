//! What the window shows.

use onec_export::bases_config::BaseEntry;
use onec_export::gui::{
    autocrlf_from_index, autocrlf_to_index, choose_repo_id, detail_sizes, detect_log_level,
    history_detail, history_row, log_view, opt_text, parse_number, save_form, startup, tab_sizes,
    to_crlf, window_sizes, BasesFound, Form, FormContext, UiFlags, AUTOCRLF_ITEMS,
};
use onec_export::logging::LogLevel;
use onec_export::state_db::ExportLogRow;

fn form() -> Form {
    Form {
        server: String::new(),
        server_1c: String::new(),
        database: String::new(),
        auth_os: true,
        login: String::new(),
        password: String::new(),
        ibcmd_path: String::new(),
        output_path: String::new(),
        git_remote_url: String::new(),
        export_base: true,
        export_extensions: true,
        export_processings: false,
        rediscover: true,
        save_artifacts: false,
        base_incremental: true,
        extensions_incremental: true,
        processings_incremental: true,
        dbms: None,
        db_windows: true,
        db_user: String::new(),
        db_pwd: String::new(),
        jobs: "8".to_string(),
        use_connection_string: true,
        git_domain: true,
        git_user: String::new(),
        git_password: String::new(),
        autocrlf: None,
        force_push: true,
    }
}

fn base(alias: &str) -> BaseEntry {
    BaseEntry {
        ibcmd_jobs: Some(12),
        git_auth_type: "password".to_string(),
        git_user: Some("u".to_string()),
        git_autocrlf: "input".to_string(),
        export_processings: true,
        ..BaseEntry::new(
            alias.to_string(),
            "sql".to_string(),
            "db".to_string(),
            "login".to_string(),
            "pwd".to_string(),
            "ibcmd".to_string(),
            "/repos/ut".to_string(),
        )
    }
}

#[test]
fn autocrlf_index_roundtrip() {
    for (idx, value) in ["false", "true", "input", ""].iter().enumerate() {
        assert_eq!(autocrlf_to_index(value), idx);
        assert_eq!(autocrlf_from_index(idx), *value);
    }
}

#[test]
fn autocrlf_unknown_value_and_index_fall_back_to_false() {
    assert_eq!(autocrlf_to_index("CRLF"), 0);
    assert_eq!(autocrlf_to_index("  input  "), 2);
    assert_eq!(autocrlf_from_index(99), "false");
}

#[test]
fn autocrlf_items_match_indexes() {
    assert_eq!(AUTOCRLF_ITEMS.len(), 4);
    assert_eq!(AUTOCRLF_ITEMS[3], "как на машине");
}

#[test]
fn base_is_shown_and_saved() {
    let b = base("ut");
    let shown = form().show_base(&b);
    assert_eq!(shown.jobs, "12");
    assert_eq!(shown.autocrlf, Some(2));
    assert!(!shown.auth_os && !shown.git_domain && !shown.rediscover && !shown.force_push);
    let mut bases = vec![base("bp"), base("ut")];
    bases[1].sql_server = "другой".to_string();
    assert!(save_form(&mut bases, "ut", &shown));
    assert_eq!(bases[1].sql_server, "sql");
    assert_eq!(bases[1].ibcmd_jobs, Some(12));
    assert_eq!(bases[1].git_auth_type, "password");
    assert_eq!(bases[1].git_user.as_deref(), Some("u"));
    assert_eq!(bases[1].git_password, None);
    assert_eq!(bases[1].git_autocrlf, "input");
    assert_eq!(bases[0].alias, "bp");
    assert!(!save_form(&mut bases, "zup", &shown));
}

#[test]
fn numbers_are_read_as_u32() {
    assert_eq!(parse_number("8"), Some(8));
    assert_eq!(parse_number("+8"), Some(8));
    assert_eq!(parse_number("4294967295"), Some(u32::MAX));
    assert_eq!(parse_number("4294967296"), None);
    for s in ["", "+", "-1", "8a", " 8", "٣"] {
        assert_eq!(parse_number(s), s.parse::<u32>().ok(), "{}", s);
        assert_eq!(parse_number(s), None, "{}", s);
    }
}

#[test]
fn form_gives_the_parameters_of_an_export() {
    let f = Form { jobs: "много".to_string(), db_user: "sa".to_string(), ..form() };
    let p = f.ibcmd_params("ibcmd".to_string());
    assert_eq!(p.jobs, 8);
    assert_eq!(p.dbms, "MSSQLServer");
    assert_eq!(p.db_user.as_deref(), Some("sa"));
    assert_eq!(p.db_pwd, None);
    assert!(p.sync && !p.force);
    let f = Form { base_incremental: false, export_processings: true, ..form() };
    let context = FormContext {
        extensions: vec!["A".to_string()],
        mcp_url: "u".to_string(),
        mcp_api_key: "k".to_string(),
        processings_meta_name: "m".to_string(),
    };
    let config = f.build_config(&context, LogLevel::Debug);
    assert_eq!(config.log_level, "debug");
    assert_eq!(config.git_autocrlf, "false");
    assert_eq!(config.extensions, vec!["A"]);
    let params = f.ibcmd_params("ibcmd".to_string());
    assert!(!params.sync && params.force);
    let opts = f.export_options(&config, params);
    assert!(opts.processings_params.unwrap().rediscover);
    assert_eq!(opts.config_changed, None);
}

#[test]
fn blank_fields_have_no_value() {
    assert_eq!(opt_text("  ".to_string()), None);
    assert_eq!(opt_text(" a".to_string()).as_deref(), Some(" a"));
}

#[test]
fn push_is_offered_after_an_export() {
    let flags = UiFlags {
        busy: false,
        had_ops: true,
        all_ok: false,
        force: false,
        auth_pwd: true,
        db_sql: false,
        git_pwd: false,
        proc_checked: true,
    };
    let e = flags.enabled();
    assert!(e.start && !e.stop && !e.push && e.force_push && e.login && e.rediscover);
    let e = UiFlags { force: true, ..flags }.enabled();
    assert!(e.push);
    let e = UiFlags { busy: true, force: true, ..flags }.enabled();
    assert!(!e.start && e.stop && !e.push && !e.force_push);
}

#[test]
fn sizes_follow_the_window() {
    assert_eq!(window_sizes(299, 700), None);
    let s = window_sizes(820, 780).unwrap();
    assert_eq!((s.source_w, s.tabs_w, s.tabs_h), (520, 810, 690));
    let t = tab_sizes(810, 690);
    assert_eq!((t.inner_w, t.inner_h, t.count_w, t.last_column), (779, 585, 609, 340));
    assert_eq!(tab_sizes(0, 0).last_column, 320);
    assert_eq!(detail_sizes(700, 500), Some((675, 430, 450)));
    assert_eq!(detail_sizes(700, 149), None);
}

#[test]
fn history_shows_error_or_details() {
    let row = ExportLogRow {
        id: 1,
        repo: "ut".to_string(),
        finished_at: "2026-06-02 14:00:00".to_string(),
        duration_sec: Some(40),
        status: "ok".to_string(),
        events: None,
        details: Some("база: ✓\nещё".to_string()),
        error: None,
    };
    assert_eq!(
        history_row(&row),
        vec!["2026-06-02 14:00:00", "ut", "ok", "40", "", "база: ✓ ещё"]
    );
    assert_eq!(
        history_detail(&row),
        "Время:        2026-06-02 14:00:00\r\nБаза:         ut\r\nСтатус:       ok\r\n\
         Длительность: 40 с\r\nСобытий:      —\r\n\r\nДетали:\r\nбаза: ✓\r\nещё\r\n\r\nОшибка:\r\n—"
    );
    let failed = ExportLogRow { error: Some("a\r\nb".to_string()), ..row };
    assert_eq!(history_row(&failed)[5], "a  b");
    assert_eq!(to_crlf("a\r\nb\nc"), "a\r\nb\r\nc");
    assert_eq!(log_view("a\nb"), "a\r\nb");
}

#[test]
fn start_tells_what_was_found() {
    let none = BasesFound {
        source: None,
        aliases: Vec::new(),
        diagnostics: vec![
            "проверял bases.json — нет такого файла".to_string(),
            "файл deploy/bases.json не прошёл парсинг: EOF".to_string(),
        ],
    };
    let s = startup(&none);
    assert_eq!(
        s.log,
        vec![
            "GUI: bases.json не загружен — файл deploy/bases.json не прошёл парсинг: EOF",
            "GUI: реестр баз пуст — режим одиночной базы (config.json)"
        ]
    );
    assert_eq!(
        s.log_text,
        "[init] проверял bases.json — нет такого файла\n\
         [init] файл deploy/bases.json не прошёл парсинг: EOF\n"
    );
    let some = BasesFound {
        source: Some("/b.json".to_string()),
        aliases: vec!["ut".to_string(), "bp".to_string()],
        diagnostics: Vec::new(),
    };
    let s = startup(&some);
    assert_eq!(
        s.log,
        vec!["GUI: bases.json прочитан: /b.json (2 баз)", "GUI: реестр баз (2 шт.): ut, bp"]
    );
    assert_eq!(s.source_label, "(из /b.json)");
    assert_eq!(s.status, "Готово (реестр баз: 2 шт.)");
    assert_eq!(s.log_text, "[init] Реестр баз (2 шт.): ut, bp\n");
}

#[test]
fn alias_comes_before_directory() {
    let a = |s: &str| Some(s.to_string());
    assert_eq!(choose_repo_id(a("ut"), a("bp"), "d".to_string()), "ut");
    assert_eq!(choose_repo_id(None, a("bp"), "d".to_string()), "bp");
    assert_eq!(choose_repo_id(None, None, "d".to_string()), "d");
    assert_eq!(detect_log_level(&a("info"), &a("debug")), LogLevel::Info);
    assert_eq!(detect_log_level(&None, &a("debug")), LogLevel::Debug);
    assert_eq!(detect_log_level(&None, &None), LogLevel::Info);
}
