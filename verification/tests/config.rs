//! The configuration of one export, and what the arguments change in it.

use onec_export::bases_config::BaseEntry;
use onec_export::cli::{exit_code, resolve, verbose_lines, CliArgs, NO_SQL_LOGIN, PARTIAL_MAPPING};
use onec_export::command_builder::IbcmdDbAuth;
use onec_export::config::{platform_exe, AppConfig, AuthType};
use onec_export::error::ExportError;
use onec_export::export::DiscoveryMode;
use onec_export::git_push::GitAuth;

fn config() -> AppConfig {
    AppConfig::from_base(&BaseEntry::new(
        "ut".to_string(),
        "sql".to_string(),
        "db".to_string(),
        "login".to_string(),
        "pwd".to_string(),
        "/bin/ibcmd".to_string(),
        "/repos/ut".to_string(),
    ))
}

fn args() -> CliArgs {
    CliArgs {
        server: None,
        server_1c: None,
        database: None,
        auth_type: None,
        login: None,
        password: None,
        ibcmd_path: None,
        output_path: None,
        export_base: false,
        export_extensions: false,
        export_processings: false,
        save_artifacts: false,
        sql_server: None,
        processings_table: None,
        processings_field_storage: None,
        processings_field_hash: None,
        processings_field_kind: None,
        rediscover: false,
        discovery: DiscoveryMode::Auto,
        ibcmd_dbms: "MSSQLServer".to_string(),
        ibcmd_db_auth_windows: false,
        ibcmd_db_user: None,
        ibcmd_db_pwd: None,
        ibcmd_use_connection_string: false,
        ibcmd_jobs: 0,
        ibcmd_sync: false,
        ibcmd_force: false,
        ibcmd_incremental: false,
        processings_full: false,
        git_push: false,
        git_message: None,
        git_repo: None,
        git_password_auth: false,
        git_user: None,
        git_password: None,
    }
}

fn s(v: &str) -> Option<String> {
    Some(v.to_string())
}

#[test]
fn base_gives_a_configuration() {
    let c = config();
    assert_eq!(c.server, "sql");
    assert_eq!(c.server_for_1c(), "sql");
    assert_eq!(c.sql_database_name(), "db");
    assert_eq!(c.authentication.auth_type, AuthType::Password);
    c.validate(true).unwrap();
    assert_eq!(c.ibcmd_path(true).unwrap(), "/bin/ibcmd");
    assert!(matches!(c.ibcmd_path(false), Err(ExportError::IbcmdNotFound(_))));
}

#[test]
fn all_complaints_are_collected() {
    let bad = AppConfig {
        server: String::new(),
        ibcmd_path: String::new(),
        git_autocrlf: "yes".to_string(),
        ..config()
    };
    let complaints = bad.validate(false).unwrap_err();
    assert_eq!(complaints.len(), 3, "{:?}", complaints);
    let missing = config().validate(false).unwrap_err();
    assert_eq!(missing, vec!["ibcmd.exe не найден: /bin/ibcmd"]);
}

#[test]
fn arguments_take_the_place_of_settings() {
    let a = CliArgs {
        server: s("other"),
        auth_type: Some(AuthType::Os),
        output_path: s("/out"),
        ..args()
    };
    let c = a.override_config(config());
    assert_eq!(c.server, "other");
    assert_eq!(c.authentication.auth_type, AuthType::Os);
    assert_eq!(c.authentication.login, "login");
    assert_eq!(c.output_path, "/out");
    assert_eq!(a.git_dir(&c.output_path), "/out");
    let same = args().override_config(config());
    assert_eq!(same.server, "sql");
    assert!(!args().has_action());
    assert!(CliArgs { export_base: true, ..args() }.has_action());
}

#[test]
fn names_are_given_in_full_or_not_at_all() {
    let full = CliArgs {
        processings_table: s("_Reference181"),
        processings_field_storage: s("_Fld1"),
        processings_field_hash: s("_VERSION"),
        processings_field_kind: s("_Fld3"),
        ..args()
    };
    let m = full.override_mapping().unwrap().unwrap();
    assert_eq!(m.table, "_Reference181");
    assert_eq!(m.enum_table, "");
    assert!(m.hash_is_binary);
    let md5 = CliArgs { processings_field_hash: s("_Fld2"), ..full.clone() };
    assert!(!md5.override_mapping().unwrap().unwrap().hash_is_binary);
    let named = CliArgs { processings_field_hash: s("RowVersionX"), ..full.clone() };
    assert!(named.override_mapping().unwrap().unwrap().hash_is_binary);
    let part = CliArgs { processings_table: None, ..full };
    assert_eq!(part.override_mapping().unwrap_err(), PARTIAL_MAPPING);
    assert_eq!(args().override_mapping().unwrap(), None);
}

#[test]
fn export_of_processors_needs_a_login() {
    assert!(args().processings_params("sql").unwrap().is_none());
    let a = CliArgs { export_processings: true, ibcmd_db_user: s("u"), ..args() };
    assert_eq!(a.processings_params("sql").unwrap_err(), NO_SQL_LOGIN);
    let a = CliArgs { ibcmd_db_pwd: s("p"), processings_full: true, ..a };
    let p = a.processings_params("sql").unwrap().unwrap();
    assert_eq!(p.sql_server, "sql");
    assert!(!p.incremental);
    let a = CliArgs { ibcmd_db_auth_windows: true, sql_server: s("other"), ..a };
    assert_eq!(a.processings_params("sql").unwrap().unwrap().sql_server, "other");
    let params = a.ibcmd_params("ibcmd".to_string());
    assert_eq!(params.db_auth, IbcmdDbAuth::Windows);
    assert_eq!(params.db_user.as_deref(), Some("u"));
    let opts = a.export_options(true, params, None);
    assert!(opts.save_artifacts && opts.export_processings && !opts.export_base);
}

#[test]
fn login_of_git_may_be_empty() {
    assert!(matches!(args().git_auth(), GitAuth::Domain));
    let a = CliArgs { git_password_auth: true, git_user: s("u"), ..args() };
    match a.git_auth() {
        GitAuth::UserPassword { user, password } => {
            assert_eq!(user, "u");
            assert_eq!(password, "");
        }
        other => panic!("{:?}", other),
    }
}

#[test]
fn exit_codes_tell_what_failed() {
    assert_eq!(exit_code(true, None), 0);
    assert_eq!(exit_code(true, Some(true)), 0);
    assert_eq!(exit_code(true, Some(false)), 2);
    assert_eq!(exit_code(false, None), 1);
}

#[test]
fn paths_are_resolved_beside_the_register() {
    assert_eq!(resolve("/etc/bases", "/var/log", true), "/var/log");
    assert_eq!(resolve("/etc/bases", "state", false), "/etc/bases/state");
}

#[test]
fn configuration_is_shown_on_demand() {
    let lines = verbose_lines(&config(), true);
    assert_eq!(lines[0], "Сервер MSSQL:   sql");
    assert_eq!(lines[1], "Сервер 1С:      sql (= MSSQL, явно не задан)");
    assert_eq!(lines[3], "Аутентификация 1С: Password");
    assert_eq!(lines[6], "Инкрементально: true");
}

#[test]
fn errors_have_texts() {
    let texts = [
        ExportError::Config("c".to_string()).message(),
        ExportError::FileNotFound("f".to_string()).message(),
        ExportError::CommandFailed { code: -1, message: "m".to_string() }.message(),
        ExportError::Io("i".to_string()).message(),
        ExportError::Json("j".to_string()).message(),
        ExportError::PlatformNotFound("p".to_string()).message(),
        ExportError::IbcmdNotFound("b".to_string()).message(),
        ExportError::Sql("s".to_string()).message(),
        ExportError::ValueStorage("v".to_string()).message(),
        ExportError::Empty.message(),
    ];
    for i in 0..texts.len() {
        assert!(!texts[i].is_empty());
        for j in 0..i {
            assert_ne!(texts[i], texts[j]);
        }
    }
    assert!(texts[2].contains("-1") && texts[2].contains('m'));
}

#[test]
fn platform_lies_beside_ibcmd() {
    let mut c = config();
    c.ibcmd_path = "C:/1cv8/8.3/bin/ibcmd.exe".to_string();
    let dir = c.platform_dir().unwrap();
    assert_eq!(dir, "C:/1cv8/8.3/bin");
    let exe = platform_exe(&dir);
    assert!(exe.len() == dir.len() + 9 && exe.ends_with("1cv8.exe"), "{}", exe);
    assert_eq!(c.platform_1cv8_path(true), Ok(exe));
    assert_eq!(
        c.platform_1cv8_path(false),
        Err(ExportError::IbcmdNotFound("1cv8.exe не найден в C:/1cv8/8.3/bin".to_string()))
    );
    c.ibcmd_path = "ibcmd".to_string();
    assert_eq!(c.platform_1cv8_path(true), Ok("1cv8.exe".to_string()));
    for path in ["", "/"] {
        c.ibcmd_path = path.to_string();
        assert_eq!(
            c.platform_1cv8_path(true),
            Err(ExportError::IbcmdNotFound(format!(
                "Не удалось определить каталог платформы из ibcmd_path={}",
                path
            )))
        );
    }
}

#[test]
fn push_follows_a_successful_export_only() {
    let mut a = args();
    assert!(!a.wants_push(true));
    a.git_push = true;
    assert!(a.wants_push(true));
    assert!(!a.wants_push(false));
    assert!(a.commit_message().starts_with("Update_"));
    a.git_message = Some("готово".to_string());
    assert_eq!(a.commit_message(), "готово");
}
