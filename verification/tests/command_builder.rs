//! Command lines of `ibcmd`.

use onec_export::command_builder::{IbcmdBuilder, IbcmdDbAuth, IbcmdParams};
use onec_export::config::{AppConfig, AuthConfig, AuthType};

fn mk_params() -> IbcmdParams {
    IbcmdParams {
        ibcmd_path: r"C:\Program Files\1cv8\8.3.27.1786\bin\ibcmd.exe".to_string(),
        dbms: "MSSQLServer".to_string(),
        db_auth: IbcmdDbAuth::Windows,
        db_user: None,
        db_pwd: None,
        use_connection_string: false,
        jobs: 8,
        sync: false,
        force: false,
        incremental_extensions: true,
    }
}

fn mk_config(output: &str) -> AppConfig {
    AppConfig {
        server: "sql-server".to_string(),
        server_1c: String::new(),
        database: "demo-ut".to_string(),
        sql_database: "demo-ut".to_string(),
        authentication: AuthConfig {
            auth_type: AuthType::Password,
            login: "export_user".to_string(),
            password: String::new(),
        },
        ibcmd_path: r"C:\Program Files\1cv8\8.3.27.1786\bin\ibcmd.exe".to_string(),
        mcp_url: String::new(),
        mcp_api_key: String::new(),
        processings_meta_name: String::new(),
        git_remote_url: String::new(),
        git_autocrlf: "false".to_string(),
        output_path: output.to_string(),
        log_level: "info".to_string(),
        save_artifacts: true,
        extensions: Vec::new(),
    }
}

#[test]
fn save_base_builds_correct_cmd() {
    let params = mk_params();
    let config = mk_config(r"C:\Repos\demo-ut");
    let cmd = IbcmdBuilder::save_base(&params, &config);

    assert_eq!(cmd[1], "infobase");
    assert_eq!(cmd[2], "config");
    assert_eq!(cmd[3], "save");
    assert!(!cmd.iter().any(|s| s.starts_with("--threads")), "{:?}", cmd);
    assert!(!cmd.iter().any(|s| s.starts_with("--file=")), "{:?}", cmd);
    assert!(cmd.iter().any(|s| s == "--user=export_user"));
    let last = cmd.last().unwrap();
    assert!(
        last.ends_with(r"_artifacts\base.cf") || last.ends_with("_artifacts/base.cf"),
        "{}",
        last
    );
    assert!(!cmd.iter().any(|s| s.starts_with("--extension")));
}

#[test]
fn save_extension_builds_correct_cmd() {
    let params = mk_params();
    let config = mk_config(r"C:\Repos\demo-ut");
    let cmd = IbcmdBuilder::save_extension(&params, &config, "ДоработкаУТ");

    assert_eq!(cmd[1], "infobase");
    assert_eq!(cmd[2], "config");
    assert_eq!(cmd[3], "save");
    assert!(cmd.iter().any(|s| s == "--extension=ДоработкаУТ"), "{:?}", cmd);
    assert!(!cmd.iter().any(|s| s.starts_with("--threads")), "{:?}", cmd);
    let last = cmd.last().unwrap();
    assert!(
        last.ends_with(r"_artifacts\extensions\ДоработкаУТ.cfe")
            || last.ends_with("_artifacts/extensions/ДоработкаУТ.cfe"),
        "{}",
        last
    );
    assert!(!cmd.iter().any(|s| s.starts_with("--file=")));
}

#[test]
fn export_base_command_in_full() {
    let params = IbcmdParams { sync: true, ..mk_params() };
    let config = mk_config("/repos/demo-ut");
    let cmd = IbcmdBuilder::export_base_to(&params, &config, "/repos/demo-ut/base");
    assert_eq!(cmd[0], r"C:\Program Files\1cv8\8.3.27.1786\bin\ibcmd.exe");
    assert_eq!(cmd[1..4], ["infobase", "config", "export"]);
    assert!(cmd.contains(&"--threads=8".to_string()), "{:?}", cmd);
    assert!(cmd.contains(&"--sync".to_string()), "{:?}", cmd);
    assert!(cmd.contains(&"--db-name=demo-ut".to_string()), "{:?}", cmd);
    assert_eq!(cmd.last().unwrap(), "/repos/demo-ut/base");
    assert_eq!(IbcmdBuilder::export_base(&params, &config), cmd);
}

#[test]
fn connection_string_names_the_application_server() {
    let params = IbcmdParams { use_connection_string: true, ..mk_params() };
    let config = AppConfig { server_1c: "cluster".to_string(), ..mk_config("/r") };
    let cmd = IbcmdBuilder::list_extensions(&params, &config);
    assert!(
        cmd.iter().any(|s| s.starts_with("--ibconnection=") && s.contains("cluster")),
        "{:?}",
        cmd
    );
    assert!(!cmd.iter().any(|s| s.starts_with("--db-server")), "{:?}", cmd);
}
