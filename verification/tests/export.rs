//! An export as a whole.

use onec_export::command_builder::{IbcmdDbAuth, IbcmdParams};
use onec_export::config::{AppConfig, AuthConfig, AuthType};
use onec_export::error::ExportError;
use onec_export::export::{
    after_sql_failure, discovery_meta_name, extensions_outcome, failed_processings, is_stale_mapping, legacy_hashes,
    legacy_hashes_of, legacy_manifest, list_extensions, moved_paths, move_items, need_base_artifact, parse_extension_list,
    plan_extensions, record_export_log, report_lines, resolve_processings_mapping, retry_params,
    step_processings, with_enum_table, with_failures, worker_count, BaseAction, BaseReply,
    BaseStage, DiscoveryMode, ExportCoordinator, ExportOptions, ExportResults, MappingStep, Part,
    ProcAction, ProcStage, ProcessingsCliParams, UnpackAction, UnpackJob, UnpackReply,
};
use onec_export::extension_run::{ExtAction, ExtStage, ExtensionRun};
use onec_export::processings::{Manifest, ManifestItem, ProcessingsResult, StorageMapping};
use onec_export::runner::CommandResult;
use onec_export::state_db::{Discovery, ProcItem};
use onec_export::strmap::StrMap;

fn params() -> IbcmdParams {
    IbcmdParams {
        ibcmd_path: "ibcmd".to_string(),
        dbms: "MSSQLServer".to_string(),
        db_auth: IbcmdDbAuth::Windows,
        db_user: None,
        db_pwd: None,
        use_connection_string: false,
        jobs: 0,
        sync: false,
        force: false,
        incremental_extensions: true,
    }
}

fn config() -> AppConfig {
    AppConfig {
        server: "sql".to_string(),
        server_1c: String::new(),
        database: "demo".to_string(),
        sql_database: String::new(),
        authentication: AuthConfig {
            auth_type: AuthType::Os,
            login: String::new(),
            password: String::new(),
        },
        ibcmd_path: "ibcmd".to_string(),
        mcp_url: String::new(),
        mcp_api_key: String::new(),
        processings_meta_name: String::new(),
        git_remote_url: String::new(),
        git_autocrlf: "false".to_string(),
        output_path: "/repos/demo-ut".to_string(),
        log_level: "info".to_string(),
        save_artifacts: false,
        extensions: Vec::new(),
    }
}

fn mapping(table: &str) -> StorageMapping {
    StorageMapping {
        table: table.to_string(),
        field_storage: "_Fld4776".to_string(),
        field_hash: "_Version".to_string(),
        field_kind: "_Fld4766RRef".to_string(),
        enum_table: "_Enum1315".to_string(),
        hash_is_binary: true,
    }
}

fn discovery(table: &str) -> Discovery {
    Discovery::updated(None, &mapping(table), "2026-06-02T14:00:00Z".to_string())
}

fn cli(discovery: DiscoveryMode) -> ProcessingsCliParams {
    ProcessingsCliParams {
        sql_server: "sql".to_string(),
        override_mapping: None,
        rediscover: false,
        incremental: true,
        discovery,
    }
}

fn pairs(v: &[(&str, &str)]) -> Vec<(String, String)> {
    v.iter().map(|(a, b)| (a.to_string(), b.to_string())).collect()
}

fn hashes(v: &[(&str, &str)]) -> StrMap<String> {
    let mut m = StrMap::new();
    for (a, b) in v {
        m.insert(a.to_string(), b.to_string());
    }
    m
}

fn ran(success: bool, stderr: &str) -> BaseReply {
    BaseReply::Ran(Some(CommandResult {
        success,
        return_code: if success { 0 } else { 1 },
        stdout: String::new(),
        stderr: stderr.to_string(),
    }))
}

#[test]
fn artifacts_off_never_saves() {
    for config_changed in [None, Some(true), Some(false)] {
        for full_rewrite in [false, true] {
            for cf_exists in [false, true] {
                assert!(!need_base_artifact(false, config_changed, full_rewrite, cf_exists));
            }
        }
    }
}

#[test]
fn unknown_config_state_saves_as_before() {
    assert!(need_base_artifact(true, None, false, true));
    assert!(need_base_artifact(true, None, false, false));
}

#[test]
fn changed_config_saves() {
    assert!(need_base_artifact(true, Some(true), false, true));
    assert!(need_base_artifact(true, Some(true), false, false));
}

#[test]
fn unchanged_config_skips_only_when_snapshot_exists() {
    assert!(!need_base_artifact(true, Some(false), false, true));
    assert!(need_base_artifact(true, Some(false), false, false));
}

#[test]
fn full_rewrite_always_saves() {
    assert!(need_base_artifact(true, Some(false), true, true));
    assert!(need_base_artifact(true, None, true, true));
}

#[test]
fn refused_sync_is_repeated_in_full() {
    let c = ExportCoordinator::new(config());
    let (mut job, action) = c.export_base(&IbcmdParams { sync: true, ..params() }, true, true);
    assert!(matches!(action, BaseAction::Prepare { clean: false }));
    assert!(matches!(
        job.step(&BaseReply::Prepared(true)),
        BaseAction::Run { sync: true, force: false }
    ));
    let refusal = "Требуется экспортировать конфигурацию полностью";
    assert!(matches!(job.step(&ran(false, refusal)), BaseAction::Prepare { clean: true }));
    assert!(matches!(
        job.step(&BaseReply::Prepared(true)),
        BaseAction::Run { sync: false, force: true }
    ));
    assert!(matches!(
        job.step(&ran(true, "")),
        BaseAction::Finish { success: true, full_rewrite: true }
    ));
    assert_eq!(job.stage, BaseStage::Finished);
}

#[test]
fn other_failures_are_not_repeated() {
    let c = ExportCoordinator::new(config());
    let (mut job, _) = c.export_base(&IbcmdParams { sync: true, ..params() }, true, true);
    job.step(&BaseReply::Prepared(true));
    assert!(matches!(
        job.step(&ran(false, "нет лицензии")),
        BaseAction::Finish { success: false, .. }
    ));
    let (mut job, action) = c.export_base(&params(), false, true);
    assert!(matches!(action, BaseAction::Prepare { clean: true }));
    assert!(matches!(
        job.step(&BaseReply::Prepared(false)),
        BaseAction::Finish { success: false, .. }
    ));
}

#[test]
fn sync_is_taken_where_there_is_something_to_continue() {
    let c = ExportCoordinator::new(config());
    let (job, _) = c.export_base(&params(), true, true);
    assert!(job.sync);
    let (job, _) = c.export_base(&IbcmdParams { sync: true, ..params() }, false, true);
    assert!(!job.sync);
    let (job, _) = c.export_base(&IbcmdParams { force: true, ..params() }, true, true);
    assert!(!job.sync);
}

#[test]
fn list_of_extensions_is_read_in_blocks() {
    let out = "name                         : \"ДоработкаУТ\"\n\
               version                      : \"1.0\"\n\
               hash-sum                     : \"GYr1lyk+HYnEdhf1V32HRRF0w30=\"\n\
               \n\
               Имя : MCP\n\
               \n\
               hash-sum : \"потерян\"\n\
               name : \"Третье\"\n\
               Контрольная-сумма : \"h3\"\n";
    assert_eq!(
        parse_extension_list(out),
        pairs(&[
            ("ДоработкаУТ", "GYr1lyk+HYnEdhf1V32HRRF0w30="),
            ("MCP", ""),
            ("Третье", "h3"),
        ])
    );
    assert!(parse_extension_list("").is_empty());
}

#[test]
fn only_changed_extensions_are_exported() {
    let current = pairs(&[("A", "1"), ("B", "2"), ("C", ""), ("D", "4")]);
    let last = hashes(&[("A", "1"), ("B", "old"), ("C", ""), ("Gone", "9")]);
    let plan = plan_extensions(&current, &last, true);
    assert_eq!(plan.to_export, vec!["B", "C", "D"]);
    assert_eq!(plan.to_remove, vec!["Gone"]);
    let full = plan_extensions(&current, &last, false);
    assert_eq!(full.to_export, vec!["A", "B", "C", "D"]);
    assert!(full.to_remove.is_empty());
}

#[test]
fn failed_extension_keeps_its_old_hash() {
    let listed = Some(pairs(&[("A", "1"), ("B", "2"), ("C", "3")]));
    let last = hashes(&[("A", "1"), ("B", "old"), ("Gone", "9")]);
    let (mut run, action) = ExtensionRun::start(listed, last, true, true);
    assert!(matches!(action, ExtAction::MakeDir));
    assert!(matches!(run.step(true), ExtAction::Remove { ref name, copy: true } if name == "Gone"));
    assert!(matches!(run.step(false), ExtAction::Prepare(ref name) if name == "B"));
    assert!(matches!(run.step(true), ExtAction::Run(ref name) if name == "B"));
    assert!(matches!(run.step(false), ExtAction::Prepare(ref name) if name == "C"));
    assert!(matches!(run.step(true), ExtAction::Run(ref name) if name == "C"));
    assert!(matches!(run.step(true), ExtAction::Copy(ref name) if name == "C"));
    match run.step(false) {
        ExtAction::Save(kept) => {
            assert_eq!(kept.len(), 3);
            // nothing was exported of A, and B failed
            assert_eq!(kept.get("A").unwrap(), "1");
            assert_eq!(kept.get("B").unwrap(), "old");
            assert_eq!(kept.get("C").unwrap(), "3");
        }
        other => panic!("{:?}", other),
    }
    assert!(matches!(run.step(true), ExtAction::Finish));
    assert_eq!(run.stage, ExtStage::Finished);
    assert_eq!(run.results.len(), 2);
    assert_eq!(run.results.get("B"), Some(&false));
    assert_eq!(run.results.get("C"), Some(&true));
}

#[test]
fn full_export_of_extensions_cleans_first() {
    let listed = Some(pairs(&[("A", "1")]));
    let (mut run, action) = ExtensionRun::start(listed, StrMap::new(), false, false);
    assert!(matches!(action, ExtAction::CleanAll { copies: false }));
    assert!(matches!(run.step(false), ExtAction::Finish));
    assert_eq!(run.results.len(), 0);
}

#[test]
fn extensions_that_cannot_be_listed_are_a_failure() {
    let (run, action) = ExtensionRun::start(None, StrMap::new(), true, false);
    assert!(matches!(action, ExtAction::Finish));
    let results = ExportResults { base: Some(true), extensions: Some(run.results), processings: None };
    assert!(!results.overall_success());
    assert_eq!(results.summary(), "база: ✓; расширения: список не получен");
    assert_eq!(
        report_lines(&results),
        vec!["  Основная конфигурация: ✓ Успешно", "  Расширения: ✗ не удалось получить список"]
    );
}

#[test]
fn results_are_summed_up() {
    let mut ext = StrMap::new();
    ext.insert("A".to_string(), true);
    ext.insert("B".to_string(), false);
    let mut pr = ProcessingsResult::default();
    pr.new = 1;
    pr.unchanged = 7;
    pr.failed.push(("x".to_string(), "y".to_string()));
    let results =
        ExportResults { base: Some(false), extensions: Some(ext), processings: Some(pr) };
    assert_eq!(
        results.summary(),
        "база: ✗; расширения: 1/2; допобработки: new=1 changed=0 unchanged=7 deleted=0 failed=1"
    );
    assert!(!results.overall_success());
    let entry = record_export_log("ut", &results, "2026-06-02 15:00:00".to_string(), 42);
    assert_eq!(entry.status, "fail");
    assert_eq!(entry.duration_sec, Some(42));
    assert_eq!(entry.details.as_deref(), Some(results.summary().as_str()));
    assert_eq!(
        report_lines(&results)[1..],
        [
            "  Расширения: 1/2 выгружено",
            "  Доп. обработки: new=1, changed=0, unchanged=7, deleted=0, failed=1"
        ]
    );
}

#[test]
fn partial_failure_of_processors_is_no_failure() {
    let mut pr = ProcessingsResult::default();
    pr.unchanged = 1;
    pr.failed.push(("x".to_string(), "y".to_string()));
    let results = ExportResults { base: None, extensions: None, processings: Some(pr) };
    assert!(results.overall_success());
    let all = failed_processings("<fatal>", "нет связи".to_string());
    assert_eq!(all.failed, pairs(&[("<fatal>", "нет связи")]));
    let results = ExportResults { base: None, extensions: None, processings: Some(all) };
    assert!(!results.overall_success());
}

#[test]
fn repo_id_is_the_name_of_the_directory() {
    assert_eq!(ExportCoordinator::derive_repo_id("/repos/demo-ut"), "demo-ut");
    assert_eq!(ExportCoordinator::derive_repo_id("C:/Repos/demo-ut/"), "demo-ut");
    assert_eq!(ExportCoordinator::derive_repo_id(""), "default");
    assert_eq!(ExportCoordinator::derive_repo_id(".."), "default");
    assert_eq!(ExportCoordinator::derive_repo_id("/repos/.."), "default");
    assert_eq!(ExportCoordinator::derive_repo_id("/"), "default");
    assert_eq!(ExportCoordinator::derive_repo_id("///"), "default");
    assert_eq!(ExportCoordinator::derive_repo_id("/repos/demo-ut/./"), "demo-ut");
    let id = ExportCoordinator::derive_repo_id("Repos\\demo-ut");
    assert!(id == "demo-ut" || id == "Repos\\demo-ut", "{}", id);
    let c = ExportCoordinator::new(config());
    assert_eq!(c.repo_id, "demo-ut");
    let c = c.with_repo_id(String::new());
    assert_eq!(c.repo_id, "demo-ut");
    assert_eq!(c.with_repo_id("ut".to_string()).repo_id, "ut");
}

#[test]
fn parts_are_done_in_their_order() {
    let opts = ExportOptions {
        export_base: true,
        export_extensions: false,
        export_processings: true,
        save_artifacts: false,
        config_changed: None,
        ibcmd_params: params(),
        processings_params: None,
    };
    let c = ExportCoordinator::new(config());
    assert_eq!(c.export_full(&opts), vec![Part::Base, Part::Processings]);
    let (stage, action) = c.export_processings(&opts);
    assert_eq!(stage, ProcStage::Finished);
    match action {
        ProcAction::Failed { what, why } => {
            assert_eq!(what, "<params>");
            assert_eq!(why, "отсутствуют processings_params");
        }
        other => panic!("{:?}", other),
    }
}

#[test]
fn given_mapping_beats_kept_one() {
    let given = ProcessingsCliParams {
        override_mapping: Some(mapping("_Reference1")),
        ..cli(DiscoveryMode::Auto)
    };
    let kept = Some(discovery("_Reference181"));
    match resolve_processings_mapping(&given, &kept, &config()) {
        MappingStep::Use(m) => assert_eq!(m.table, "_Reference1"),
        other => panic!("{:?}", other),
    }
    match resolve_processings_mapping(&cli(DiscoveryMode::Auto), &kept, &config()) {
        MappingStep::Use(m) => assert_eq!(m.table, "_Reference181"),
        other => panic!("{:?}", other),
    }
    let again = retry_params(&given);
    assert!(matches!(
        resolve_processings_mapping(&again, &kept, &config()),
        MappingStep::AskSql
    ));
    let broken = Some(discovery("Reference181"));
    assert!(matches!(
        resolve_processings_mapping(&cli(DiscoveryMode::Sql), &broken, &config()),
        MappingStep::AskSql
    ));
}

#[test]
fn service_is_asked_only_where_it_is_configured() {
    let none = None;
    match resolve_processings_mapping(&cli(DiscoveryMode::Mcp), &none, &config()) {
        MappingStep::Fail(e) => assert_eq!(
            e.message(),
            ExportError::CommandFailed {
                code: -1,
                message: "Запрошен --discovery=mcp, но HTTP-сервис не задан (mcpUrl='', \
                          mcpApiKey=<пусто>)."
                    .to_string()
            }
            .message()
        ),
        other => panic!("{:?}", other),
    }
    let with_service = AppConfig {
        mcp_url: "http://h/b/hs/mcp".to_string(),
        mcp_api_key: "k".to_string(),
        ..config()
    };
    assert!(matches!(
        resolve_processings_mapping(&cli(DiscoveryMode::Mcp), &none, &with_service),
        MappingStep::AskMcp
    ));
    let sql = || ExportError::Sql("нет доступа".to_string());
    assert!(matches!(
        after_sql_failure(DiscoveryMode::Auto, sql(), &with_service),
        MappingStep::AskMcp
    ));
    assert!(matches!(
        after_sql_failure(DiscoveryMode::Sql, sql(), &with_service),
        MappingStep::Fail(ExportError::Sql(_))
    ));
    match after_sql_failure(DiscoveryMode::Auto, sql(), &config()) {
        MappingStep::Fail(ExportError::CommandFailed { code: -1, message }) => {
            assert!(message.contains("нет доступа"), "{}", message);
            assert!(message.contains("mcpApiKey=<пусто>"), "{}", message);
        }
        other => panic!("{:?}", other),
    }
}

#[test]
fn stale_names_are_found_anew_once() {
    assert!(is_stale_mapping("Invalid column name '_Fld4776'."));
    assert!(is_stale_mapping("Недопустимое имя объекта \"_Reference181\"."));
    assert!(!is_stale_mapping("Login failed"));
    let (stage, action) = step_processings(ProcStage::Resolve, None);
    assert!(matches!(action, ProcAction::Export));
    let stale = || Some("Invalid object name '_Reference181'".to_string());
    let (stage, action) = step_processings(stage, stale());
    assert!(matches!(action, ProcAction::Resolve { anew: true }));
    let (stage, action) = step_processings(stage, None);
    assert!(matches!(action, ProcAction::Export));
    let (stage, action) = step_processings(stage, stale());
    assert_eq!(stage, ProcStage::Finished);
    assert!(matches!(action, ProcAction::Failed { what: "<fatal>", .. }));
    let (_, action) = step_processings(ProcStage::Resolve, Some("нет".to_string()));
    assert!(matches!(action, ProcAction::Failed { what: "<mapping>", .. }));
}

#[test]
fn catalogue_has_a_default_name() {
    assert_eq!(discovery_meta_name(&config()), "Справочник.ДополнительныеОтчетыИОбработки");
    let other = AppConfig { processings_meta_name: "Справочник.Другой".to_string(), ..config() };
    assert_eq!(discovery_meta_name(&other), "Справочник.Другой");
    let m = with_enum_table(mapping("_R"), Ok("_Enum7".to_string()));
    assert_eq!(m.enum_table, "_Enum7");
    assert_eq!(with_enum_table(m, Err("нет".to_string())).enum_table, "");
}

#[test]
fn workers_are_few() {
    assert_eq!(worker_count(Some(16), 100), 4);
    assert_eq!(worker_count(Some(2), 100), 2);
    assert_eq!(worker_count(Some(16), 3), 3);
    assert_eq!(worker_count(Some(16), 0), 1);
    assert_eq!(worker_count(None, 100), 4);
    assert_eq!(worker_count(Some(0), 5), 1);
}

#[test]
fn unpacking_keeps_the_source_on_failure() {
    let start = |epf, erf, there| {
        UnpackJob::start("Имя", (r"o\p\Имя.epf", epf), ("o/p/Имя.erf", erf), r"o\s\Имя", there)
    };
    assert_eq!(
        start(false, false, false).unwrap_err(),
        "исходник не найден: ни o/p/Имя.epf ни o/p/Имя.erf не существуют"
    );
    let (mut job, action) = start(true, true, true).unwrap();
    assert_eq!(job.ext, ".epf");
    assert!(matches!(action, UnpackAction::Clean));
    assert!(matches!(job.step(UnpackReply::Done), UnpackAction::Create));
    assert!(matches!(job.step(UnpackReply::Done), UnpackAction::Read));
    assert!(matches!(job.step(UnpackReply::Done), UnpackAction::Unpack));
    assert!(matches!(job.step(UnpackReply::Done), UnpackAction::RemoveSource));

    let (mut job, action) = start(false, true, false).unwrap();
    assert_eq!(job.ext, ".erf");
    assert!(matches!(action, UnpackAction::Create));
    match job.step(UnpackReply::Failed("занято".to_string())) {
        UnpackAction::Fail { message, remove_target } => {
            assert_eq!(message, "создание o/s/Имя: занято");
            assert!(!remove_target);
        }
        other => panic!("{:?}", other),
    }
    let (mut job, _) = start(false, true, false).unwrap();
    job.step(UnpackReply::Done);
    job.step(UnpackReply::Done);
    match job.step(UnpackReply::Unsupported("обычная форма".to_string())) {
        UnpackAction::Fail { message, remove_target } => {
            assert_eq!(message, "не поддерживается: обычная форма");
            assert!(remove_target);
        }
        other => panic!("{:?}", other),
    }
}

#[test]
fn failures_of_workers_are_sorted() {
    let got = with_failures(
        pairs(&[("Я", "0")]),
        pairs(&[("Б", "1"), ("А", "2"), ("Б", "3"), ("a", "4")]),
    );
    assert_eq!(got, pairs(&[("Я", "0"), ("a", "4"), ("А", "2"), ("Б", "1"), ("Б", "3")]));
}

#[test]
fn moved_processors_are_found_again() {
    let paths = moved_paths(&vec!["Обр".to_string()], &vec!["Отч.erf".to_string()]);
    assert_eq!(paths.len(), 3);
    let item = |path: &str| ProcItem {
        name: "n".to_string(),
        kind: "k".to_string(),
        hash: "h".to_string(),
        path: path.to_string(),
        size: 1,
        updated: "u".to_string(),
    };
    let mut items = StrMap::new();
    items.insert("1".to_string(), item("processings/Обр.epf"));
    items.insert("2".to_string(), item("processings/Отч.erf"));
    items.insert("3".to_string(), item("Старая"));
    let (items, moved) = move_items(&items, &paths);
    assert_eq!(moved, 2);
    assert_eq!(items.get("1").unwrap().path, "Обр");
    assert_eq!(items.get("2").unwrap().path, "Отч.erf");
    assert_eq!(items.get("3").unwrap().path, "Старая");
}

#[test]
fn files_of_earlier_versions_are_taken_over() {
    let got = legacy_hashes(vec![None, Some(StrMap::new()), Some(hashes(&[("A", "1")]))]);
    assert_eq!(got.unwrap().get("A").unwrap(), "1");
    assert!(legacy_hashes(vec![None, Some(StrMap::new())]).is_none());

    let manifest = || {
        let mut m = Manifest::default();
        m.source = Some(mapping("_Reference181"));
        m.source_discovered_at = Some("t".to_string());
        m.items.insert(
            "U".to_string(),
            ManifestItem {
                name: "n".to_string(),
                kind: "k".to_string(),
                hash: "h".to_string(),
                path: "p".to_string(),
                size: 3,
                updated: "u".to_string(),
            },
        );
        m
    };
    let (items, disc) = legacy_manifest(manifest(), false, false);
    assert_eq!(items.unwrap().get("U").unwrap().path, "p");
    let disc = disc.unwrap();
    assert_eq!(disc.table, "_Reference181");
    assert_eq!(disc.discovered_at.as_deref(), Some("t"));
    let (items, disc) = legacy_manifest(manifest(), true, true);
    assert!(items.is_none() && disc.is_none());
    let (items, disc) = legacy_manifest(Manifest::default(), false, false);
    assert!(items.is_none() && disc.is_none());
}

#[test]
fn extensions_are_listed_by_the_configuration_first() {
    let ran = |success: bool| {
        Some(CommandResult {
            success,
            return_code: if success { 0 } else { 1 },
            stdout: "name : \"А\"\nhash-sum : \"h\"\n".to_string(),
            stderr: String::new(),
        })
    };
    let pair = |a: &str, b: &str| (a.to_string(), b.to_string());
    assert_eq!(list_extensions(&config(), &ran(true)), Some(vec![pair("А", "h")]));
    assert_eq!(list_extensions(&config(), &ran(false)), None);
    assert_eq!(list_extensions(&config(), &None), None);
    let named = AppConfig { extensions: vec!["Б".to_string()], ..config() };
    assert_eq!(list_extensions(&named, &None), Some(vec![pair("Б", "")]));
    let (run, _) = ExportCoordinator::new(config()).export_extensions(
        &params(),
        list_extensions(&named, &None),
        StrMap::new(),
        false,
    );
    assert_eq!(run.to_export, vec!["Б"]);
}

#[test]
fn outcome_counts_what_was_planned() {
    let mut results = StrMap::new();
    assert_eq!(
        extensions_outcome(&results, 0),
        "ИТОГИ: 0 расширений требовало обновления — всё актуально"
    );
    results.insert("А".to_string(), true);
    results.insert("Б".to_string(), false);
    assert_eq!(extensions_outcome(&results, 3), "ИТОГИ: 1/3 расширений успешно");
}

#[test]
fn extension_that_failed_in_a_full_export_is_exported_again() {
    let listed = pairs(&[("A", "1"), ("B", "2")]);
    let last = hashes(&[("A", "1"), ("B", "2")]);
    let (mut run, action) = ExtensionRun::start(Some(listed.clone()), last, false, false);
    assert!(matches!(action, ExtAction::CleanAll { copies: false }));
    let mut action = run.step(true);
    let kept = loop {
        action = match action {
            ExtAction::Save(kept) => break kept,
            ExtAction::Run(name) => run.step(name != "B"),
            _ => run.step(true),
        };
    };
    assert_eq!(run.results.get("B"), Some(&false));
    assert_eq!(plan_extensions(&listed, &kept, true).to_export, vec!["B"]);
}

#[test]
fn hashes_of_an_earlier_version_are_read() {
    let read = legacy_hashes_of(r#" {"Б": "2", "А": "1"} "#).unwrap();
    assert_eq!(read.len(), 2);
    assert_eq!(read.get("А").unwrap(), "1");
    assert_eq!(read.get("Б").unwrap(), "2");
    assert_eq!(legacy_hashes_of("{}").unwrap().len(), 0);
    for other in ["", "[]", r#"{"А": 1}"#, r#"{"А": "1", "Б": null}"#] {
        assert!(legacy_hashes_of(other).is_none(), "{}", other);
    }
}
