//! Processors of a catalogue.

use onec_export::error::ExportError;
use onec_export::processings::{
    blob_queries, build_kind_map, check_discovery_run, check_entry, ext_by_kind, find_subseq,
    kinds_query, mapping_from_discovery, md5_upper_hex, order_to_kind_name, process_entry,
    read_blob, read_row, rows_query, sanitize_filename, sql_login, unpack_storage, value_storage_to_binary, DbRow,
    DiscoveryDto, DiscoveryField, DiscoveryFields, Manifest, ProcessingsRun,
};
use onec_export::command_builder::IbcmdDbAuth;
use onec_export::runner::CommandResult;
use onec_export::storage_mapping::StorageMapping;
use onec_export::strmap::StrMap;

#[test]
fn sanitize_basic() {
    assert_eq!(sanitize_filename("Нормальное имя"), "Нормальное имя");
    assert_eq!(sanitize_filename("a<b>c:d|e?f*g\"h/i\\j"), "a_b_c_d_e_f_g_h_i_j");
    assert_eq!(sanitize_filename("имя с точкой..."), "имя с точкой");
    assert_eq!(sanitize_filename("   "), "_unnamed");
}

#[test]
fn ext_by_kind_basic() {
    assert_eq!(ext_by_kind("ДополнительныйОтчёт"), ".erf");
    assert_eq!(ext_by_kind("ДополнительныйОтчет"), ".erf");
    assert_eq!(ext_by_kind("AdditionalReport"), ".erf");
    assert_eq!(ext_by_kind("ДополнительнаяОбработка"), ".epf");
    assert_eq!(ext_by_kind("ПечатнаяФорма"), ".epf");
}

#[test]
fn md5_sample() {
    assert_eq!(md5_upper_hex(b""), "D41D8CD98F00B204E9800998ECF8427E");
}

#[test]
fn value_storage_reject_short() {
    let err = value_storage_to_binary(&[]).unwrap_err();
    assert!(matches!(err, ExportError::ValueStorage(_)));
}

#[test]
fn value_storage_reject_unknown_header() {
    let err = value_storage_to_binary(&[0xAA, 0xBB, 0xCC]).unwrap_err();
    match err {
        ExportError::ValueStorage(msg) => assert!(msg.contains("0xAA")),
        _ => panic!("ожидалась ValueStorage-ошибка"),
    }
}

fn storage(body: &[u8]) -> Vec<u8> {
    let mut payload = Vec::new();
    payload.extend_from_slice(b"some-wrapper-bytes-before-marker");
    payload.extend_from_slice(&[0xFFu8, 0xFF, 0xFF, 0x7F]);
    payload.extend_from_slice(body);
    let mut compressed = Vec::new();
    {
        let mut encoder =
            flate2::write::DeflateEncoder::new(&mut compressed, flate2::Compression::fast());
        std::io::Write::write_all(&mut encoder, &payload).unwrap();
        encoder.finish().unwrap();
    }
    let mut vs = Vec::with_capacity(18 + compressed.len());
    vs.push(0x02);
    vs.push(0x01);
    vs.extend_from_slice(&[0u8; 16]);
    vs.extend_from_slice(&compressed);
    vs
}

#[test]
fn value_storage_deflate_roundtrip() {
    let decoded = value_storage_to_binary(&storage(b"test epf bytes")).unwrap();
    let mut expected = Vec::new();
    expected.extend_from_slice(&[0xFFu8, 0xFF, 0xFF, 0x7F]);
    expected.extend_from_slice(b"test epf bytes");
    assert_eq!(decoded, expected);
}

#[test]
fn storage_without_mark_is_refused() {
    let mut vs = vec![0x02, 0x01];
    vs.extend_from_slice(&[0u8; 16]);
    vs.push(1);
    assert!(matches!(
        unpack_storage(&vs, Ok(b"no mark".to_vec())),
        Err(ExportError::ValueStorage(_))
    ));
    assert!(matches!(
        unpack_storage(&vs, Err("битые данные".to_string())),
        Err(ExportError::ValueStorage(_))
    ));
    assert_eq!(find_subseq(b"abcabc", b"ca"), Some(2));
    assert_eq!(find_subseq(b"abc", b"x"), None);
}

fn row(uuid: &str, name: &str, hash: &str) -> DbRow {
    DbRow {
        uuid: uuid.to_string(),
        name: name.to_string(),
        kind: "K".to_string(),
        hash: hash.to_string(),
    }
}

#[test]
fn catalogue_is_exported_and_kept() {
    let kinds = build_kind_map(&vec![(Some("k".to_string()), Some(1))]);
    let mut run = ProcessingsRun::start(
        Manifest::default(),
        vec![
            row("1", "Имя: раз", "00"),
            row("2", "Не пришло", "00"),
            row("3", "Пусто", "00"),
            row("4", "Сбой", "00"),
        ],
    );
    assert_eq!(run.to_fetch, vec!["1", "2", "3", "4"]);
    let current = run.current().unwrap().clone();
    let entry = process_entry(&current, &storage(b"epf"), true, &kinds).unwrap();
    assert!(entry.path.starts_with("processings/Имя_ раз."), "{}", entry.path);
    assert!(run.written(&entry, "t".to_string()));
    run.missing();
    run.failed(&value_storage_to_binary(b"STORHDR").unwrap_err());
    run.failed(&ExportError::ValueStorage("нет".to_string()));
    assert!(run.current().is_none());
    assert_eq!(run.result.new, 1);
    assert_eq!(run.result.skipped_empty, vec!["Пусто"]);
    assert_eq!(run.result.failed.len(), 2);
    assert_eq!(run.result.failed[0].0, "Не пришло");
    assert_eq!(run.result.failed[1].0, "Сбой");
    assert_eq!(run.result.fresh_names, vec!["Имя_ раз"]);
    assert!(run.remove_orphans().is_empty());
    // the next export: one unchanged, the others gone
    let again = ProcessingsRun::start(run.manifest, vec![row("1", "Имя: раз", "00")]);
    assert_eq!(again.result.unchanged, 1);
    assert!(again.to_fetch.is_empty());
    let mut last = ProcessingsRun::start(again.manifest, Vec::new());
    assert_eq!(last.deleted, vec!["1"]);
    assert_eq!(last.remove_orphans().len(), 1);
    assert_eq!(last.result.deleted, 1);
    assert_eq!(last.manifest.items.len(), 0);
}

#[test]
fn checksum_that_differs_is_an_error() {
    let r = row("1", "Имя", "AA");
    let binary = || Ok(vec![1u8, 2, 3]);
    assert!(check_entry(&r, binary(), "AA", ".epf", false).is_ok());
    assert!(check_entry(&r, binary(), "BB", ".epf", false).is_err());
    assert!(check_entry(&r, binary(), "BB", ".epf", true).is_ok());
    assert_eq!(check_entry(&r, binary(), "AA", ".erf", false).unwrap().stale_file, "Имя.epf");
}

fn mapping(kind: &str) -> StorageMapping {
    StorageMapping {
        table: "_Reference181".to_string(),
        field_storage: "_Fld4776".to_string(),
        field_hash: "_Version".to_string(),
        field_kind: kind.to_string(),
        enum_table: String::new(),
        hash_is_binary: true,
    }
}

#[test]
fn queries_name_the_columns() {
    let q = rows_query(&mapping("_Fld4766RRef"));
    assert!(q.contains("_Reference181") && q.contains("_Version"), "{}", q);
    assert!(q.contains("_Fld4766RRef"), "{}", q);
    assert_eq!(kinds_query(""), None);
    assert!(kinds_query("_Enum1315").unwrap().contains("_Enum1315"));
    let many: Vec<String> = (0..5).map(|i| format!("{:032X}", i)).collect();
    let queries = blob_queries(&mapping(""), &many);
    assert!(!queries.is_empty());
    for u in &many {
        assert!(queries.iter().any(|q| q.contains(u.as_str())), "{}", u);
    }
    assert_eq!(order_to_kind_name(-1), None);
}

#[test]
fn discovery_is_checked() {
    let run = |ok: bool| CommandResult {
        success: ok,
        return_code: if ok { 0 } else { 1 },
        stdout: String::new(),
        stderr: "беда".to_string(),
    };
    assert!(check_discovery_run(&run(true), "", true, "o.json").is_ok());
    assert!(check_discovery_run(&run(true), "", false, "o.json").is_err());
    assert!(check_discovery_run(&run(false), "журнал", false, "o.json").is_err());
    let mut by_name = StrMap::new();
    by_name.insert("ХранилищеОбработки".to_string(), "_Fld4776".to_string());
    by_name.insert("Вид".to_string(), "_Fld4766RRef".to_string());
    by_name.insert("КонтрольнаяСумма".to_string(), "_Fld1".to_string());
    let dto = DiscoveryDto {
        table: "_Reference181".to_string(),
        fields: DiscoveryFields::ByName(by_name),
    };
    assert_eq!(dto.count(), 3);
    let m = mapping_from_discovery(&dto, "o.json").unwrap();
    assert_eq!(m.field_storage, "_Fld4776");
    let empty = DiscoveryDto {
        table: "_Reference181".to_string(),
        fields: DiscoveryFields::List(vec![DiscoveryField {
            name: "Иное".to_string(),
            storage: "_Fld9".to_string(),
        }]),
    };
    assert_eq!(empty.all_names(), vec!["Иное"]);
    assert_eq!(empty.pick_single_storage("Вид"), None);
    assert!(mapping_from_discovery(&empty, "o.json").is_err());
}

#[test]
fn login_of_the_server_is_complete() {
    let s = |v: &str| Some(v.to_string());
    assert_eq!(sql_login(IbcmdDbAuth::Windows, &None, &None).unwrap(), None);
    assert_eq!(
        sql_login(IbcmdDbAuth::SqlLogin, &s("u"), &s("p")).unwrap(),
        Some(("u".to_string(), "p".to_string()))
    );
    assert!(matches!(
        sql_login(IbcmdDbAuth::SqlLogin, &None, &s("p")),
        Err(ExportError::Sql(_))
    ));
    assert!(matches!(
        sql_login(IbcmdDbAuth::SqlLogin, &s("u"), &None),
        Err(ExportError::Sql(_))
    ));
}

#[test]
fn rows_are_read_from_their_columns() {
    let mut m = StorageMapping {
        table: "_Reference1".to_string(),
        field_storage: "_Fld1".to_string(),
        field_hash: "_Fld2".to_string(),
        field_kind: "_Fld3RRef".to_string(),
        enum_table: String::new(),
        hash_is_binary: false,
    };
    let some = |s: &str| Some(s.to_string());
    let row = read_row(&m, some("AA"), some("Имя"), None, some("K")).unwrap();
    assert_eq!((row.uuid.as_str(), row.name.as_str()), ("AA", "Имя"));
    assert_eq!((row.hash.as_str(), row.kind.as_str()), ("", "K"));
    m.field_kind = String::new();
    assert_eq!(read_row(&m, some("AA"), None, None, some("K")).unwrap().kind, "");
    match read_row(&m, None, some("Имя"), None, None) {
        Err(ExportError::Sql(e)) => assert_eq!(e, "поле uuid пустое/не строка"),
        other => panic!("{:?}", other),
    }
    assert_eq!(read_blob(some("AA"), Some(vec![1, 2])).unwrap(), ("AA".to_string(), vec![1, 2]));
    match read_blob(some("AA"), None) {
        Err(ExportError::Sql(e)) => assert_eq!(e, "поле vs пустое"),
        other => panic!("{:?}", other),
    }
    match read_blob(None, None) {
        Err(ExportError::Sql(e)) => assert_eq!(e, "поле uuid пустое/не строка"),
        other => panic!("{:?}", other),
    }
}

#[test]
fn empty_storage_has_an_error_of_its_own() {
    assert_eq!(value_storage_to_binary(b"STORHDR"), Err(ExportError::Empty));
    assert_eq!(value_storage_to_binary(b"STORHDR and more"), Err(ExportError::Empty));
    // The word elsewhere in a value is no mark, and the row has failed.
    let error = value_storage_to_binary(b"..STORHDR").unwrap_err();
    assert!(matches!(&error, ExportError::ValueStorage(m) if m.contains("STORHDR")));
    let mut run = ProcessingsRun::start(Manifest::default(), vec![row("1", "Имя", "00")]);
    run.failed(&error);
    assert_eq!(run.result.failed.len(), 1);
    assert!(run.result.skipped_empty.is_empty());
}

#[test]
fn case_of_kinds_does_not_matter() {
    assert_eq!(ext_by_kind("ADDITIONALREPORT"), ".erf");
    assert_eq!(ext_by_kind("ПЕЧАТНЫЙ ОТЧЁТ"), ".erf");
    let kinds = build_kind_map(&vec![(Some("ab0c".to_string()), Some(1))]);
    assert!(kinds.contains_key("AB0C") && !kinds.contains_key("ab0c"));
}
