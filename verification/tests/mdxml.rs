//! The layout of an unpacked object.

use onec_export::dcs::{dcs_document_from_xml, extract_dcs_xml, DCS_NAMESPACES};
use onec_export::form_events::{FormEventTable, BUILTIN_FORM_EVENTS};
use onec_export::json::{parse_json, Json};
use onec_export::mdxml::{
    detect_obj_kind, extract_handlers, file_bytes, layout_steps, nameless_form, nameless_template,
    no_description, read_form, read_obj_header, read_template, read_uuid, template_document,
    unread_description, xml_escape, FormInfo, LayoutStats, LayoutStep, ObjHeader, ObjKind,
    TemplateFound, TemplateInfo,
};

const TWO_DOCS: &str = "<SchemaFile xmlns=\"http://v8.1c.ru/8.1/data-composition-system/schema-file\">\r\n\
        <dataCompositionSchema xmlns=\"http://v8.1c.ru/8.1/data-composition-system/schema\" xmlns:dcsset=\"http://v8.1c.ru/8.1/data-composition-system/settings\">\r\n\
        <dataSources>\r\n<dataSource name=\"Источник\"/>\r\n</dataSources>\r\n\
        </dataCompositionSchema>\r\n\
        <Settings><settings name=\"Настройки\"/></Settings>\r\n</SchemaFile>";

#[test]
fn dcs_document_keeps_body_and_drops_settings() {
    let doc = dcs_document_from_xml(TWO_DOCS).expect("документ собран");
    assert!(doc.starts_with("<?xml version=\"1.0\" encoding=\"UTF-8\"?>"));
    assert!(doc.ends_with("</DataCompositionSchema>"));
    assert!(doc.contains("<DataCompositionSchema "));
    for ns in DCS_NAMESPACES {
        assert!(doc.contains(ns), "{ns}");
    }
    let body = "<dataSources>\r\n<dataSource name=\"Источник\"/>\r\n</dataSources>\r\n";
    assert!(doc.contains(body));
    assert!(!doc.contains("Settings"));
    assert_eq!(doc.matches("<DataCompositionSchema").count(), 1);
}

#[test]
fn dcs_document_without_element_is_none() {
    assert!(dcs_document_from_xml("<SchemaFile><Settings/></SchemaFile>").is_none());
    assert!(dcs_document_from_xml("").is_none());
    assert!(dcs_document_from_xml("<dataCompositionSchemaX/>").is_none());
}

#[test]
fn dcs_document_self_closing_has_empty_body() {
    let source = r#"<dataCompositionSchema xmlns="http://пример"/>"#;
    let doc = dcs_document_from_xml(source).expect("документ собран");
    assert!(doc.starts_with("<?xml version=\"1.0\" encoding=\"UTF-8\"?>"));
    assert!(doc.ends_with("/>"), "{doc}");
    assert!(!doc.contains("http://пример"));
    for ns in DCS_NAMESPACES {
        assert!(doc.contains(ns));
    }
}

#[test]
fn nested_schemas_are_counted() {
    let source = "<DATACOMPOSITIONSCHEMA><dataCompositionSchema a='1'>x</dataCompositionSchema>\
                  <dataCompositionSchema />y</dataCompositionSchema>z";
    let doc = dcs_document_from_xml(source).unwrap();
    assert!(doc.ends_with(
        "\"><dataCompositionSchema a='1'>x</dataCompositionSchema>\
         <dataCompositionSchema />y</DataCompositionSchema>"
    ));
    assert!(dcs_document_from_xml("<dataCompositionSchema>x").is_none());
    assert!(dcs_document_from_xml("<dataCompositionSchema").is_none());
}

fn real_template_bytes(bom: bool) -> Vec<u8> {
    let mut bin: Vec<u8> = (0..27u8).map(|i| i.wrapping_mul(7).wrapping_add(1)).collect();
    if bom {
        bin.extend_from_slice(&[0xEF, 0xBB, 0xBF]);
    }
    bin.extend_from_slice(TWO_DOCS.as_bytes());
    bin
}

#[test]
fn extract_dcs_from_real_bin_with_bom() {
    let doc = extract_dcs_xml(&real_template_bytes(true), &None).expect("документ извлечён");
    assert!(doc.starts_with("<?xml version=\"1.0\" encoding=\"UTF-8\"?>"));
    assert!(doc.contains("<DataCompositionSchema "), "{doc}");
    assert!(doc.ends_with("</DataCompositionSchema>"));
    assert!(!doc.contains("Settings"), "{doc}");
}

#[test]
fn extract_dcs_from_real_bin_without_bom() {
    let doc = extract_dcs_xml(&real_template_bytes(false), &None).expect("документ извлечён");
    assert!(doc.contains("<DataCompositionSchema "), "{doc}");
    assert!(!doc.contains("Settings"), "{doc}");
}

#[test]
fn extract_dcs_without_xml_marker_is_none() {
    assert!(extract_dcs_xml(&[0u8; 4096], &None).is_none());
}

#[test]
fn extract_dcs_beyond_window_is_none() {
    let mut bin = vec![b'x'; 2048];
    bin.extend_from_slice(TWO_DOCS.as_bytes());
    assert!(extract_dcs_xml(&bin, &None).is_none());
}

#[test]
fn entries_of_a_container_come_first() {
    let schema = |name: &str| {
        format!("<dataCompositionSchema>{}</dataCompositionSchema>", name).into_bytes()
    };
    let bin = real_template_bytes(true);
    // one entry, compressed
    let mut packed = Vec::new();
    {
        let mut e = flate2::write::DeflateEncoder::new(&mut packed, flate2::Compression::fast());
        std::io::Write::write_all(&mut e, &schema("сжато")).unwrap();
        e.finish().unwrap();
    }
    let doc = extract_dcs_xml(&bin, &Some(vec![packed])).unwrap();
    assert!(doc.ends_with(">сжато</DataCompositionSchema>"), "{doc}");
    // several entries: the first with a schema
    let entries = vec![b"text".to_vec(), schema("первая"), schema("вторая")];
    let doc = extract_dcs_xml(&bin, &Some(entries)).unwrap();
    assert!(doc.ends_with(">первая</DataCompositionSchema>"), "{doc}");
    // a binary prefix before the declaration
    let mut wrapped = vec![0xFF, 0xFE, 0x00];
    wrapped.extend_from_slice(b"<?xml version=\"1.0\"?>");
    wrapped.extend_from_slice(&schema("обёртка"));
    let doc = extract_dcs_xml(&bin, &Some(vec![wrapped])).unwrap();
    assert!(doc.ends_with(">обёртка</DataCompositionSchema>"), "{doc}");
    // entries without a schema: the file itself
    let doc = extract_dcs_xml(&bin, &Some(vec![b"text".to_vec()])).unwrap();
    assert!(doc.contains("Источник"), "{doc}");
}

#[test]
fn xml_escape_covers_specials() {
    assert_eq!(xml_escape("a&b<c>d\"e"), "a&amp;b&lt;c&gt;d&quot;e");
    assert_eq!(xml_escape("Схема компоновки"), "Схема компоновки");
}

const REPORT_UUID: &str = "11111111-2222-3333-4444-555555555555";

fn header(text: &str) -> ObjHeader {
    read_obj_header(text).expect("паспорт")
}

fn report() -> ObjHeader {
    header(&format!(
        r#"{{"name":"Отчёт1","name2":{{"ru":"Отчёт один"}},"comment":"","uuid":"{REPORT_UUID}"}}"#
    ))
}

fn scheme(document: Result<String, String>) -> TemplateInfo {
    let found = read_template(
        r#"{"type":"scheme","name":"Схема1","name2":{"ru":"Схема один"},"comment":""}"#,
        &Some(r#"{"uuid":"aaaaaaaa-bbbb-cccc-dddd-eeeeeeeeeeee"}"#.to_string()),
        "Схема1",
    );
    match found {
        TemplateFound::Schema(header) => {
            TemplateInfo { header, dir: "Объект/Template/Схема1".to_string(), document }
        }
        other => panic!("{:?}", other),
    }
}

/// Takes every step as if its file was written.
fn lay_out(steps: &[LayoutStep]) -> (LayoutStats, Vec<(String, String)>) {
    let mut stats = LayoutStats::default();
    let mut files = Vec::new();
    for step in steps {
        let done = stats.count(step, &None);
        assert!(!done.skip_next);
        if let LayoutStep::Write { path, body, .. } = step {
            files.push((path.join("/"), body.clone()));
        }
    }
    (stats, files)
}

fn body<'a>(files: &'a [(String, String)], path: &str) -> &'a str {
    &files.iter().find(|f| f.0 == path).expect(path).1
}

#[test]
fn layout_writes_expected_paths() {
    assert_eq!(detect_obj_kind(true, false), Some(ObjKind::Report));
    let missing = template_document(
        "Объект/Template/Схема1",
        &Err("нет файла".to_string()),
        &None,
    );
    let steps = layout_steps(
        ObjKind::Report,
        &report(),
        "Объект",
        "Объект/Reports/Отчёт1",
        vec![scheme(missing)],
        Vec::new(),
    );
    let (stats, files) = lay_out(&steps);
    assert_eq!(stats.schemas, 0);
    assert_eq!(stats.forms, 0);
    assert_eq!(stats.handlers, 0);
    assert_eq!(stats.warnings, 1);
    let paths: Vec<&str> = files.iter().map(|f| f.0.as_str()).collect();
    assert_eq!(
        paths,
        vec![
            "Configuration.xml",
            "Reports/Отчёт1/Отчёт1.xml",
            "Reports/Отчёт1/Templates/Схема1.xml"
        ]
    );

    let text = body(&files, "Reports/Отчёт1/Отчёт1.xml");
    assert!(text.contains("\r\n"));
    let report_tag = format!("\t<Report uuid=\"{REPORT_UUID}\">");
    assert!(text.contains(&report_tag), "{text}");
    let main_schema =
        "<MainDataCompositionSchema>Report.Отчёт1.Template.Схема1</MainDataCompositionSchema>";
    assert!(text.contains(main_schema), "{text}");
    assert!(text.contains("<ChildObjects>"));
    assert!(text.contains("<Template>Схема1</Template>"));
    assert!(text.contains("<v8:lang>ru</v8:lang>"));
    assert!(text.contains("<v8:content>Отчёт один</v8:content>"));
    assert!(!text.contains("<Comment>"));

    let cfg = body(&files, "Configuration.xml");
    assert!(cfg.contains("\t<Configuration uuid=\"11111111-2222-3333-4444-555555555555\">"));
}

#[test]
fn scheme_without_data_counts_warning() {
    let missing = template_document("Д", &Err("нет файла".to_string()), &None);
    assert_eq!(missing.as_ref().unwrap_err(), "Д — нет данных макета (Template.bin): нет файла");
    let steps = layout_steps(
        ObjKind::Report,
        &report(),
        "Объект",
        "Объект/Reports/Отчёт1",
        vec![scheme(missing)],
        Vec::new(),
    );
    let (stats, _) = lay_out(&steps);
    assert_eq!(stats.schemas, 0);
    assert!(stats.warnings >= 1, "{stats:?}");
    let unread = template_document("Д", &Ok(vec![0u8; 16]), &None);
    assert_eq!(
        unread.unwrap_err(),
        "Д — в Template.bin нет разбираемого документа схемы компоновки данных"
    );
}

#[test]
fn schema_of_a_template_is_written() {
    let document = template_document("Д", &Ok(real_template_bytes(true)), &None);
    let steps = layout_steps(
        ObjKind::Report,
        &report(),
        "Объект",
        "Объект/Reports/Отчёт1",
        vec![scheme(document)],
        Vec::new(),
    );
    let (stats, files) = lay_out(&steps);
    assert_eq!((stats.schemas, stats.warnings), (1, 0));
    let text = body(&files, "Reports/Отчёт1/Templates/Схема1/Ext/Template.xml");
    assert!(text.contains("<DataCompositionSchema "));
}

#[test]
fn layout_skips_main_schema_for_processor() {
    let h = header(
        r#"{"name":"Обработка1","name2":{},"comment":"Текст","uuid":"99999999-2222-3333-4444-555555555555"}"#,
    );
    let steps = layout_steps(
        ObjKind::DataProcessor,
        &h,
        "Объект",
        "Объект/DataProcessors/Обработка1",
        Vec::new(),
        Vec::new(),
    );
    let (stats, files) = lay_out(&steps);
    assert_eq!(stats.warnings, 0);
    let text = body(&files, "DataProcessors/Обработка1/Обработка1.xml");
    assert!(text.contains("\t<DataProcessor uuid=\"99999999-2222-3333-4444-555555555555\">"));
    assert!(!text.contains("MainDataCompositionSchema"));
    assert!(!text.contains("ChildObjects"));
    assert_eq!(
        text,
        "<?xml version=\"1.0\" encoding=\"UTF-8\"?>\r\n\
         <MetaDataObject xmlns=\"http://v8.1c.ru/8.3/MDClasses\" \
         xmlns:v8=\"http://v8.1c.ru/8.1/data/core\" \
         xmlns:xsi=\"http://www.w3.org/2001/XMLSchema-instance\" version=\"2.20\">\r\n\
         \t<DataProcessor uuid=\"99999999-2222-3333-4444-555555555555\">\r\n\
         \t\t<Properties>\r\n\t\t\t<Name>Обработка1</Name>\r\n\
         \t\t\t\t<Comment>Текст</Comment>\r\n\
         \t\t</Properties>\r\n\t</DataProcessor>\r\n</MetaDataObject>\r\n"
    );
}

#[test]
fn layout_without_passport_warns() {
    assert_eq!(detect_obj_kind(false, false), None);
    let mut stats = LayoutStats::default();
    let step = LayoutStep::Warn(no_description("Пусто"));
    let done = stats.count(&step, &None);
    assert_eq!(
        done.warning.as_deref(),
        Some(
            "⚠ Пусто — нет ни ExternalReport.json, ни ExternalDataProcessor.json: \
             раскладка Конфигуратора пропущена"
        )
    );
    assert_eq!(stats, LayoutStats { schemas: 0, forms: 0, handlers: 0, warnings: 1 });
    assert!(read_obj_header("не json").is_none());
    assert!(read_obj_header(r#"{"name":"","uuid":"u"}"#).is_none());
    assert!(read_obj_header(r#"{"name":"Имя"}"#).is_none());
    assert!(unread_description("p").starts_with("p — паспорт объекта не прочитан"));
}

fn elem_fragment(known_id: &str) -> Json {
    let text = format!(
        r#"{{
  "props": [
    {{
      "name": "Реквизит1",
      "id": "1",
      "raw": [
        "9",
        [ "1" ],
        "0",
        "\"Реквизит1\"",
        [
          "1",
          "0f0f0f0f-1111-2222-3333-444444444444",
          "\"Реквизит1Заполнить\"",
          "1",
          "0",
          "0f0f0f0f-1111-2222-3333-444444444444",
          "0"
        ]
      ]
    }}
  ],
  "commands": [
    {{
      "name": "Команда1",
      "id": "1",
      "raw": [
        "9",
        [
          "1",
          "{known_id}",
          "\"ВыполнитьКоманду\""
        ]
      ],
      "child": [
        {{
          "name": "Команда1/Вложенная",
          "id": "2",
          "raw": [
            "1",
            "77777777-1111-2222-3333-444444444444",
            "\"ВложеннаяПересчитать\""
          ]
        }}
      ]
    }}
  ],
  "data": {{
    "Группа/Поле1": {{
      "raw": [
        "1",
        "77777777-7777-7777-7777-777777777777",
        "\"Поле1Обработчик\"",
        "1",
        "0",
        "77777777-7777-7777-7777-777777777777",
        "0",
        "Текст без кавычек"
      ]
    }}
  }}
}}"#
    );
    parse_json(&text).expect("фрагмент Form.elem.json")
}

#[test]
fn extract_handlers_from_all_sources() {
    let (known_id, known_name) = BUILTIN_FORM_EVENTS[0];
    let elem = elem_fragment(known_id);
    let handlers = extract_handlers(&elem, &FormEventTable::builtin());
    assert_eq!(
        handlers,
        vec![
            ("Поле1".to_string(), "Обработчик".to_string(), "Поле1Обработчик".to_string()),
            (
                "Реквизит1".to_string(),
                "Заполнить".to_string(),
                "Реквизит1Заполнить".to_string()
            ),
            ("Команда1".to_string(), known_name.to_string(), "ВыполнитьКоманду".to_string()),
            (
                "Вложенная".to_string(),
                "Пересчитать".to_string(),
                "ВложеннаяПересчитать".to_string()
            ),
        ]
    );
}

#[test]
fn extract_handlers_skips_false_pairs() {
    let elem = parse_json(
        r#"{
            "data": {
                "Поле1": {
                    "raw": [
                        "1",
                        "77777777-7777-7777-7777-777777777777",
                        "БезКавычек",
                        "2",
                        "00000000-0000-0000-0000-000000000000",
                        "0"
                    ]
                },
                "Поле2": {
                    "raw": [
                        "1",
                        "77777777-7777-7777-7777-777777777777",
                        "\"\""
                    ]
                }
            }
        }"#,
    )
    .unwrap();
    let handlers = extract_handlers(&elem, &FormEventTable::builtin());
    assert!(handlers.is_empty(), "{handlers:?}");
}

#[test]
fn extract_handlers_requires_owner_prefix_for_unknown_id() {
    let elem = parse_json(
        r#"{
            "props": [{
                "name": "Реквизит1",
                "id": "1",
                "raw": [
                    "1",
                    "0f0f0f0f-1111-2222-3333-444444444444",
                    "\"ЧужойОбработчик\""
                ]
            }]
        }"#,
    )
    .unwrap();
    assert!(extract_handlers(&elem, &FormEventTable::builtin()).is_empty());
}

#[test]
fn first_handler_of_an_event_counts() {
    let (id, name) = BUILTIN_FORM_EVENTS[0];
    let elem = parse_json(&format!(
        r#"{{"data": {{"А": {{"raw": ["{id}", "\"Первый\"", "{id}", "\"Второй\""]}}}}}}"#
    ))
    .unwrap();
    let handlers = extract_handlers(&elem, &FormEventTable::builtin());
    assert_eq!(handlers, vec![("А".to_string(), name.to_string(), "Первый".to_string())]);
}

fn form(name: &str, elem: Option<String>) -> FormInfo {
    read_form(
        name,
        &Some(r#"{"uuid":"12345678-2222-3333-4444-555555555555"}"#.to_string()),
        &elem,
        &FormEventTable::builtin(),
    )
    .expect("форма")
}

fn processor() -> ObjHeader {
    header(
        r#"{"name":"Обработка1","name2":{"ru":"Обработка"},"comment":"","uuid":"99999999-2222-3333-4444-555555555555"}"#,
    )
}

#[test]
fn layout_writes_form_with_english_events() {
    let (known_id, known_name) = BUILTIN_FORM_EVENTS[0];
    let elem = format!(
        r#"{{"commands":[{{"name":"Команда1","id":"1","raw":["9",["1","{known_id}","\"ВыполнитьКоманду\""]]}}],
                    "data":{{"Группа/Поле1":{{"raw":["1","77777777-7777-7777-7777-777777777777","\"Поле1Обработчик\""]}}}}}}"#
    );
    let steps = layout_steps(
        ObjKind::DataProcessor,
        &processor(),
        "Обработка",
        "Обработка/DataProcessors/Обработка1",
        Vec::new(),
        vec![form("Форма1", Some(elem))],
    );
    let (stats, files) = lay_out(&steps);
    assert_eq!(stats.forms, 1);
    assert_eq!(stats.handlers, 2);
    assert_eq!(stats.schemas, 0);
    assert_eq!(stats.warnings, 0);

    let obj_xml = body(&files, "DataProcessors/Обработка1/Обработка1.xml");
    assert!(obj_xml.contains("<ChildObjects>"));
    assert!(obj_xml.contains("<Form>Форма1</Form>"));

    let form_xml = body(&files, "DataProcessors/Обработка1/Forms/Форма1.xml");
    assert!(form_xml.contains("\t<Form uuid=\"12345678-2222-3333-4444-555555555555\">"));
    assert!(form_xml.contains("<FormType>Managed</FormType>"));

    let ext = body(&files, "DataProcessors/Обработка1/Forms/Форма1/Ext/Form.xml");
    assert!(ext.contains("\t<ChildItems>"));
    assert!(ext.contains("\t\t<InputField name=\"Поле1\">"));
    assert!(ext.contains("\t\t\t\t<Event name=\"Обработчик\">Поле1Обработчик</Event>"));
    let command_event = format!("\t\t\t\t<Event name=\"{known_name}\">ВыполнитьКоманду</Event>");
    assert!(ext.contains(&command_event));
}

#[test]
fn layout_writes_empty_form_module() {
    let steps = layout_steps(
        ObjKind::DataProcessor,
        &processor(),
        "Обработка",
        "Обработка/DataProcessors/Обработка1",
        Vec::new(),
        vec![form("Форма1", None)],
    );
    let (stats, files) = lay_out(&steps);
    assert_eq!(stats.forms, 1);
    assert_eq!(stats.handlers, 0);
    let ext = body(&files, "DataProcessors/Обработка1/Forms/Форма1/Ext/Form.xml");
    assert!(ext.contains("\t<ChildItems/>"));
}

#[test]
fn forms_are_laid_out_by_name_and_failures_counted() {
    let steps = layout_steps(
        ObjKind::DataProcessor,
        &processor(),
        "О",
        "О/D",
        Vec::new(),
        vec![form("Б", None), form("А", Some("не json".to_string()))],
    );
    let (_, files) = lay_out(&steps);
    let order: Vec<&str> = files.iter().skip(2).map(|f| f.0.as_str()).collect();
    assert_eq!(order[0], "DataProcessors/Обработка1/Forms/А.xml");
    assert_eq!(order[2], "DataProcessors/Обработка1/Forms/Б.xml");
    let mut stats = LayoutStats::default();
    let done = stats.count(&steps[2], &Some("занято".to_string()));
    assert!(done.skip_next);
    assert_eq!(done.warning.as_deref(), Some("⚠ О/D: паспорт формы А — занято"));
    let done = stats.count(&steps[5], &Some("занято".to_string()));
    assert!(!done.skip_next);
    assert_eq!(done.warning.as_deref(), Some("⚠ О/D: форма Б — занято"));
    assert_eq!(stats.warnings, 2);
}

#[test]
fn what_has_no_identifier_is_left_out() {
    assert!(read_form("Ф", &None, &None, &FormEventTable::builtin()).is_none());
    assert_eq!(
        nameless_form("Ф", "ReportForm"),
        "Ф — нет ReportForm.id.json: форма в раскладку не попала"
    );
    assert_eq!(read_uuid(r#"{"uuid":""}"#), None);
    assert!(matches!(
        read_template(r#"{"type":"scheme"}"#, &None, "Имя"),
        TemplateFound::Nameless
    ));
    assert!(matches!(
        read_template(r#"{"type":"spreadsheet","name":"Имя"}"#, &None, "Имя"),
        TemplateFound::Other
    ));
    assert!(nameless_template("Т").contains("без имени или uuid"));
}

#[test]
fn file_begins_with_the_mark_of_its_encoding() {
    assert_eq!(file_bytes("ж\r\n"), [0xef, 0xbb, 0xbf, 0xd0, 0xb6, 0x0d, 0x0a]);
}
