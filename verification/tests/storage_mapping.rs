//! SQL names of a catalogue.

use onec_export::storage_mapping::{
    parse_enum_table, parse_field_line, parse_storage_mapping, parse_table_header,
};

const BP_NO_CHECKSUM_RESPONSE: &str = r#"
_Reference181 (Справочник.ДополнительныеОтчетыИОбработки, Основная):
_IDRRef = Ссылка
_Version = ВерсияДанных
_Marked = ПометкаУдаления
_PredefinedID = ИмяПредопределенныхДанных
_ParentIDRRef = Родитель
_Folder = ЭтоГруппа
_Description = Наименование
_Fld4764 = БезопасныйРежим [рекв]
_Fld4765 = Версия [рекв]
_Fld4766RRef = Вид [рекв]
_Fld4767 = ИмяОбъекта [рекв]
_Fld4775 = ХранилищеНастроек [рекв]
_Fld4776 = ХранилищеОбработки [рекв]
_Reference181_VT4780 (Справочник.ДополнительныеОтчетыИОбработки.ТабличнаяЧасть.Команды, ТабличнаяЧасть):
_LineNo4781 = НомерСтроки
_Fld4782 = Идентификатор [рекв]
_Reference181_IDRRef = Ссылка
_KeyField
"#;

#[test]
fn parses_bp_with_version_fallback() {
    let m = parse_storage_mapping(
        BP_NO_CHECKSUM_RESPONSE,
        "Справочник.ДополнительныеОтчетыИОбработки",
    )
    .unwrap();
    assert_eq!(m.table, "_Reference181");
    assert_eq!(m.field_storage, "_Fld4776");
    assert_eq!(m.field_kind, "_Fld4766RRef");
    assert_eq!(m.field_hash, "_Version");
    assert!(m.hash_is_binary);
}

#[test]
fn prefers_kontrolnaya_summa_when_present() {
    let text = r#"
_Reference500 (Справочник.ДополнительныеОтчетыИОбработки, Основная):
_IDRRef = Ссылка
_Version = ВерсияДанных
_Fld9999 = ХранилищеОбработки [рекв]
_Fld8888 = КонтрольнаяСумма [рекв]
_Fld7777 = Вид [рекв]
"#;
    let m = parse_storage_mapping(text, "Справочник.ДополнительныеОтчетыИОбработки").unwrap();
    assert_eq!(m.field_hash, "_Fld8888");
    assert!(!m.hash_is_binary);
}

#[test]
fn skips_tabular_section() {
    let text = r#"
_Reference181_VT4780 (Справочник.ДополнительныеОтчетыИОбработки.ТабличнаяЧасть.Команды, ТабличнаяЧасть):
_Fld1 = Ссылка
_Reference181 (Справочник.ДополнительныеОтчетыИОбработки, Основная):
_IDRRef = Ссылка
_Version = ВерсияДанных
_Fld4776 = ХранилищеОбработки [рекв]
_Fld4766RRef = Вид [рекв]
"#;
    let m = parse_storage_mapping(text, "Справочник.ДополнительныеОтчетыИОбработки").unwrap();
    assert_eq!(m.table, "_Reference181");
}

#[test]
fn skips_change_registration_with_same_meta_name() {
    let text = r#"
_ReferenceChngR25176 (Справочник.ДополнительныеОтчетыИОбработки, РегистрацияИзменений):
_NodeTRef = Узел
_IDRRef = Ссылка
_Reference113 (Справочник.ДополнительныеОтчетыИОбработки, Основная):
_IDRRef = Ссылка
_Version = ВерсияДанных
_Fld25140RRef = Вид [рекв]
_Fld25150 = ХранилищеОбработки [рекв]
"#;
    let m = parse_storage_mapping(text, "Справочник.ДополнительныеОтчетыИОбработки").unwrap();
    assert_eq!(m.table, "_Reference113");
    assert_eq!(m.field_storage, "_Fld25150");
    assert_eq!(m.field_kind, "_Fld25140RRef");
}

#[test]
fn fails_when_no_main_section() {
    let text = r#"
_Reference181_VT4780 (Справочник.ДополнительныеОтчетыИОбработки.ТабличнаяЧасть.Команды, ТабличнаяЧасть):
_Fld1 = Ссылка
"#;
    let err =
        parse_storage_mapping(text, "Справочник.ДополнительныеОтчетыИОбработки").unwrap_err();
    assert!(format!("{}", err).contains("Основная"));
}

#[test]
fn fails_when_storage_field_missing() {
    let text = r#"
_Reference181 (Справочник.ДополнительныеОтчетыИОбработки, Основная):
_IDRRef = Ссылка
_Version = ВерсияДанных
_Fld4766RRef = Вид [рекв]
"#;
    let err =
        parse_storage_mapping(text, "Справочник.ДополнительныеОтчетыИОбработки").unwrap_err();
    assert!(format!("{}", err).contains("ХранилищеОбработки"));
}

#[test]
fn fails_when_kind_or_hash_missing() {
    let kindless = "_R1 (С.Х, Основная):\n_Version = В\n_Fld1 = ХранилищеОбработки\n";
    assert_eq!(
        parse_storage_mapping(kindless, "С.Х").unwrap_err(),
        "поле 'Вид' не найдено в таблице _R1"
    );
    let hashless = "_R1 (С.Х, Основная):\n_Fld1 = ХранилищеОбработки\n_Fld2 = Вид\n";
    assert_eq!(
        parse_storage_mapping(hashless, "С.Х").unwrap_err(),
        "ни 'КонтрольнаяСумма', ни fallback '_Version' не найдены в таблице _R1 — невозможно \
         определить hash-поле"
    );
}

#[test]
fn parses_enum_table() {
    let text = r#"
_Enum1315 (Перечисление.ВидыДополнительныхОтчетовИОбработок, Основная):
_IDRRef = Ссылка
_EnumOrder = Порядок
"#;
    let table =
        parse_enum_table(text, "Перечисление.ВидыДополнительныхОтчетовИОбработок").unwrap();
    assert_eq!(table, "_Enum1315");
}

#[test]
fn fails_when_enum_table_not_found() {
    let text = r#"
_Reference181 (Справочник.ДополнительныеОтчетыИОбработки, Основная):
_IDRRef = Ссылка
"#;
    let err = parse_enum_table(text, "Перечисление.ВидыДополнительныхОтчетовИОбработок")
        .unwrap_err();
    assert!(format!("{}", err).contains("Основная"));
}

#[test]
fn fails_on_tool_not_found_text() {
    let err = parse_storage_mapping(
        "Таблица не найдена: Справочник.Нету",
        "Справочник.ДополнительныеОтчетыИОбработки",
    )
    .unwrap_err();
    assert!(format!("{}", err).contains("Таблица не найдена"));
}

#[test]
fn lines_are_taken_apart() {
    assert_eq!(
        parse_table_header(" _T (М.Имя, с, запятой, Основная): "),
        Some(("_T".to_string(), "М.Имя, с, запятой".to_string(), "Основная".to_string()))
    );
    assert_eq!(parse_table_header("_T (М.Имя):"), None);
    assert_eq!(
        parse_field_line("_Fld1 = Имя [рекв]"),
        Some(("_Fld1".to_string(), "Имя".to_string()))
    );
    assert_eq!(parse_field_line("Fld1 = Имя"), None);
    assert_eq!(parse_field_line("_KeyField"), None);
}

#[test]
fn tables_behind_the_main_one_do_not_matter() {
    let meta = "Справочник.ДополнительныеОтчетыИОбработки";
    let alone = parse_storage_mapping(BP_NO_CHECKSUM_RESPONSE, meta).unwrap();
    let more = format!(
        "{}\n_Reference9 ({}, Основная):\n_Fld1 = ХранилищеОбработки\n_Fld2 = Вид\n",
        BP_NO_CHECKSUM_RESPONSE.trim_end(),
        meta
    );
    assert_eq!(parse_storage_mapping(&more, meta).unwrap(), alone);
}
