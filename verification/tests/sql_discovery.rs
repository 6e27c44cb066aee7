//! The storage of a catalogue by the service tables.

use onec_export::sql_discovery::{
    blob_query, collect_blobs, config_query, dbnames_from_text, decode_text, describes_object,
    enum_table_name, find_col, find_field_number, find_object_desc, judge_candidate, load_dbnames,
    parse_dbnames, reference_table, resolve_column, short_meta_name, try_inflate, window_before,
    CandidateSearch, ObjectSearch,
};
use onec_export::strmap::StrMap;

const DBNAMES_SAMPLE: &str = "{59627,\n\
{59018,\n\
{00000000-0000-0000-0000-000000000000,\"DbSegments\",1},\n\
{92707138-5004-4378-8477-f909166d319d,\"Reference\",181},\n\
{d81b1a3f-1111-2222-3333-444455556666,\"Fld\",4776},\n\
{752dc569-cf84-42d7-911d-49d455f7214e,\"Enum\",1315},\n";

#[test]
fn parses_dbnames_into_three_maps() {
    let n = parse_dbnames(DBNAMES_SAMPLE);
    assert_eq!(n.reference, vec![("92707138-5004-4378-8477-f909166d319d".to_string(), 181)]);
    assert_eq!(n.enums, vec![("752dc569-cf84-42d7-911d-49d455f7214e".to_string(), 1315)]);
    assert_eq!(n.fld.get("d81b1a3f-1111-2222-3333-444455556666"), Some(&4776));
    assert_eq!(n.fld.len(), 1);
}

fn fld() -> StrMap<u32> {
    let mut fld = StrMap::new();
    fld.insert("d81b1a3f-1111-2222-3333-444455556666".to_string(), 4776u32);
    fld.insert("aaaaaaaa-1111-2222-3333-444455556666".to_string(), 4766u32);
    fld
}

#[test]
fn finds_field_number_before_name() {
    let fld = fld();
    let desc = "{aaaaaaaa-1111-2222-3333-444455556666,0},\"Вид\",{\"ru\",\"Вид\"},\
                {99999999-9999-9999-9999-999999999999,0},\
                {d81b1a3f-1111-2222-3333-444455556666,0},\"ХранилищеОбработки\",{\"ru\",\"Хранилище\"}";
    assert_eq!(find_field_number(desc, "ХранилищеОбработки", &fld), Some(4776));
    assert_eq!(find_field_number(desc, "Вид", &fld), Some(4766));
    assert_eq!(find_field_number(desc, "КонтрольнаяСумма", &fld), None);
}

const DESC: &str = "{aaaaaaaa-1111-2222-3333-444455556666,0},\"Вид\",\
                    {d81b1a3f-1111-2222-3333-444455556666,0},\"ХранилищеОбработки\"";

fn cols() -> Vec<String> {
    vec![
        "_IDRRef".to_string(),
        "_Version".to_string(),
        "_Fld4776".to_string(),
        "_Fld4766RRef".to_string(),
    ]
}

#[test]
fn resolves_column_with_rref_fallback() {
    let fld = fld();
    let cols = cols();
    assert_eq!(
        resolve_column(DESC, "ХранилищеОбработки", &fld, &cols).as_deref(),
        Some("_Fld4776")
    );
    assert_eq!(resolve_column(DESC, "Вид", &fld, &cols).as_deref(), Some("_Fld4766RRef"));
    assert_eq!(resolve_column(DESC, "КонтрольнаяСумма", &fld, &cols), None);
}

#[test]
fn quoted_name_does_not_match_longer_name() {
    assert!(describes_object(
        "...,\"ДополнительныеОтчетыИОбработки\",{\"ru\",\"Доп. обработки\"}",
        "ДополнительныеОтчетыИОбработки"
    ));
    assert!(!describes_object(
        "...,\"ДополнительныеОтчетыИОбработкиНастройки\",...",
        "ДополнительныеОтчетыИОбработки"
    ));
}

#[test]
fn window_before_respects_char_boundaries() {
    let text = "ЖЖЖабв\"Вид\"";
    let pos = text.find("\"Вид\"").unwrap();
    assert_eq!(window_before(text, pos, 3), "абв");
    assert_eq!(window_before(text, pos, 100), "ЖЖЖабв");
    assert_eq!(window_before(text, pos, 0), "");
}

#[test]
fn decode_text_strips_bom() {
    let mut bytes = vec![0xEF, 0xBB, 0xBF];
    bytes.extend_from_slice("{59627,".as_bytes());
    assert_eq!(decode_text(&bytes), "{59627,");
    assert_eq!(decode_text(&[b'a', 0xFF]), "a\u{FFFD}");
}

fn deflated(data: &[u8]) -> Vec<u8> {
    let mut out = Vec::new();
    {
        let mut e = flate2::write::DeflateEncoder::new(&mut out, flate2::Compression::fast());
        std::io::Write::write_all(&mut e, data).unwrap();
        e.finish().unwrap();
    }
    out
}

#[test]
fn names_are_read_from_compressed_record() {
    let packed = deflated(DBNAMES_SAMPLE.as_bytes());
    assert_eq!(try_inflate(&packed), DBNAMES_SAMPLE.as_bytes());
    let names = load_dbnames(&packed).unwrap();
    assert_eq!(names.reference.len(), 1);
    let err = dbnames_from_text("пусто", 7).unwrap_err();
    assert!(err.contains("DBNames"), "{}", err);
}

#[test]
fn object_is_searched_in_the_configuration() {
    assert_eq!(short_meta_name("Справочник.Имя").unwrap(), "Имя");
    assert!(short_meta_name("Имя").is_err() || short_meta_name("").is_err());
    let names = vec![("92707138-5004-4378-8477-f909166d319d".to_string(), 181u32)];
    assert!(config_query(&names).contains("92707138-5004-4378-8477-f909166d319d"));
    assert!(blob_query("Params", "DBNames").contains("DBNames"));
    let mut search = ObjectSearch::start(names.clone(), "Имя");
    assert!(search.query().is_some());
    let text = deflated("{\"Имя\",1}".as_bytes());
    let (a, b) = text.split_at(3);
    let rows = vec![
        (Some(names[0].0.clone()), Some(a.to_vec())),
        (Some(names[0].0.to_uppercase()), Some(b.to_vec())),
    ];
    assert_eq!(collect_blobs(&rows).len(), 1);
    search.answer(&rows);
    assert!(search.query().is_none());
    assert_eq!(search.found.len(), 1);
    assert_eq!(search.found[0].0, 181);
    assert_eq!(find_object_desc(&names, &collect_blobs(&rows), "Имя").len(), 1);
    assert_eq!(enum_table_name(&search.found), "_Enum181");
    assert_eq!(enum_table_name(&Vec::new()), "");
}

#[test]
fn candidates_are_judged_by_their_columns() {
    let fld = fld();
    let m = judge_candidate(181, DESC, &cols(), &fld).unwrap();
    assert_eq!(m.table, reference_table(181));
    assert_eq!(m.field_storage, "_Fld4776");
    assert_eq!(m.field_kind, "_Fld4766RRef");
    assert_eq!(m.field_hash, "_Version");
    assert!(m.hash_is_binary);
    assert!(judge_candidate(181, DESC, &vec!["_IDRRef".to_string()], &fld).is_err());
    assert!(CandidateSearch::start(Vec::new(), 5, "Имя").is_err());
    let found = vec![(180u32, "{}".to_string()), (181u32, DESC.to_string())];
    let mut search = CandidateSearch::start(found, 5, "Имя").unwrap();
    assert_eq!(search.table().as_deref(), Some("_Reference180"));
    assert!(search.columns(&cols(), &fld).is_none());
    assert_eq!(search.table().as_deref(), Some("_Reference181"));
    assert!(search.columns(&cols(), &fld).is_some());
    assert_eq!(find_col(&cols(), "_FLD4776").as_deref(), Some("_Fld4776"));
}
