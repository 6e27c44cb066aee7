//! SQL names of the catalogue of additional reports and data processors.
//!
//! The tool `db_table_fields` answers with structured text: a header
//! `<table> (<metadata name>, <purpose>):` opens each table, and the lines
//! `<column> = <attribute> [<category>]` after it name its columns. The parser
//! picks the main table of the wanted metadata object and, from its columns,
//! the storage, the kind and the hash.

use vstd::prelude::*;

use crate::json::{self, Json, Tree};
use crate::text;

verus! {

/// The name of the tool that lists the fields of a table.
pub const TOOL_TABLE_FIELDS: &'static str = "db_table_fields";

/// The metadata name of the enumeration of processor kinds.
pub const ENUM_META: &'static str = "Перечисление.ВидыДополнительныхОтчетовИОбработок";

/// The attribute with the stored processor.
pub const META_FIELD_STORAGE: &'static str = "ХранилищеОбработки";

/// The attribute with the kind of a processor.
pub const META_FIELD_KIND: &'static str = "Вид";

/// The attribute with the checksum of a processor.
pub const META_FIELD_HASH_BSP: &'static str = "КонтрольнаяСумма";

/// The column with the version of a row, which tells of a change where there is
/// no checksum.
pub const SQL_FIELD_HASH_FALLBACK: &'static str = "_Version";

/// The purpose of the main table of an object.
pub const PURPOSE_MAIN: &'static str = "Основная";

/// SQL names of the table and of its three key columns.
#[derive(Debug, Clone, PartialEq, Eq)]
pub struct StorageMapping {
    pub table: String,
    pub field_storage: String,
    pub field_hash: String,
    pub field_kind: String,
    /// The table of the enumeration of kinds; empty while it is not resolved.
    pub enum_table: String,
    /// Whether `field_hash` is a binary row version rather than an MD5 string.
    pub hash_is_binary: bool,
}

/// What a storage mapping says.
pub struct MappingView {
    pub table: Seq<char>,
    pub field_storage: Seq<char>,
    pub field_hash: Seq<char>,
    pub field_kind: Seq<char>,
    pub enum_table: Seq<char>,
    pub hash_is_binary: bool,
}

impl View for StorageMapping {
    type V = MappingView;

    open spec fn view(&self) -> MappingView {
        MappingView {
            table: self.table@,
            field_storage: self.field_storage@,
            field_hash: self.field_hash@,
            field_kind: self.field_kind@,
            enum_table: self.enum_table@,
            hash_is_binary: self.hash_is_binary,
        }
    }
}

/// The header of a table, taken apart.
pub struct Header {
    pub table: Seq<char>,
    pub meta: Seq<char>,
    pub purpose: Seq<char>,
}

/// What a line says as the header of a table, `<table> (<meta>, <purpose>):`.
pub open spec fn header(line: Seq<char>) -> Option<Header> {
    let t = text::trim(line);
    if !text::ends(t, "):"@) {
        None
    } else {
        match text::split_once(t.take(t.len() - "):"@.len()), " ("@) {
            None => None,
            Some((table, rest)) => match text::rsplit_once(rest, ", "@) {
                None => None,
                Some((meta, purpose)) => Some(
                    Header {
                        table: text::trim(table),
                        meta: text::trim(meta),
                        purpose: text::trim(purpose),
                    },
                ),
            },
        }
    }
}

/// What a line says as a column: its SQL name and the attribute it stores.
pub open spec fn field(line: Seq<char>) -> Option<(Seq<char>, Seq<char>)> {
    match text::split_once(text::trim(line), " = "@) {
        None => None,
        Some((left, rest)) => {
            let sql = text::trim(left);
            let meta = text::trim(without_category(rest));
            if text::starts(sql, "_"@) && meta.len() > 0 {
                Some((sql, meta))
            } else {
                None
            }
        },
    }
}

/// An attribute's name without the category in square brackets at its end.
pub open spec fn without_category(rest: Seq<char>) -> Seq<char> {
    match text::rsplit_once(rest, " ["@) {
        Some((head, tail)) => if text::ends(tail, "]"@) {
            head
        } else {
            rest
        },
        None => rest,
    }
}

/// A line opens the main table of `target`.
pub open spec fn is_target(line: Seq<char>, target: Seq<char>) -> bool {
    header(line) matches Some(h) && h.meta == target && h.purpose == PURPOSE_MAIN@
}

/// The columns listed before the next header.
pub open spec fn block(lines: Seq<Seq<char>>) -> Seq<(Seq<char>, Seq<char>)>
    decreases lines.len(),
{
    if lines.len() == 0 || header(lines[0]) is Some {
        Seq::empty()
    } else {
        match field(lines[0]) {
            Some(f) => seq![f] + block(lines.skip(1)),
            None => block(lines.skip(1)),
        }
    }
}

/// The table of `target` and its columns: the first main table of `target`
/// that lists columns or, where none does, the last one. `found` is the last
/// one before `lines`.
pub open spec fn target_table(
    lines: Seq<Seq<char>>,
    target: Seq<char>,
    found: Option<Seq<char>>,
) -> Option<(Seq<char>, Seq<(Seq<char>, Seq<char>)>)>
    decreases lines.len(),
{
    if lines.len() == 0 {
        match found {
            Some(table) => Some((table, Seq::empty())),
            None => None,
        }
    } else if is_target(lines[0], target) {
        let columns = block(lines.skip(1));
        if columns.len() > 0 {
            Some((header(lines[0])->0.table, columns))
        } else {
            target_table(lines.skip(1), target, Some(header(lines[0])->0.table))
        }
    } else {
        target_table(lines.skip(1), target, found)
    }
}

/// The column that stores an attribute; where several lines name the
/// attribute, the last of them counts.
pub open spec fn column(columns: Seq<(Seq<char>, Seq<char>)>, meta: Seq<char>) -> Option<Seq<char>>
    decreases columns.len(),
{
    if columns.len() == 0 {
        None
    } else if columns.last().1 == meta {
        Some(columns.last().0)
    } else {
        column(columns.drop_last(), meta)
    }
}

/// Some attribute is stored in the column `sql`.
pub open spec fn stores(columns: Seq<(Seq<char>, Seq<char>)>, sql: Seq<char>) -> bool {
    exists|i: int|
        0 <= i < columns.len() && column(columns, (#[trigger] columns[i]).1) == Some(sql)
}

/// The message about a metadata object whose main table is not in the answer.
pub open spec fn no_block_error(text: Seq<char>, target: Seq<char>) -> Seq<char> {
    "не найден блок '<таблица> ("@ + target + ", "@ + PURPOSE_MAIN@
        + ")' в ответе MCP db_table_fields.\nОтвет: "@ + text::first(text, 300)
}

/// The message about an attribute that no column stores.
pub open spec fn no_field_error(field: Seq<char>, table: Seq<char>) -> Seq<char> {
    "поле '"@ + field + "' не найдено в таблице "@ + table
}

/// The message about a table without a hash column.
pub open spec fn no_hash_error(table: Seq<char>) -> Seq<char> {
    "ни '"@ + META_FIELD_HASH_BSP@ + "', ни fallback '"@ + SQL_FIELD_HASH_FALLBACK@
        + "' не найдены в таблице "@ + table + " — невозможно определить hash-поле"@
}

/// The mapping that the columns of a table give.
pub open spec fn mapping_of(
    table: Seq<char>,
    columns: Seq<(Seq<char>, Seq<char>)>,
) -> Result<MappingView, Seq<char>> {
    let storage = column(columns, META_FIELD_STORAGE@);
    let kind = column(columns, META_FIELD_KIND@);
    let checksum = column(columns, META_FIELD_HASH_BSP@);
    if storage is None {
        Err(no_field_error(META_FIELD_STORAGE@, table))
    } else if kind is None {
        Err(no_field_error(META_FIELD_KIND@, table))
    } else if checksum is None && !stores(columns, SQL_FIELD_HASH_FALLBACK@) {
        Err(no_hash_error(table))
    } else {
        Ok(
            MappingView {
                table,
                field_storage: storage->0,
                field_hash: match checksum {
                    Some(sql) => sql,
                    None => SQL_FIELD_HASH_FALLBACK@,
                },
                field_kind: kind->0,
                enum_table: Seq::empty(),
                hash_is_binary: checksum is None,
            },
        )
    }
}

/// What the answer `text` says of the storage of `target`.
pub open spec fn mapping(text: Seq<char>, target: Seq<char>) -> Result<MappingView, Seq<char>> {
    match target_table(text::lines(text), target, None) {
        None => Err(no_block_error(text, target)),
        Some((table, columns)) => mapping_of(table, columns),
    }
}

/// The table of the first header that opens the main table of `target`.
pub open spec fn first_table(lines: Seq<Seq<char>>, target: Seq<char>) -> Option<Seq<char>>
    decreases lines.len(),
{
    if lines.len() == 0 {
        None
    } else if is_target(lines[0], target) {
        Some(header(lines[0])->0.table)
    } else {
        first_table(lines.skip(1), target)
    }
}

/// The result of a parse, by its views.
pub open spec fn mapping_result_view(r: Result<StorageMapping, String>) -> Result<
    MappingView,
    Seq<char>,
> {
    match r {
        Ok(m) => Ok(m@),
        Err(e) => Err(e@),
    }
}

/// The views of a list of columns.
pub open spec fn columns_view(v: Seq<(String, String)>) -> Seq<(Seq<char>, Seq<char>)> {
    v.map_values(|p: (String, String)| (p.0@, p.1@))
}

/// The header of a table: its SQL name, its metadata name and its purpose.
pub fn parse_table_header(line: &str) -> (r: Option<(String, String, String)>)
    ensures
        match (r, header(line@)) {
            (Some((table, meta, purpose)), Some(h)) => table@ == h.table && meta@ == h.meta
                && purpose@ == h.purpose,
            (None, None) => true,
            _ => false,
        },
{
    let t = text::trimmed(line);
    if !text::ends_with(&t, "):") {
        return None;
    }
    proof {
        reveal_strlit("):");
    }
    let v = text::chars_of(&t);
    let body_chars = &v[0..v.len() - 2];
    assert(body_chars@ =~= t@.take(t@.len() - 2));
    let body = text::string_of(body_chars);
    match text::cut_once(&body, " (") {
        None => None,
        Some((table, rest)) => match text::rcut_once(&rest, ", ") {
            None => None,
            Some((meta, purpose)) => Some(
                (text::trimmed(&table), text::trimmed(&meta), text::trimmed(&purpose)),
            ),
        },
    }
}

/// The SQL name of a column and the attribute it stores.
pub fn parse_field_line(line: &str) -> (r: Option<(String, String)>)
    ensures
        text::pair_view(r) == field(line@),
{
    let t = text::trimmed(line);
    match text::cut_once(&t, " = ") {
        None => None,
        Some((left, rest)) => {
            let sql = text::trimmed(&left);
            if !text::starts_with(&sql, "_") {
                return None;
            }
            let meta = match text::rcut_once(&rest, " [") {
                Some((head, tail)) => if text::ends_with(&tail, "]") {
                    text::trimmed(&head)
                } else {
                    text::trimmed(&rest)
                },
                None => text::trimmed(&rest),
            };
            if meta.as_str().is_empty() {
                None
            } else {
                Some((sql, meta))
            }
        },
    }
}

/// The columns of the lines from `from` up to the next header.
fn parse_block(lines: &Vec<String>, from: usize) -> (r: Vec<(String, String)>)
    requires
        from <= lines@.len(),
    ensures
        columns_view(r@) == block(text::views(lines@).skip(from as int)),
{
    let mut out: Vec<(String, String)> = Vec::new();
    let mut i: usize = from;
    let ghost all = text::views(lines@);
    assert(columns_view(out@) + block(all.skip(from as int)) =~= block(all.skip(from as int)));
    while i < lines.len()
        invariant
            from <= i <= lines@.len(),
            all == text::views(lines@),
            columns_view(out@) + block(all.skip(i as int)) == block(all.skip(from as int)),
        decreases lines.len() - i,
    {
        let ghost rest = all.skip(i as int);
        let ghost before = out@;
        if parse_table_header(&lines[i]).is_some() {
            assert(columns_view(out@) + block(rest) =~= columns_view(out@));
            return out;
        }
        assert(rest.skip(1) =~= all.skip(i + 1));
        if let Some(f) = parse_field_line(&lines[i]) {
            out.push(f);
            assert(columns_view(out@) =~= columns_view(before) + seq![(f.0@, f.1@)]);
            assert(columns_view(before) + (seq![(f.0@, f.1@)] + block(all.skip(i + 1)))
                =~= columns_view(out@) + block(all.skip(i + 1)));
        }
        i = i + 1;
    }
    assert(all.skip(i as int) =~= Seq::empty());
    assert(columns_view(out@) + block(all.skip(i as int)) =~= columns_view(out@));
    out
}

/// The column that stores an attribute.
fn find_column(columns: &Vec<(String, String)>, meta: &str) -> (r: Option<String>)
    ensures
        text::opt_view(r) == column(columns_view(columns@), meta@),
{
    let mut n: usize = columns.len();
    let ghost all = columns_view(columns@);
    assert(all.take(n as int) =~= all);
    while n > 0
        invariant
            n <= columns@.len(),
            all == columns_view(columns@),
            column(all.take(n as int), meta@) == column(all, meta@),
        decreases n,
    {
        if text::same(&columns[n - 1].1, meta) {
            return Some(columns[n - 1].0.clone());
        }
        assert(all.take(n as int).drop_last() =~= all.take(n - 1));
        n = n - 1;
    }
    None
}

/// Whether some attribute is stored in the column `sql`.
fn any_stores(columns: &Vec<(String, String)>, sql: &str) -> (r: bool)
    ensures
        r == stores(columns_view(columns@), sql@),
{
    let ghost all = columns_view(columns@);
    for i in 0..columns.len()
        invariant
            all == columns_view(columns@),
            forall|j: int| 0 <= j < i ==> column(all, (#[trigger] all[j]).1) != Some(sql@),
    {
        if let Some(found) = find_column(columns, &columns[i].1) {
            if text::same(&found, sql) {
                assert(column(all, all[i as int].1) == Some(sql@));
                return true;
            }
        }
    }
    false
}

/// What the tool is asked for: the tables of a metadata object.
pub fn table_arguments(target_meta: &str) -> (r: Json)
    ensures
        r@ == Tree::Object(seq![("table"@, Tree::Text(target_meta@))]),
{
    json::object1("table", json::text_json(target_meta))
}

/// The message about a metadata object whose main table is not in the answer.
fn no_block_message(answer: &str, target_meta: &str) -> (r: String)
    ensures
        r@ == no_block_error(answer@, target_meta@),
{
    let mut m = "не найден блок '<таблица> (".to_owned();
    m.append(target_meta);
    m.append(", ");
    m.append(PURPOSE_MAIN);
    m.append(")' в ответе MCP db_table_fields.\nОтвет: ");
    let head = text::first_chars(answer, 300);
    m.append(&head);
    m
}

/// The message about an attribute that no column stores.
fn no_field_message(name: &str, table: &str) -> (r: String)
    ensures
        r@ == no_field_error(name@, table@),
{
    let mut m = "поле '".to_owned();
    m.append(name);
    m.append("' не найдено в таблице ");
    m.append(table);
    m
}

/// The mapping that the columns of a table give.
fn build_mapping(table: String, columns: &Vec<(String, String)>) -> (r: Result<
    StorageMapping,
    String,
>)
    ensures
        mapping_result_view(r) == mapping_of(table@, columns_view(columns@)),
{
    let field_storage = match find_column(columns, META_FIELD_STORAGE) {
        Some(sql) => sql,
        None => {
            return Err(no_field_message(META_FIELD_STORAGE, &table));
        },
    };
    let field_kind = match find_column(columns, META_FIELD_KIND) {
        Some(sql) => sql,
        None => {
            return Err(no_field_message(META_FIELD_KIND, &table));
        },
    };
    let (field_hash, hash_is_binary) = match find_column(columns, META_FIELD_HASH_BSP) {
        Some(sql) => (sql, false),
        None => {
            if !any_stores(columns, SQL_FIELD_HASH_FALLBACK) {
                let mut m = "ни '".to_owned();
                m.append(META_FIELD_HASH_BSP);
                m.append("', ни fallback '");
                m.append(SQL_FIELD_HASH_FALLBACK);
                m.append("' не найдены в таблице ");
                m.append(&table);
                m.append(" — невозможно определить hash-поле");
                return Err(m);
            }
            (SQL_FIELD_HASH_FALLBACK.to_owned(), true)
        },
    };
    Ok(
        StorageMapping {
            table,
            field_storage,
            field_hash,
            field_kind,
            enum_table: String::new(),
            hash_is_binary,
        },
    )
}

/// Finds the main table of `target_meta` in the answer of `db_table_fields`
/// and the columns that the export reads.
pub fn parse_storage_mapping(text: &str, target_meta: &str) -> (r: Result<StorageMapping, String>)
    ensures
        mapping_result_view(r) == mapping(text@, target_meta@),
{
    let lines = text::lines_of(text);
    let ghost all = text::views(lines@);
    let mut found: Option<String> = None;
    let mut i: usize = 0;
    assert(all.skip(0) =~= all);
    while i < lines.len()
        invariant
            i <= lines@.len(),
            all == text::views(lines@),
            all == text::lines(text@),
            target_table(all.skip(i as int), target_meta@, text::opt_view(found)) == target_table(
                all,
                target_meta@,
                None,
            ),
        decreases lines.len() - i,
    {
        let ghost rest = all.skip(i as int);
        assert(rest.skip(1) =~= all.skip(i + 1));
        if let Some((table, meta, purpose)) = parse_table_header(&lines[i]) {
            if text::same(&meta, target_meta) && text::same(&purpose, PURPOSE_MAIN) {
                let columns = parse_block(&lines, i + 1);
                if columns.len() > 0 {
                    return build_mapping(table, &columns);
                }
                found = Some(table);
            }
        }
        i = i + 1;
    }
    match found {
        Some(table) => {
            let columns: Vec<(String, String)> = Vec::new();
            assert(columns_view(columns@) =~= Seq::empty());
            build_mapping(table, &columns)
        },
        None => Err(no_block_message(text, target_meta)),
    }
}

/// Finds the SQL name of the main table of `target_meta` in the answer of
/// `db_table_fields`.
pub fn parse_enum_table(text: &str, target_meta: &str) -> (r: Result<String, String>)
    ensures
        match first_table(text::lines(text@), target_meta@) {
            Some(table) => r matches Ok(t) && t@ == table,
            None => r matches Err(e) && e@ == no_block_error(text@, target_meta@),
        },
{
    let lines = text::lines_of(text);
    let ghost all = text::views(lines@);
    let mut i: usize = 0;
    assert(all.skip(0) =~= all);
    while i < lines.len()
        invariant
            i <= lines@.len(),
            all == text::views(lines@),
            all == text::lines(text@),
            first_table(all.skip(i as int), target_meta@) == first_table(all, target_meta@),
        decreases lines.len() - i,
    {
        assert(all.skip(i as int).skip(1) =~= all.skip(i + 1));
        if let Some((table, meta, purpose)) = parse_table_header(&lines[i]) {
            if text::same(&meta, target_meta) && text::same(&purpose, PURPOSE_MAIN) {
                return Ok(table);
            }
        }
        i = i + 1;
    }
    Err(no_block_message(text, target_meta))
}

/// Where the table of `target` stores an attribute named `КонтрольнаяСумма`,
/// the mapping takes that column as the hash and does not call it binary.
pub proof fn checksum_is_preferred(table: Seq<char>, columns: Seq<(Seq<char>, Seq<char>)>)
    requires
        mapping_of(table, columns) is Ok,
        column(columns, META_FIELD_HASH_BSP@) is Some,
    ensures
        mapping_of(table, columns)->Ok_0.field_hash == column(columns, META_FIELD_HASH_BSP@)->0,
        !mapping_of(table, columns)->Ok_0.hash_is_binary,
{
}

/// Blocks of other tables before the main table of an object do not matter: the
/// tables of its parts, those that register changes, and those of other
/// objects.
pub proof fn other_tables_do_not_matter(
    pre: Seq<Seq<char>>,
    rest: Seq<Seq<char>>,
    target: Seq<char>,
)
    requires
        forall|i: int| 0 <= i < pre.len() ==> !is_target(#[trigger] pre[i], target),
    ensures
        target_table(pre + rest, target, None) == target_table(rest, target, None),
        first_table(pre + rest, target) == first_table(rest, target),
    decreases pre.len(),
{
    if pre.len() == 0 {
        assert(pre + rest =~= rest);
    } else {
        assert((pre + rest)[0] == pre[0]);
        assert((pre + rest).skip(1) =~= pre.skip(1) + rest);
        assert forall|i: int| 0 <= i < pre.skip(1).len() implies !is_target(
            #[trigger] pre.skip(1)[i],
            target,
        ) by {
            assert(pre.skip(1)[i] == pre[i + 1]);
        }
        other_tables_do_not_matter(pre.skip(1), rest, target);
    }
}

proof fn lemma_block_ends(body: Seq<Seq<char>>, rest: Seq<Seq<char>>)
    requires
        forall|i: int| 0 <= i < body.len() ==> header(#[trigger] body[i]) is None,
        rest.len() > 0 ==> header(rest[0]) is Some,
    ensures
        block(body + rest) == block(body),
    decreases body.len(),
{
    let lines = body + rest;
    if body.len() == 0 {
        assert(lines =~= rest);
    } else {
        assert(lines[0] == body[0]);
        assert(lines.skip(1) =~= body.skip(1) + rest);
        assert forall|i: int| 0 <= i < body.skip(1).len() implies header(
            #[trigger] body.skip(1)[i],
        ) is None by {
            assert(body.skip(1)[i] == body[i + 1]);
        }
        lemma_block_ends(body.skip(1), rest);
    }
}

/// Nor do the blocks behind it: the first main table of an object that lists
/// columns is what the answer says of the object, whatever stands around it.
pub proof fn later_tables_do_not_matter(
    pre: Seq<Seq<char>>,
    opening: Seq<char>,
    body: Seq<Seq<char>>,
    rest: Seq<Seq<char>>,
    target: Seq<char>,
)
    requires
        forall|i: int| 0 <= i < pre.len() ==> !is_target(#[trigger] pre[i], target),
        is_target(opening, target),
        forall|i: int| 0 <= i < body.len() ==> header(#[trigger] body[i]) is None,
        block(body).len() > 0,
        rest.len() > 0 ==> header(rest[0]) is Some,
    ensures
        target_table(pre + (seq![opening] + body + rest), target, None) == Some(
            (header(opening)->0.table, block(body)),
        ),
        first_table(pre + (seq![opening] + body + rest), target) == Some(
            header(opening)->0.table,
        ),
{
    let lines = seq![opening] + body + rest;
    other_tables_do_not_matter(pre, lines, target);
    assert(lines[0] == opening);
    assert(lines.skip(1) =~= body + rest);
    lemma_block_ends(body, rest);
}

/// The heading of a table is read as it is written: the table, and in brackets
/// the object and the purpose.
#[verifier::rlimit(40)]
pub proof fn written_heading_is_read(table: Seq<char>, meta: Seq<char>, purpose: Seq<char>)
    requires
        table.len() > 0 && !text::is_space(table[0]) && !text::is_space(table.last()),
        !table.contains('('),
        meta.len() > 0 && !text::is_space(meta[0]) && !text::is_space(meta.last()),
        purpose.len() > 0 && !text::is_space(purpose[0]) && !text::is_space(purpose.last()),
        !purpose.contains(','),
    ensures
        header(table + " ("@ + meta + ", "@ + purpose + "):"@) == Some(
            Header { table, meta, purpose },
        ),
        is_target(table + " ("@ + meta + ", "@ + purpose + "):"@, meta) <==> purpose == "Основная"@,
{
    reveal_strlit(" (");
    reveal_strlit(", ");
    reveal_strlit("):");
    let line = table + " ("@ + meta + ", "@ + purpose + "):"@;
    let n = table.len() as int;
    text::blanks_are_white_space(':');
    assert(line[0] == table[0]);
    assert(line.last() == ':');
    text::lemma_trim_id(line);
    assert(line.skip(line.len() - 2) =~= "):"@);
    let body = line.take(line.len() - 2);
    let rest = meta + ", "@ + purpose;
    assert(body =~= table + " ("@ + rest);
    assert(body.subrange(n, n + 2) =~= " ("@);
    assert forall|j: int| 0 <= j < n implies !#[trigger] text::occurs_at(body, " ("@, j) by {
        if text::occurs_at(body, " ("@, j) {
            assert(body.subrange(j, j + 2)[1] == body[j + 1]);
            if j + 1 < n {
                assert(table[j + 1] == '(');
                assert(table.contains('('));
            }
        }
    }
    text::lemma_found(body, " ("@, n);
    assert(body.take(n) =~= table);
    assert(body.skip(n + 2) =~= rest);
    let k = meta.len() as int;
    assert(rest.subrange(k, k + 2) =~= ", "@);
    assert forall|j: int| k < j implies !#[trigger] text::occurs_at(rest, ", "@, j) by {
        if text::occurs_at(rest, ", "@, j) {
            assert(rest.subrange(j, j + 2)[0] == rest[j]);
            if j >= k + 2 {
                assert(purpose[j - k - 2] == ',');
                assert(purpose.contains(','));
            }
        }
    }
    text::last_place_is_found(rest, ", "@, k);
    assert(rest.take(k) =~= meta);
    assert(rest.skip(k + 2) =~= purpose);
    text::lemma_trim_id(table);
    text::lemma_trim_id(meta);
    text::lemma_trim_id(purpose);
}

/// A column is read as it is written: its name in the database, the attribute,
/// and in square brackets a category, which does not count.
#[verifier::rlimit(40)]
pub proof fn written_column_is_read(sql: Seq<char>, meta: Seq<char>, category: Seq<char>)
    requires
        sql.len() > 0 && sql[0] == '_' && !text::is_space(sql.last()),
        !sql.contains('='),
        meta.len() > 0 && !text::is_space(meta[0]) && !text::is_space(meta.last()),
        !meta.contains('['),
        !category.contains('['),
    ensures
        field(sql + " = "@ + meta + " ["@ + category + "]"@) == Some((sql, meta)),
        field(sql + " = "@ + meta) == Some((sql, meta)),
{
    reveal_strlit(" = ");
    reveal_strlit(" [");
    reveal_strlit("]");
    reveal_strlit("_");
    text::blanks_are_white_space('_');
    text::blanks_are_white_space(']');
    let none = Seq::<char>::empty();
    let long = meta + " ["@ + category + "]"@;
    lemma_column_line(sql, long);
    lemma_column_line(sql, meta);
    assert(sql + " = "@ + meta + " ["@ + category + "]"@ =~= sql + " = "@ + long);
    let k = meta.len() as int;
    assert(long.subrange(k, k + 2) =~= " ["@);
    assert forall|j: int| k < j implies !#[trigger] text::occurs_at(long, " ["@, j) by {
        if text::occurs_at(long, " ["@, j) {
            assert(long.subrange(j, j + 2)[1] == long[j + 1]);
            if j + 1 >= k + 2 && j + 1 < k + 2 + category.len() {
                assert(category[j + 1 - k - 2] == '[');
                assert(category.contains('['));
            }
        }
    }
    text::last_place_is_found(long, " ["@, k);
    assert(long.take(k) =~= meta);
    assert(long.skip(k + 2) =~= category + "]"@);
    let tail = category + "]"@;
    assert(tail.skip(tail.len() - 1) =~= "]"@);
    assert forall|j: int| -1 < j implies !#[trigger] text::occurs_at(meta, " ["@, j) by {
        if text::occurs_at(meta, " ["@, j) {
            assert(meta.subrange(j, j + 2)[1] == meta[j + 1]);
            assert(meta.contains('['));
        }
    }
    text::last_place_is_found(meta, " ["@, -1);
    text::lemma_trim_id(meta);
    text::lemma_trim_id(sql);
    assert(sql.take(1) =~= "_"@);
}

proof fn lemma_column_line(sql: Seq<char>, rest: Seq<char>)
    requires
        sql.len() > 0 && sql[0] == '_' && !text::is_space(sql.last()),
        !sql.contains('='),
        rest.len() > 0 && !text::is_space(rest.last()),
    ensures
        text::split_once(text::trim(sql + " = "@ + rest), " = "@) == Some((sql, rest)),
{
    reveal_strlit(" = ");
    let line = sql + " = "@ + rest;
    let n = sql.len() as int;
    text::blanks_are_white_space('_');
    assert(line[0] == '_');
    assert(line.last() == rest.last());
    text::lemma_trim_id(line);
    assert(line.subrange(n, n + 3) =~= " = "@);
    assert forall|j: int| 0 <= j < n implies !#[trigger] text::occurs_at(line, " = "@, j) by {
        if text::occurs_at(line, " = "@, j) {
            assert(line.subrange(j, j + 3)[1] == line[j + 1]);
            if j + 1 < n {
                assert(sql[j + 1] == '=');
                assert(sql.contains('='));
            }
        }
    }
    text::lemma_found(line, " = "@, n);
    assert(line.take(n) =~= sql);
    assert(line.skip(n + 3) =~= rest);
}

/// The column of an attribute is one that is listed for it, the last one, and an
/// attribute that is listed has one.
pub proof fn columns_are_those_of_their_attribute(
    columns: Seq<(Seq<char>, Seq<char>)>,
    meta: Seq<char>,
)
    ensures
        match column(columns, meta) {
            Some(sql) => exists|i: int|
                0 <= i < columns.len() && (#[trigger] columns[i]).1 == meta && columns[i].0 == sql
                    && (forall|j: int| i < j < columns.len() ==> (#[trigger] columns[j]).1 != meta),
            None => forall|i: int| 0 <= i < columns.len() ==> (#[trigger] columns[i]).1 != meta,
        },
    decreases columns.len(),
{
    if columns.len() > 0 {
        let n = columns.len() - 1;
        let rest = columns.drop_last();
        if columns[n].1 == meta {
            assert(columns[n].0 == column(columns, meta)->0);
        } else {
            columns_are_those_of_their_attribute(rest, meta);
            if let Some(sql) = column(rest, meta) {
                let i = choose|i: int|
                    0 <= i < rest.len() && (#[trigger] rest[i]).1 == meta && rest[i].0 == sql && (
                    forall|j: int| i < j < rest.len() ==> (#[trigger] rest[j]).1 != meta);
                assert(columns[i] == rest[i]);
                assert forall|j: int| i < j < columns.len() implies (#[trigger] columns[j]).1
                    != meta by {
                    if j < n {
                        assert(rest[j].1 != meta);
                    }
                }
            } else {
                assert forall|i: int| 0 <= i < columns.len() implies (#[trigger] columns[i]).1
                    != meta by {
                    if i < n {
                        assert(rest[i].1 != meta);
                    }
                }
            }
        }
    }
}

/// A mapping takes the columns of the contents, of the kind and of the checksum;
/// only a table without a checksum is compared by the version of its rows, which
/// is binary, and only where it stores that. Without contents, kind or hash there
/// is no mapping.
pub proof fn mapping_takes_the_columns_of_its_attributes(
    table: Seq<char>,
    columns: Seq<(Seq<char>, Seq<char>)>,
)
    ensures
        match mapping_of(table, columns) {
            Ok(m) => {
                &&& m.table == table
                &&& column(columns, "ХранилищеОбработки"@) == Some(m.field_storage)
                &&& column(columns, "Вид"@) == Some(m.field_kind)
                &&& m.enum_table.len() == 0
                &&& match column(columns, "КонтрольнаяСумма"@) {
                    Some(c) => m.field_hash == c && !m.hash_is_binary,
                    None => m.field_hash == "_Version"@ && m.hash_is_binary && exists|i: int|
                        0 <= i < columns.len() && (#[trigger] columns[i]).0 == "_Version"@,
                }
            },
            Err(_) => {
                ||| column(columns, "ХранилищеОбработки"@) is None
                ||| column(columns, "Вид"@) is None
                ||| column(columns, "КонтрольнаяСумма"@) is None && !stores(columns, "_Version"@)
            },
        },
{
    if mapping_of(table, columns) is Ok && column(columns, "КонтрольнаяСумма"@) is None {
        let i = choose|i: int|
            0 <= i < columns.len() && column(columns, (#[trigger] columns[i]).1) == Some(
                "_Version"@,
            );
        columns_are_those_of_their_attribute(columns, columns[i].1);
        let k = choose|k: int|
            0 <= k < columns.len() && (#[trigger] columns[k]).1 == columns[i].1 && columns[k].0
                == "_Version"@;
        assert(columns[k].0 == "_Version"@);
    }
}

/// The columns of a block are the lines that name one, up to the next heading.
pub proof fn block_lists_its_columns(
    line: Seq<char>,
    rest: Seq<Seq<char>>,
)
    ensures
        header(line) is Some ==> block(seq![line] + rest).len() == 0,
        header(line) is None && field(line) is Some ==> block(seq![line] + rest) == seq![
            field(line)->0,
        ] + block(rest),
        header(line) is None && field(line) is None ==> block(seq![line] + rest) == block(rest),
{
    assert((seq![line] + rest).skip(1) =~= rest);
}

/// What is missing in an answer is named.
pub proof fn missing_columns_are_named(
    text: Seq<char>,
    target: Seq<char>,
    table: Seq<char>,
    columns: Seq<(Seq<char>, Seq<char>)>,
)
    ensures
        target_table(text::lines(text), target, None) is None ==> mapping(text, target) == (Err::<
            MappingView,
            Seq<char>,
        >(
            "не найден блок '<таблица> ("@ + target + ", "@ + "Основная"@
                + ")' в ответе MCP db_table_fields.\nОтвет: "@ + text::first(text, 300),
        )),
        target_table(text::lines(text), target, None) == Some((table, columns)) ==> mapping(
            text,
            target,
        ) == mapping_of(table, columns),
        column(columns, "ХранилищеОбработки"@) is None ==> mapping_of(table, columns) == (Err::<
            MappingView,
            Seq<char>,
        >("поле '"@ + "ХранилищеОбработки"@ + "' не найдено в таблице "@ + table)),
        column(columns, "ХранилищеОбработки"@) is Some && column(columns, "Вид"@) is None
            ==> mapping_of(table, columns) == (Err::<MappingView, Seq<char>>(
            "поле '"@ + "Вид"@ + "' не найдено в таблице "@ + table,
        )),
{
}

/// A mapping and columns are what they say.
pub proof fn mapping_is_taken_as_it_is(m: StorageMapping, v: Seq<(String, String)>, i: int)
    ensures
        m@.table == m.table@ && m@.field_storage == m.field_storage@ && m@.field_hash
            == m.field_hash@ && m@.field_kind == m.field_kind@ && m@.enum_table == m.enum_table@
            && m@.hash_is_binary == m.hash_is_binary,
        columns_view(v).len() == v.len(),
        0 <= i < v.len() ==> columns_view(v)[i] == (v[i].0@, v[i].1@),
        mapping_result_view(Ok(m)) == (Ok::<MappingView, Seq<char>>(m@)),
{
}

/// Nothing else is taken for a heading or for a column: a heading ends with a
/// closed bracket and a colon and has an object and a purpose in brackets, a
/// column has a name of the database and an attribute with a sign between them.
pub proof fn other_lines_are_neither_heading_nor_column(line: Seq<char>)
    ensures
        header(line) is Some ==> text::ends(text::trim(line), "):"@) && text::has(
            text::trim(line),
            " ("@,
        ),
        field(line) matches Some((sql, meta)) ==> sql.len() > 0 && sql[0] == '_' && meta.len() > 0
            && text::has(text::trim(line), " = "@),
{
    let t = text::trim(line);
    reveal_strlit("_");
    if header(line) is Some {
        let body = t.take(t.len() - "):"@.len());
        let p = " ("@;
        text::first_place_is_found(body, p);
        text::first_place_is_found(t, p);
        let k = text::find(body, p)->0;
        assert(t.subrange(k, k + p.len()) =~= body.subrange(k, k + p.len()));
    }
    if let Some((sql, meta)) = field(line) {
        assert(sql.take(1)[0] == sql[0]);
    }
}

} // verus!
