//! SQL names of the catalogue of processors, found in the service tables of
//! the database.
//!
//! The record `DBNames` maps identifiers of metadata objects to the numbers in
//! the names of their tables and columns, in entries such as
//! `{<identifier>,"Reference",181}`. The description of an object, found under
//! its identifier, holds the names of its attributes in quotes, and the
//! identifier of an attribute stands before its name.

use vstd::prelude::*;
use vstd::string::StringSliceAdditionalSpecFns;
use vstd::utf8::encode_utf8;

use crate::codec;
use crate::processings::StorageMapping;
use crate::storage_mapping::MappingView;
use crate::strmap::StrMap;
use crate::text;

verus! {

pub const META_FIELD_STORAGE: &'static str = "ХранилищеОбработки";

pub const META_FIELD_KIND: &'static str = "Вид";

pub const META_FIELD_HASH_BSP: &'static str = "КонтрольнаяСумма";

pub const SQL_FIELD_HASH_FALLBACK: &'static str = "_Version";

/// The enumeration of the kinds of processors.
pub const META_ENUM_KINDS: &'static str = "ВидыДополнительныхОтчетовИОбработок";

/// How many characters before the name of an attribute are searched for its
/// identifier.
pub const UUID_LOOKBEHIND_CHARS: usize = 900;

/// How many descriptions one query asks for.
pub const CONFIG_BATCH: usize = 40;

/// What kind of object an entry of `DBNames` is about.
#[derive(Debug, Clone, Copy, PartialEq, Eq, Structural)]
pub enum NameKind {
    Reference,
    Fld,
    Enum,
}

/// The map of names: identifiers in lower case and the numbers of their tables
/// or columns.
#[derive(Debug)]
pub struct DbNames {
    /// The catalogues, in the order of the record.
    pub reference: Vec<(String, u32)>,
    /// The enumerations, in the order of the record.
    pub enums: Vec<(String, u32)>,
    /// The attributes.
    pub fld: StrMap<u32>,
}

/// An entry of `DBNames`.
pub struct NameEntry {
    pub uuid: Seq<char>,
    pub kind: NameKind,
    pub number: nat,
}

// Entries.

/// How an entry goes on behind its identifier, up to its number.
pub open spec fn kind_text(kind: NameKind) -> Seq<char> {
    match kind {
        NameKind::Reference => ",\"Reference\","@,
        NameKind::Fld => ",\"Fld\","@,
        NameKind::Enum => ",\"Enum\","@,
    }
}

/// What kind of entry goes on with `s` behind its identifier.
pub open spec fn kind_at(s: Seq<char>) -> Option<NameKind> {
    if text::starts(s, kind_text(NameKind::Reference)) {
        Some(NameKind::Reference)
    } else if text::starts(s, kind_text(NameKind::Fld)) {
        Some(NameKind::Fld)
    } else if text::starts(s, kind_text(NameKind::Enum)) {
        Some(NameKind::Enum)
    } else {
        None
    }
}

/// The number of decimal digits with which `s` begins.
pub open spec fn digit_count(s: Seq<char>) -> int
    decreases s.len(),
{
    if s.len() > 0 && text::is_digit(s[0]) {
        1 + digit_count(s.skip(1))
    } else {
        0
    }
}

/// The entry with which `s` begins, and its length.
pub open spec fn entry_at(s: Seq<char>) -> Option<(NameEntry, int)> {
    if s.len() < 37 || s[0] != '{' || !text::is_uuid(s.subrange(1, 37)) {
        None
    } else {
        match kind_at(s.skip(37)) {
            None => None,
            Some(kind) => {
                let start = 37 + kind_text(kind).len();
                let n = digit_count(s.skip(start as int));
                let end = start + n;
                if n > 0 && end < s.len() && s[end] == '}' {
                    Some(
                        (
                            NameEntry {
                                uuid: text::lowered(s.subrange(1, 37)),
                                kind,
                                number: text::dec_value(s.subrange(start as int, end)),
                            },
                            end + 1,
                        ),
                    )
                } else {
                    None
                }
            },
        }
    }
}

/// The entries of a text in their order; those whose number does not fit in
/// 32 bits are passed over.
pub open spec fn entries(s: Seq<char>) -> Seq<NameEntry>
    decreases s.len(),
{
    if s.len() == 0 {
        Seq::empty()
    } else {
        match entry_at(s) {
            Some((e, n)) => if 0 < n <= s.len() {
                if e.number <= u32::MAX {
                    seq![e] + entries(s.skip(n))
                } else {
                    entries(s.skip(n))
                }
            } else {
                Seq::empty()
            },
            None => entries(s.skip(1)),
        }
    }
}

/// The identifiers and numbers of the entries of one kind, in their order.
pub open spec fn of_kind(es: Seq<NameEntry>, kind: NameKind) -> Seq<(Seq<char>, nat)>
    decreases es.len(),
{
    if es.len() == 0 {
        Seq::empty()
    } else if es.last().kind == kind {
        of_kind(es.drop_last(), kind).push((es.last().uuid, es.last().number))
    } else {
        of_kind(es.drop_last(), kind)
    }
}

/// The numbers of the attributes by their identifiers; the last entry of an
/// identifier counts.
pub open spec fn field_numbers(es: Seq<NameEntry>) -> Map<Seq<char>, u32>
    decreases es.len(),
{
    if es.len() == 0 {
        Map::empty()
    } else if es.last().kind == NameKind::Fld {
        field_numbers(es.drop_last()).insert(es.last().uuid, es.last().number as u32)
    } else {
        field_numbers(es.drop_last())
    }
}

/// Identifiers and numbers, by their views.
pub open spec fn number_views(v: Seq<(String, u32)>) -> Seq<(Seq<char>, nat)> {
    v.map_values(|p: (String, u32)| (p.0@, p.1 as nat))
}

fn count_digits(v: &[char]) -> (n: usize)
    ensures
        n == digit_count(v@),
        n <= v@.len(),
        forall|i: int| 0 <= i < n ==> text::is_digit(#[trigger] v@[i]),
{
    let mut n: usize = 0;
    assert(v@.skip(0) =~= v@);
    while n < v.len() && '0' <= v[n] && v[n] <= '9'
        invariant
            n <= v@.len(),
            n + digit_count(v@.skip(n as int)) == digit_count(v@),
            forall|i: int| 0 <= i < n ==> text::is_digit(#[trigger] v@[i]),
        decreases v.len() - n,
    {
        assert(v@.skip(n as int).skip(1) =~= v@.skip(n + 1));
        n = n + 1;
    }
    n
}

/// What kind of entry goes on with `v` behind its identifier, and how long
/// that part is.
fn find_kind(v: &[char]) -> (r: Option<(NameKind, usize)>)
    ensures
        match (r, kind_at(v@)) {
            (Some((k, n)), Some(kind)) => k == kind && n == kind_text(kind).len() && n <= v@.len(),
            (None, None) => true,
            _ => false,
        },
{
    let reference = text::chars_of(",\"Reference\",");
    if text::starts_chars(v, &reference) {
        return Some((NameKind::Reference, reference.len()));
    }
    let fld = text::chars_of(",\"Fld\",");
    if text::starts_chars(v, &fld) {
        return Some((NameKind::Fld, fld.len()));
    }
    let enums = text::chars_of(",\"Enum\",");
    if text::starts_chars(v, &enums) {
        return Some((NameKind::Enum, enums.len()));
    }
    None
}

/// An entry as it is read: its identifier, its kind and, where it fits, its
/// number.
struct ReadEntry {
    uuid: String,
    kind: NameKind,
    number: Option<u32>,
    len: usize,
}

/// The entry with which `v` begins.
fn read_entry(v: &[char]) -> (r: Option<ReadEntry>)
    ensures
        match (r, entry_at(v@)) {
            (Some(x), Some((e, n))) => x.uuid@ == e.uuid && x.kind == e.kind && x.len == n && 0 < n
                <= v@.len() && match x.number {
                Some(k) => e.number == k,
                None => e.number > u32::MAX,
            },
            (None, None) => true,
            _ => false,
        },
{
    let len: usize = v.len();
    if len < 37 || v[0] != '{' {
        return None;
    }
    let id = &v[1..37];
    if !text::uuid_chars(id) {
        return None;
    }
    let rest = &v[37..len];
    assert(rest@ =~= v@.skip(37));
    match find_kind(rest) {
        None => None,
        Some((kind, kind_len)) => {
            let start: usize = 37 + kind_len;
            let tail = &v[start..len];
            assert(tail@ =~= v@.skip(start as int));
            let n = count_digits(tail);
            let end: usize = start + n;
            if n > 0 && end < len && v[end] == '}' {
                let digits = &v[start..end];
                assert forall|i: int| 0 <= i < digits@.len() implies text::is_digit(
                    #[trigger] digits@[i],
                ) by {
                    assert(digits@[i] == tail@[i]);
                }
                Some(
                    ReadEntry {
                        uuid: text::to_lowered(id),
                        kind,
                        number: text::parse_dec(digits),
                        len: end + 1,
                    },
                )
            } else {
                None
            }
        },
    }
}

impl DbNames {
    /// The map holds these entries.
    pub open spec fn holds(&self, es: Seq<NameEntry>) -> bool {
        &&& number_views(self.reference@) == of_kind(es, NameKind::Reference)
        &&& number_views(self.enums@) == of_kind(es, NameKind::Enum)
        &&& self.fld@ == field_numbers(es)
    }
}

/// Adds an entry to a map of names.
fn put_entry(names: &mut DbNames, uuid: String, kind: NameKind, number: u32, es: Ghost<Seq<NameEntry>>)
    requires
        old(names).holds(es@),
    ensures
        final(names).holds(es@.push(NameEntry { uuid: uuid@, kind, number: number as nat })),
{
    let ghost e = NameEntry { uuid: uuid@, kind, number: number as nat };
    let ghost all = es@.push(e);
    assert(all.drop_last() =~= es@);
    match kind {
        NameKind::Reference => {
            let ghost before = names.reference@;
            names.reference.push((uuid, number));
            assert(number_views(names.reference@) =~= number_views(before).push(
                (uuid@, number as nat),
            ));
        },
        NameKind::Enum => {
            let ghost before = names.enums@;
            names.enums.push((uuid, number));
            assert(number_views(names.enums@) =~= number_views(before).push(
                (uuid@, number as nat),
            ));
        },
        NameKind::Fld => {
            names.fld.insert(uuid, number);
        },
    }
}

/// Reads the record `DBNames`.
pub fn parse_dbnames(text: &str) -> (r: DbNames)
    ensures
        r.holds(entries(text@)),
{
    let v = text::chars_of(text);
    let mut names = DbNames { reference: Vec::new(), enums: Vec::new(), fld: StrMap::new() };
    let ghost mut es: Seq<NameEntry> = Seq::empty();
    let mut i: usize = 0;
    let len: usize = v.len();
    assert(number_views(names.reference@) =~= Seq::empty());
    assert(number_views(names.enums@) =~= Seq::empty());
    assert(v@.skip(0) =~= text@);
    assert(es + entries(text@) =~= entries(text@));
    while i < len
        invariant
            v@ == text@,
            len == v@.len(),
            i <= len,
            names.holds(es),
            es + entries(text@.skip(i as int)) == entries(text@),
        decreases len - i,
    {
        let ghost rest = text@.skip(i as int);
        let tail = &v[i..len];
        assert(tail@ =~= rest);
        match read_entry(tail) {
            Some(e) => {
                assert(rest.skip(e.len as int) =~= text@.skip(i + e.len));
                if let Some(number) = e.number {
                    let ghost one = NameEntry {
                        uuid: e.uuid@,
                        kind: e.kind,
                        number: number as nat,
                    };
                    put_entry(&mut names, e.uuid, e.kind, number, Ghost(es));
                    assert(es + (seq![one] + entries(text@.skip(i + e.len))) =~= es.push(one)
                        + entries(text@.skip(i + e.len)));
                    proof {
                        es = es.push(one);
                    }
                }
                i = i + e.len;
            },
            None => {
                assert(rest.skip(1) =~= text@.skip(i + 1));
                i = i + 1;
            },
        }
    }
    assert(text@.skip(i as int) =~= Seq::empty());
    assert(es + entries(text@.skip(i as int)) =~= es);
    names
}

// Descriptions.

/// A name in quotes.
pub open spec fn in_quotes(name: Seq<char>) -> Seq<char> {
    "\""@ + name + "\""@
}

/// A name in quotes.
fn quoted_name(name: &str) -> (r: String)
    ensures
        r@ == in_quotes(name@),
{
    let mut q = "\"".to_owned();
    q.append(name);
    q.append("\"");
    q
}

/// Whether a description is that of the object with the given name: it holds
/// the name in quotes.
pub fn describes_object(desc: &str, short_name: &str) -> (r: bool)
    ensures
        r == text::has(desc@, in_quotes(short_name@)),
{
    let q = quoted_name(short_name);
    text::contains(desc, &q)
}

/// The identifiers in a text, from the left and without overlap.
pub open spec fn uuids(s: Seq<char>) -> Seq<Seq<char>>
    decreases s.len(),
{
    if s.len() < 36 {
        Seq::empty()
    } else if text::is_uuid(s.take(36)) {
        seq![s.take(36)] + uuids(s.skip(36))
    } else {
        uuids(s.skip(1))
    }
}

/// The number of the last identifier in a list that the map knows.
pub open spec fn last_known(ids: Seq<Seq<char>>, fld: Map<Seq<char>, u32>) -> Option<u32>
    decreases ids.len(),
{
    if ids.len() == 0 {
        None
    } else if fld.dom().contains(text::lowered(ids.last())) {
        Some(fld[text::lowered(ids.last())])
    } else {
        last_known(ids.drop_last(), fld)
    }
}

/// The number of an attribute: that of the last known identifier before the
/// first place at which its name stands in quotes.
pub open spec fn field_number(
    desc: Seq<char>,
    field: Seq<char>,
    fld: Map<Seq<char>, u32>,
) -> Option<u32> {
    match text::find(desc, in_quotes(field)) {
        None => None,
        Some(pos) => last_known(
            uuids(text::last_part(desc.take(pos), UUID_LOOKBEHIND_CHARS as int)),
            fld,
        ),
    }
}

/// The number of the last known identifier in a text.
fn last_known_number(v: &[char], fld: &StrMap<u32>) -> (r: Option<u32>)
    ensures
        r == last_known(uuids(v@), fld@),
{
    let len: usize = v.len();
    let mut found: Option<u32> = None;
    let ghost mut seen: Seq<Seq<char>> = Seq::empty();
    let mut i: usize = 0;
    assert(v@.skip(0) =~= v@);
    assert(seen + uuids(v@) =~= uuids(v@));
    while i < len && 36 <= len - i
        invariant
            len == v@.len(),
            i <= len,
            found == last_known(seen, fld@),
            seen + uuids(v@.skip(i as int)) == uuids(v@),
        decreases len - i,
    {
        let ghost rest = v@.skip(i as int);
        let id = &v[i..i + 36];
        assert(id@ =~= rest.take(36));
        if text::uuid_chars(id) {
            let lower = text::to_lowered(id);
            assert(seen.push(id@).drop_last() =~= seen);
            if let Some(n) = fld.get(&lower) {
                found = Some(*n);
            }
            assert(rest.skip(36) =~= v@.skip(i + 36));
            assert(seen + (seq![id@] + uuids(v@.skip(i + 36))) =~= seen.push(id@) + uuids(
                v@.skip(i + 36),
            ));
            proof {
                seen = seen.push(id@);
            }
            i = i + 36;
        } else {
            assert(rest.skip(1) =~= v@.skip(i + 1));
            i = i + 1;
        }
    }
    assert(uuids(v@.skip(i as int)) =~= Seq::empty());
    assert(seen + uuids(v@.skip(i as int)) =~= seen);
    found
}

/// The number of an attribute in the description of an object.
pub fn find_field_number(desc: &str, field: &str, fld: &StrMap<u32>) -> (r: Option<u32>)
    ensures
        r == field_number(desc@, field@, fld@),
{
    let v = text::chars_of(desc);
    let name = text::chars_of(&quoted_name(field));
    match text::find_chars(&v, &name, 0) {
        None => None,
        Some(pos) => {
            let head = &v[0..pos];
            assert(head@ =~= desc@.take(pos as int));
            last_known_number(text::last_chars(head, UUID_LOOKBEHIND_CHARS), fld)
        },
    }
}

/// Text encoded in two parts is the text encoded as a whole.
proof fn lemma_encode_split(a: Seq<char>, b: Seq<char>)
    ensures
        encode_utf8(a + b) == encode_utf8(a) + encode_utf8(b),
    decreases a.len(),
{
    if a.len() == 0 {
        assert(a + b =~= b);
        assert(encode_utf8(a) + encode_utf8(b) =~= encode_utf8(b));
    } else {
        assert((a + b)[0] == a[0]);
        assert((a + b).drop_first() =~= a.drop_first() + b);
        lemma_encode_split(a.drop_first(), b);
        assert(encode_utf8(a + b) =~= encode_utf8(a) + encode_utf8(b));
    }
}

/// The last `chars` characters, or all of them, of what stands before the byte
/// at `pos`, which has to be the first byte of a character.
pub fn window_before(text: &str, pos: usize, chars: usize) -> (r: String)
    requires
        vstd::utf8::is_char_boundary(text.spec_bytes(), pos as int),
    ensures
        forall|k: int|
            0 <= k <= text@.len() && #[trigger] encode_utf8(text@.take(k)).len() == pos ==> r@
                == text::last_part(text@.take(k), chars as int),
{
    let (head, _) = text.split_at(pos);
    let v = text::chars_of(head);
    proof {
        assert forall|k: int|
            0 <= k <= text@.len() && #[trigger] encode_utf8(text@.take(k)).len()
                == pos implies head@ == text@.take(k) by {
            let t = text@.take(k);
            assert(text@ =~= t + text@.skip(k));
            lemma_encode_split(t, text@.skip(k));
            assert(text.spec_bytes().subrange(0, pos as int) =~= encode_utf8(t));
            assert(head.spec_bytes() == encode_utf8(t));
            vstd::utf8::encode_utf8_decode_utf8(t);
            vstd::utf8::encode_utf8_decode_utf8(head@);
        }
    }
    text::string_of(text::last_chars(&v, chars))
}

// Columns.

/// The first column from the place `i` on whose name is the wanted one, up to
/// the case of letters.
pub open spec fn column_like(cols: Seq<Seq<char>>, want: Seq<char>, i: int) -> Option<Seq<char>>
    decreases cols.len() - i,
{
    if i < 0 || i >= cols.len() {
        None
    } else if text::eq_ignore_case(cols[i], want) {
        Some(cols[i])
    } else {
        column_like(cols, want, i + 1)
    }
}

/// The first column whose name is the wanted one, up to the case of letters.
pub fn find_col(cols: &Vec<String>, want: &str) -> (r: Option<String>)
    ensures
        text::opt_view(r) == column_like(text::views(cols@), want@, 0),
{
    let n: usize = cols.len();
    let mut i: usize = 0;
    while i < n
        invariant
            n == cols@.len(),
            i <= n,
            column_like(text::views(cols@), want@, 0) == column_like(
                text::views(cols@),
                want@,
                i as int,
            ),
        decreases n - i,
    {
        if text::same_ignore_case(&cols[i], want) {
            return Some(cols[i].clone());
        }
        i = i + 1;
    }
    None
}

/// The column of an attribute: `_Fld<number>`, or else `_Fld<number>RRef` for
/// a reference; nothing where the table has neither.
pub open spec fn attribute_column(
    desc: Seq<char>,
    field: Seq<char>,
    fld: Map<Seq<char>, u32>,
    cols: Seq<Seq<char>>,
) -> Option<Seq<char>> {
    match field_number(desc, field, fld) {
        None => None,
        Some(n) => {
            let plain = "_Fld"@ + text::dec(n as nat);
            match column_like(cols, plain, 0) {
                Some(c) => Some(c),
                None => column_like(cols, plain + "RRef"@, 0),
            }
        },
    }
}

/// The column of an attribute.
pub fn resolve_column(desc: &str, field: &str, fld: &StrMap<u32>, cols: &Vec<String>) -> (r: Option<
    String,
>)
    ensures
        text::opt_view(r) == attribute_column(desc@, field@, fld@, text::views(cols@)),
{
    match find_field_number(desc, field, fld) {
        None => None,
        Some(n) => {
            let mut plain = "_Fld".to_owned();
            let number = text::dec_of(n as u64);
            plain.append(&number);
            match find_col(cols, &plain) {
                Some(c) => Some(c),
                None => {
                    plain.append("RRef");
                    find_col(cols, &plain)
                },
            }
        },
    }
}

// Blobs.

/// Bytes without the byte order mark of UTF-8.
pub open spec fn without_bom(bytes: Seq<u8>) -> Seq<u8> {
    if bytes.len() >= 3 && bytes[0] == 0xEF && bytes[1] == 0xBB && bytes[2] == 0xBF {
        bytes.skip(3)
    } else {
        bytes
    }
}

/// Bytes without the byte order mark of UTF-8.
pub fn strip_bom(bytes: &[u8]) -> (r: &[u8])
    ensures
        r@ == without_bom(bytes@),
{
    if bytes.len() >= 3 && bytes[0] == 0xEF && bytes[1] == 0xBB && bytes[2] == 0xBF {
        let t = &bytes[3..bytes.len()];
        assert(t@ =~= bytes@.skip(3));
        t
    } else {
        bytes
    }
}

/// The text of a blob: UTF-8 without its byte order mark.
pub fn decode_text(bytes: &[u8]) -> (r: String)
    ensures
        r@ == codec::lossy_utf8(without_bom(bytes@)),
        vstd::utf8::valid_utf8(without_bom(bytes@)) ==> r@ == vstd::utf8::decode_utf8(
            without_bom(bytes@),
        ),
{
    codec::from_utf8_lossy(strip_bom(bytes))
}

/// What a blob inflates to, or the blob itself where it is not compressed.
pub open spec fn inflated_or_plain(
    bytes: Seq<u8>,
    inflated: Result<Seq<u8>, Seq<char>>,
) -> Seq<u8> {
    match inflated {
        Ok(data) => data,
        Err(_) => bytes,
    }
}

/// What a blob inflates to, or the blob itself where it is not compressed.
pub fn try_inflate(bytes: &[u8]) -> (r: Vec<u8>)
    ensures
        r@ == inflated_or_plain(bytes@, codec::inflate(bytes@)),
{
    match codec::inflate_raw(bytes) {
        Ok(data) => data,
        Err(_) => vstd::slice::slice_to_vec(bytes),
    }
}

/// The text of a blob that may be compressed.
pub open spec fn blob_text(bytes: Seq<u8>) -> Seq<char> {
    codec::lossy_utf8(without_bom(inflated_or_plain(bytes, codec::inflate(bytes))))
}

/// The message about a record that could not be read.
pub open spec fn unread_names(
    references: nat,
    fields: nat,
    raw_len: nat,
    text_len: nat,
) -> Seq<char> {
    "карта имён DBNames не разобрана: справочников "@ + text::dec(references)
        + ", реквизитов "@ + text::dec(fields) + " (блоб "@ + text::dec(raw_len)
        + " байт, развёрнутый текст "@ + text::dec(text_len) + " символов)"@
}

/// What is read of `DBNames` from its text: a record without catalogues or
/// without attributes was not understood. `raw_len` is the length of the blob.
pub open spec fn names_error(text: Seq<char>, raw_len: nat) -> Option<Seq<char>> {
    let references = of_kind(entries(text), NameKind::Reference).len();
    let fields = field_numbers(entries(text)).dom().len();
    if references == 0 || fields == 0 {
        Some(unread_names(references, fields, raw_len, text.len()))
    } else {
        None
    }
}

/// Reads `DBNames` from its text; `raw_len` is the length of the blob.
pub fn dbnames_from_text(text: &str, raw_len: usize) -> (r: Result<DbNames, String>)
    ensures
        match names_error(text@, raw_len as nat) {
            Some(m) => r matches Err(e) && e@ == m,
            None => r matches Ok(names) && names.holds(entries(text@)),
        },
{
    let names = parse_dbnames(text);
    let references: usize = names.reference.len();
    let fields: usize = names.fld.len();
    assert(number_views(names.reference@).len() == references);
    if references == 0 || fields == 0 {
        let mut m = "карта имён DBNames не разобрана: справочников ".to_owned();
        let a = text::dec_of(references as u64);
        m.append(&a);
        m.append(", реквизитов ");
        let b = text::dec_of(fields as u64);
        m.append(&b);
        m.append(" (блоб ");
        let c = text::dec_of(raw_len as u64);
        m.append(&c);
        m.append(" байт, развёрнутый текст ");
        let chars = text::chars_of(text);
        let d = text::dec_of(chars.len() as u64);
        m.append(&d);
        m.append(" символов)");
        return Err(m);
    }
    Ok(names)
}

/// Reads `DBNames` from its blob.
pub fn load_dbnames(raw: &[u8]) -> (r: Result<DbNames, String>)
    ensures
        raw@.len() == 0 ==> (r matches Err(e) && e@
            == "в таблице Params нет записи DBNames (пустой блоб)"@),
        raw@.len() > 0 ==> match names_error(blob_text(raw@), raw@.len()) {
            Some(m) => r matches Err(e) && e@ == m,
            None => r matches Ok(names) && names.holds(entries(blob_text(raw@))),
        },
{
    let n: usize = raw.len();
    if n == 0 {
        return Err("в таблице Params нет записи DBNames (пустой блоб)".to_owned());
    }
    let data = try_inflate(raw);
    let text = decode_text(&data);
    dbnames_from_text(&text, n)
}

// Descriptions of objects.

/// The query for the blob of one record of a service table.
pub fn blob_query(table: &str, file_name: &str) -> (r: String)
    ensures
        r@ == "SELECT BinaryData FROM dbo."@ + table@ + " WITH (NOLOCK) WHERE FileName = N'"@
            + file_name@ + "' ORDER BY PartNo"@,
{
    let mut s = "SELECT BinaryData FROM dbo.".to_owned();
    s.append(table);
    s.append(" WITH (NOLOCK) WHERE FileName = N'");
    s.append(file_name);
    s.append("' ORDER BY PartNo");
    s
}

/// Names as the literals of a query.
pub open spec fn name_literals(names: Seq<(Seq<char>, nat)>) -> Seq<Seq<char>> {
    names.map_values(|p: (Seq<char>, nat)| "N'"@ + p.0 + "'"@)
}

/// The query for the descriptions of some objects.
pub fn config_query(names: &[(String, u32)]) -> (r: String)
    ensures
        r@ == config_sql(number_views(names@)),
{
    let ghost all = name_literals(number_views(names@));
    let mut parts: Vec<String> = Vec::new();
    for i in 0..names.len()
        invariant
            all == name_literals(number_views(names@)),
            text::views(parts@) == all.take(i as int),
    {
        let mut one = "N'".to_owned();
        one.append(&names[i].0);
        one.append("'");
        let ghost before = parts@;
        parts.push(one);
        assert(text::views(parts@) =~= text::views(before).push(one@));
        assert(all.take(i + 1) =~= all.take(i as int).push(all[i as int]));
    }
    assert(all.take(names@.len() as int) =~= all);
    let list = text::joined(&parts, ",");
    let mut s =
        "SELECT FileName, BinaryData FROM dbo.Config WITH (NOLOCK) WHERE FileName IN (".to_owned();
    s.append(&list);
    s.append(") ORDER BY FileName, PartNo");
    s
}

/// The query for the columns of a table.
pub fn columns_query(table: &str) -> (r: String)
    ensures
        r@
            == "SELECT c.name FROM sys.columns c JOIN sys.tables t ON t.object_id = c.object_id WHERE t.name = N'"@
            + table@ + "'"@,
{
    let mut s =
        "SELECT c.name FROM sys.columns c JOIN sys.tables t ON t.object_id = c.object_id WHERE t.name = N'".to_owned();
    s.append(table);
    s.append("'");
    s
}

/// The blobs by name, with one more part behind the one of its name.
pub open spec fn with_part(
    blobs: Map<Seq<char>, Seq<u8>>,
    name: Seq<char>,
    part: Seq<u8>,
) -> Map<Seq<char>, Seq<u8>> {
    if blobs.dom().contains(name) {
        blobs.insert(name, blobs[name] + part)
    } else {
        blobs.insert(name, part)
    }
}

/// Blobs by name, by their views.
pub open spec fn blob_views(m: Map<Seq<char>, Vec<u8>>) -> Map<Seq<char>, Seq<u8>> {
    m.map_values(|v: Vec<u8>| v@)
}

/// Puts one more part behind the blob of its name.
pub fn add_part(blobs: &mut StrMap<Vec<u8>>, name: String, part: &Vec<u8>)
    ensures
        blob_views(final(blobs)@) == with_part(blob_views(old(blobs)@), name@, part@),
{
    let ghost start = blobs@;
    let mut whole: Vec<u8> = match blobs.remove(&name) {
        Some(v) => v,
        None => Vec::new(),
    };
    let ghost head = whole@;
    whole.extend_from_slice(part);
    assert(whole@ =~= head + part@);
    let ghost w = whole;
    blobs.insert(name, whole);
    assert(blob_views(start.remove(name@).insert(name@, w)) =~= with_part(
        blob_views(start),
        name@,
        part@,
    ));
}

/// A part of a description, as the query returns it.
pub type PartRow = (Option<String>, Option<Vec<u8>>);

/// The blobs that the rows of a query make up: the parts of a name, which is
/// compared without white space around it and in lower case, follow each
/// other in the order of the rows.
pub open spec fn blobs_of(rows: Seq<PartRow>) -> Map<Seq<char>, Seq<u8>>
    decreases rows.len(),
{
    if rows.len() == 0 {
        Map::empty()
    } else {
        let before = blobs_of(rows.drop_last());
        match rows.last() {
            (Some(name), Some(part)) => with_part(
                before,
                text::lower(text::trim(name@)),
                part@,
            ),
            _ => before,
        }
    }
}

/// The blobs that the rows of a query make up.
pub fn collect_blobs(rows: &Vec<PartRow>) -> (r: StrMap<Vec<u8>>)
    ensures
        blob_views(r@) == blobs_of(rows@),
{
    let mut blobs: StrMap<Vec<u8>> = StrMap::new();
    assert(blob_views(blobs@) =~= Map::empty());
    for i in 0..rows.len()
        invariant
            blob_views(blobs@) == blobs_of(rows@.take(i as int)),
    {
        assert(rows@.take(i + 1).drop_last() =~= rows@.take(i as int));
        match &rows[i] {
            (Some(name), Some(part)) => {
                let key = text::to_lowercase(&text::trimmed(name));
                add_part(&mut blobs, key, part);
            },
            _ => {},
        }
    }
    assert(rows@.take(rows@.len() as int) =~= rows@);
    blobs
}

/// The objects of a list whose descriptions name `short`: their numbers and
/// their descriptions.
pub open spec fn described(
    names: Seq<(Seq<char>, nat)>,
    blobs: Map<Seq<char>, Seq<u8>>,
    short: Seq<char>,
) -> Seq<(nat, Seq<char>)>
    decreases names.len(),
{
    if names.len() == 0 {
        Seq::empty()
    } else {
        let before = described(names.drop_last(), blobs, short);
        let (uuid, number) = names.last();
        if blobs.dom().contains(uuid) && blobs[uuid].len() > 0 && text::has(
            blob_text(blobs[uuid]),
            in_quotes(short),
        ) {
            before.push((number, blob_text(blobs[uuid])))
        } else {
            before
        }
    }
}

/// Numbers and descriptions, by their views.
pub open spec fn candidate_views(v: Seq<(u32, String)>) -> Seq<(nat, Seq<char>)> {
    v.map_values(|p: (u32, String)| (p.0 as nat, p.1@))
}

/// The objects of a list whose descriptions name `short_name`.
pub fn find_object_desc(
    names: &[(String, u32)],
    blobs: &StrMap<Vec<u8>>,
    short_name: &str,
) -> (r: Vec<(u32, String)>)
    ensures
        candidate_views(r@) == described(number_views(names@), blob_views(blobs@), short_name@),
{
    let ghost all = number_views(names@);
    let ghost bytes = blob_views(blobs@);
    let mut out: Vec<(u32, String)> = Vec::new();
    for i in 0..names.len()
        invariant
            all == number_views(names@),
            bytes == blob_views(blobs@),
            candidate_views(out@) == described(all.take(i as int), bytes, short_name@),
    {
        assert(all.take(i + 1).drop_last() =~= all.take(i as int));
        assert(all.take(i + 1).last() == (names@[i as int].0@, names@[i as int].1 as nat));
        if let Some(raw) = blobs.get(&names[i].0) {
            assert(bytes[names@[i as int].0@] == raw@);
            if raw.len() > 0 {
                let data = try_inflate(raw);
                let desc = decode_text(&data);
                if describes_object(&desc, short_name) {
                    let ghost before = out@;
                    out.push((names[i].1, desc));
                    assert(candidate_views(out@) =~= candidate_views(before).push(
                        (names@[i as int].1 as nat, desc@),
                    ));
                }
            }
        }
    }
    assert(all.take(names@.len() as int) =~= all);
    out
}

/// Where a batch of names that begins at `from` ends.
pub open spec fn batch_end(from: int, len: int) -> int {
    if from + CONFIG_BATCH < len {
        from + CONFIG_BATCH
    } else {
        len
    }
}

/// The query for the descriptions of the objects with the given names.
pub open spec fn config_sql(names: Seq<(Seq<char>, nat)>) -> Seq<char> {
    "SELECT FileName, BinaryData FROM dbo.Config WITH (NOLOCK) WHERE FileName IN ("@ + text::join(
        name_literals(names),
        ","@,
    ) + ") ORDER BY FileName, PartNo"@
}

/// The search for the objects whose descriptions name something: the
/// descriptions are asked for in batches, up to the first batch with a hit.
#[derive(Debug)]
pub struct ObjectSearch {
    pub names: Vec<(String, u32)>,
    pub short: String,
    /// How many descriptions were asked for.
    pub asked: usize,
    pub found: Vec<(u32, String)>,
}

impl ObjectSearch {
    /// No more descriptions are asked for than there are.
    pub open spec fn wf(&self) -> bool {
        self.asked <= self.names@.len()
    }

    /// The names of the next batch.
    pub open spec fn next_batch(&self) -> Seq<(String, u32)> {
        self.names@.subrange(
            self.asked as int,
            batch_end(self.asked as int, self.names@.len() as int),
        )
    }

    /// Begins the search.
    pub fn start(names: Vec<(String, u32)>, short: &str) -> (r: ObjectSearch)
        ensures
            r.wf(),
            r.names == names,
            r.short@ == short@,
            r.asked == 0,
            r.found@.len() == 0,
    {
        ObjectSearch { names, short: short.to_owned(), asked: 0, found: Vec::new() }
    }

    /// Where the next batch ends.
    fn end(&self) -> (r: usize)
        requires
            self.wf(),
        ensures
            r == batch_end(self.asked as int, self.names@.len() as int),
            self.asked <= r <= self.names@.len(),
    {
        let n: usize = self.names.len();
        if n - self.asked > CONFIG_BATCH {
            self.asked + CONFIG_BATCH
        } else {
            n
        }
    }

    /// The query for the next batch; none where something was found or all
    /// were asked for.
    pub fn query(&self) -> (r: Option<String>)
        requires
            self.wf(),
        ensures
            match r {
                Some(q) => self.found@.len() == 0 && self.asked < self.names@.len() && q@
                    == config_sql(number_views(self.next_batch())),
                None => self.found@.len() > 0 || self.asked == self.names@.len(),
            },
    {
        if self.found.len() > 0 || self.asked == self.names.len() {
            return None;
        }
        let batch = &self.names[self.asked..self.end()];
        assert(batch@ =~= self.next_batch());
        Some(config_query(batch))
    }

    /// Takes the rows that the query returned.
    pub fn answer(&mut self, rows: &Vec<PartRow>)
        requires
            old(self).wf(),
        ensures
            final(self).wf(),
            final(self).names == old(self).names,
            final(self).short == old(self).short,
            final(self).asked == batch_end(old(self).asked as int, old(self).names@.len() as int),
            candidate_views(final(self).found@) == described(
                number_views(old(self).next_batch()),
                blobs_of(rows@),
                old(self).short@,
            ),
    {
        let end: usize = self.end();
        let blobs = collect_blobs(rows);
        let batch = &self.names[self.asked..end];
        assert(batch@ =~= self.next_batch());
        let found = find_object_desc(batch, &blobs, &self.short);
        self.found = found;
        self.asked = end;
    }
}

// The search.

/// The name of a catalogue without the kind of object before it.
pub open spec fn short_name(meta: Seq<char>) -> Seq<char> {
    text::trim(
        match text::rsplit_once(meta, "."@) {
            Some((_, tail)) => tail,
            None => meta,
        },
    )
}

/// The name of a catalogue without the kind of object before it; an error
/// where nothing is left.
pub fn short_meta_name(meta_name: &str) -> (r: Result<String, String>)
    ensures
        match r {
            Ok(s) => s@ == short_name(meta_name@) && s@.len() > 0,
            Err(e) => short_name(meta_name@).len() == 0 && e@
                == "пустое имя справочника допобработок"@,
        },
{
    let short = match text::rcut_once(meta_name, ".") {
        Some((_, tail)) => text::trimmed(&tail),
        None => text::trimmed(meta_name),
    };
    if short.as_str().is_empty() {
        Err("пустое имя справочника допобработок".to_owned())
    } else {
        Ok(short)
    }
}

/// What a candidate with its columns gives: the mapping, without the table of
/// kinds, or why it is not the one.
pub open spec fn judged(
    number: nat,
    desc: Seq<char>,
    cols: Seq<Seq<char>>,
    fld: Map<Seq<char>, u32>,
) -> Result<MappingView, Seq<char>> {
    let table = "_Reference"@ + text::dec(number);
    let storage = attribute_column(desc, META_FIELD_STORAGE@, fld, cols);
    let kind = attribute_column(desc, META_FIELD_KIND@, fld, cols);
    let checksum = attribute_column(desc, META_FIELD_HASH_BSP@, fld, cols);
    let version = column_like(cols, SQL_FIELD_HASH_FALLBACK@, 0);
    if cols.len() == 0 {
        Err("таблицы "@ + table + " нет в базе"@)
    } else if storage is None {
        Err("в таблице "@ + table + " не опознан реквизит "@ + META_FIELD_STORAGE@)
    } else if kind is None {
        Err("в таблице "@ + table + " не опознан реквизит "@ + META_FIELD_KIND@)
    } else if checksum is None && version is None {
        Err(
            "в таблице "@ + table + " нет ни реквизита "@ + META_FIELD_HASH_BSP@ + ", ни поля "@
                + SQL_FIELD_HASH_FALLBACK@,
        )
    } else {
        Ok(
            MappingView {
                table,
                field_storage: storage->0,
                field_hash: if checksum is Some {
                    checksum->0
                } else {
                    version->0
                },
                field_kind: kind->0,
                enum_table: Seq::empty(),
                hash_is_binary: checksum is None,
            },
        )
    }
}

/// The message about an attribute that a table does not have.
fn unknown_attribute(table: &str, name: &str) -> (r: String)
    ensures
        r@ == "в таблице "@ + table@ + " не опознан реквизит "@ + name@,
{
    let mut m = "в таблице ".to_owned();
    m.append(table);
    m.append(" не опознан реквизит ");
    m.append(name);
    m
}

/// The table of a catalogue.
pub fn reference_table(number: u32) -> (r: String)
    ensures
        r@ == "_Reference"@ + text::dec(number as nat),
{
    let mut s = "_Reference".to_owned();
    let n = text::dec_of(number as u64);
    s.append(&n);
    s
}

/// What a candidate with its columns gives.
pub fn judge_candidate(number: u32, desc: &str, cols: &Vec<String>, fld: &StrMap<u32>) -> (r:
    Result<StorageMapping, String>)
    ensures
        crate::storage_mapping::mapping_result_view(r) == judged(
            number as nat,
            desc@,
            text::views(cols@),
            fld@,
        ),
{
    let table = reference_table(number);
    assert(text::views(cols@).len() == cols@.len());
    if cols.len() == 0 {
        let mut m = "таблицы ".to_owned();
        m.append(&table);
        m.append(" нет в базе");
        return Err(m);
    }
    let field_storage = match resolve_column(desc, META_FIELD_STORAGE, fld, cols) {
        Some(c) => c,
        None => {
            return Err(unknown_attribute(&table, META_FIELD_STORAGE));
        },
    };
    let field_kind = match resolve_column(desc, META_FIELD_KIND, fld, cols) {
        Some(c) => c,
        None => {
            return Err(unknown_attribute(&table, META_FIELD_KIND));
        },
    };
    let (field_hash, hash_is_binary) = match resolve_column(desc, META_FIELD_HASH_BSP, fld, cols) {
        Some(c) => (c, false),
        None => match find_col(cols, SQL_FIELD_HASH_FALLBACK) {
            Some(c) => (c, true),
            None => {
                let mut m = "в таблице ".to_owned();
                m.append(&table);
                m.append(" нет ни реквизита ");
                m.append(META_FIELD_HASH_BSP);
                m.append(", ни поля ");
                m.append(SQL_FIELD_HASH_FALLBACK);
                return Err(m);
            },
        },
    };
    Ok(
        StorageMapping {
            table,
            field_storage,
            field_hash,
            field_kind,
            enum_table: String::new(),
            hash_is_binary,
        },
    )
}

/// The search among the candidates for a catalogue: the columns of one after
/// another are asked for, until one has all that is needed.
#[derive(Debug)]
pub struct CandidateSearch {
    pub candidates: Vec<(u32, String)>,
    /// How many candidates were turned down.
    pub turned_down: usize,
    /// Why the last of them was.
    pub last_reason: String,
}

impl CandidateSearch {
    /// The number of candidates that were turned down fits.
    pub open spec fn wf(&self) -> bool {
        self.turned_down <= self.candidates@.len()
    }

    /// Begins the search; an error where there are no candidates among the
    /// `searched` catalogues.
    pub fn start(candidates: Vec<(u32, String)>, searched: usize, short: &str) -> (r: Result<
        CandidateSearch,
        String,
    >)
        ensures
            match r {
                Ok(s) => s.wf() && s.candidates == candidates && candidates@.len() > 0
                    && s.turned_down == 0 && s.last_reason@.len() == 0,
                Err(e) => candidates@.len() == 0 && e@ == "в описаниях "@ + text::dec(
                    searched as nat,
                ) + " справочников не найден объект с именем \""@ + short@ + "\""@,
            },
    {
        if candidates.len() == 0 {
            let mut m = "в описаниях ".to_owned();
            let n = text::dec_of(searched as u64);
            m.append(&n);
            m.append(" справочников не найден объект с именем \"");
            m.append(short);
            m.append("\"");
            return Err(m);
        }
        Ok(CandidateSearch { candidates, turned_down: 0, last_reason: String::new() })
    }

    /// The table whose columns are wanted; none where all candidates were
    /// turned down.
    pub fn table(&self) -> (r: Option<String>)
        requires
            self.wf(),
        ensures
            match r {
                Some(t) => self.turned_down < self.candidates@.len() && t@ == "_Reference"@
                    + text::dec(self.candidates@[self.turned_down as int].0 as nat),
                None => self.turned_down == self.candidates@.len(),
            },
    {
        if self.turned_down < self.candidates.len() {
            Some(reference_table(self.candidates[self.turned_down].0))
        } else {
            None
        }
    }

    /// Takes the columns of the candidate in turn: the mapping where it has
    /// all that is needed; else it is turned down.
    pub fn columns(&mut self, cols: &Vec<String>, fld: &StrMap<u32>) -> (r: Option<StorageMapping>)
        requires
            old(self).wf(),
            old(self).turned_down < old(self).candidates@.len(),
        ensures
            final(self).wf(),
            final(self).candidates == old(self).candidates,
            match judged(
                old(self).candidates@[old(self).turned_down as int].0 as nat,
                old(self).candidates@[old(self).turned_down as int].1@,
                text::views(cols@),
                fld@,
            ) {
                Ok(m) => r matches Some(x) && x@ == m && *final(self) == *old(self),
                Err(e) => r is None && final(self).turned_down == old(self).turned_down + 1
                    && final(self).last_reason@ == e,
            },
    {
        let n: usize = self.candidates.len();
        assert(self.turned_down < n);
        let (number, desc) = &self.candidates[self.turned_down];
        match judge_candidate(*number, desc, cols, fld) {
            Ok(m) => Some(m),
            Err(e) => {
                self.last_reason = e;
                self.turned_down = self.turned_down + 1;
                None
            },
        }
    }

    /// The message about a search that found nothing.
    pub fn failure(&self, short: &str) -> (r: String)
        ensures
            r@ == "ни один из "@ + text::dec(self.candidates@.len()) + " кандидатов по имени \""@
                + short@ + "\" не подошёл; последняя причина: "@ + self.last_reason@,
    {
        let mut m = "ни один из ".to_owned();
        let n = text::dec_of(self.candidates.len() as u64);
        m.append(&n);
        m.append(" кандидатов по имени \"");
        m.append(short);
        m.append("\" не подошёл; последняя причина: ");
        m.append(&self.last_reason);
        m
    }
}

/// The table of the enumeration of kinds: that of the first object found, or
/// none.
pub fn enum_table_name(found: &Vec<(u32, String)>) -> (r: String)
    ensures
        r@ == if found@.len() > 0 {
            "_Enum"@ + text::dec(found@[0].0 as nat)
        } else {
            Seq::empty()
        },
{
    if found.len() == 0 {
        return String::new();
    }
    let mut s = "_Enum".to_owned();
    let n = text::dec_of(found[0].0 as u64);
    s.append(&n);
    s
}

/// A column that a candidate is given is one of its table.
pub proof fn columns_are_of_the_table(
    number: nat,
    desc: Seq<char>,
    cols: Seq<Seq<char>>,
    fld: Map<Seq<char>, u32>,
)
    requires
        judged(number, desc, cols, fld) is Ok,
    ensures
        cols.contains(judged(number, desc, cols, fld)->Ok_0.field_storage),
        cols.contains(judged(number, desc, cols, fld)->Ok_0.field_kind),
        cols.contains(judged(number, desc, cols, fld)->Ok_0.field_hash),
{
    lemma_attribute_column(desc, META_FIELD_STORAGE@, fld, cols);
    lemma_attribute_column(desc, META_FIELD_KIND@, fld, cols);
    lemma_attribute_column(desc, META_FIELD_HASH_BSP@, fld, cols);
    lemma_column_like(cols, SQL_FIELD_HASH_FALLBACK@, 0);
}

proof fn lemma_attribute_column(
    desc: Seq<char>,
    field: Seq<char>,
    fld: Map<Seq<char>, u32>,
    cols: Seq<Seq<char>>,
)
    ensures
        attribute_column(desc, field, fld, cols) matches Some(c) ==> cols.contains(c),
{
    if let Some(n) = field_number(desc, field, fld) {
        let plain = "_Fld"@ + text::dec(n as nat);
        lemma_column_like(cols, plain, 0);
        lemma_column_like(cols, plain + "RRef"@, 0);
    }
}

proof fn lemma_column_like(cols: Seq<Seq<char>>, want: Seq<char>, i: int)
    requires
        0 <= i,
    ensures
        column_like(cols, want, i) matches Some(c) ==> cols.contains(c),
    decreases cols.len() - i,
{
    if i < cols.len() && !text::eq_ignore_case(cols[i], want) {
        lemma_column_like(cols, want, i + 1);
    }
}

/// The storage, the kind and the checksum of a catalogue are the columns of the
/// attributes of those names. The hash is the checksum, a text; only a catalogue
/// without that column is compared by the version of its rows, which is binary.
pub proof fn hash_is_the_checksum_where_there_is_one(
    number: nat,
    desc: Seq<char>,
    cols: Seq<Seq<char>>,
    fld: Map<Seq<char>, u32>,
)
    ensures
        judged(number, desc, cols, fld) matches Ok(m) ==> {
            &&& m.table == "_Reference"@ + text::dec(number)
            &&& attribute_column(desc, "ХранилищеОбработки"@, fld, cols) == Some(m.field_storage)
            &&& attribute_column(desc, "Вид"@, fld, cols) == Some(m.field_kind)
            &&& match attribute_column(desc, "КонтрольнаяСумма"@, fld, cols) {
                Some(c) => m.field_hash == c && !m.hash_is_binary,
                None => cols.contains(m.field_hash) && text::lowered(m.field_hash) == text::lowered(
                    "_Version"@,
                ) && m.hash_is_binary,
            }
        },
        judged(number, desc, cols, fld) is Ok <==> {
            &&& attribute_column(desc, "ХранилищеОбработки"@, fld, cols) is Some
            &&& attribute_column(desc, "Вид"@, fld, cols) is Some
            &&& attribute_column(desc, "КонтрольнаяСумма"@, fld, cols) is Some || exists|i: int|
                0 <= i < cols.len() && text::lowered(#[trigger] cols[i]) == text::lowered(
                    "_Version"@,
                )
        },
{
    lemma_column_found(cols, "_Version"@, 0);
    lemma_attribute_column(desc, "ХранилищеОбработки"@, fld, cols);
}

/// A column is found exactly where one has the wanted name, up to case.
proof fn lemma_column_found(cols: Seq<Seq<char>>, want: Seq<char>, i: int)
    requires
        0 <= i,
    ensures
        match column_like(cols, want, i) {
            Some(c) => cols.contains(c) && text::lowered(c) == text::lowered(want),
            None => forall|j: int|
                i <= j < cols.len() ==> text::lowered(#[trigger] cols[j]) != text::lowered(want),
        },
    decreases cols.len() - i,
{
    if i < cols.len() {
        text::capital_letters_are_lowered(cols[i], want);
        if !text::eq_ignore_case(cols[i], want) {
            lemma_column_found(cols, want, i + 1);
        }
    }
}

/// The column of an attribute bears the number of the attribute: it is
/// `_Fld<number>` or, where the table has no such column, `_Fld<number>RRef`,
/// up to case. There is none only where the attribute has no number or the table
/// has neither column.
pub proof fn column_bears_the_number_of_its_attribute(
    desc: Seq<char>,
    field: Seq<char>,
    fld: Map<Seq<char>, u32>,
    cols: Seq<Seq<char>>,
)
    ensures
        match (attribute_column(desc, field, fld, cols), field_number(desc, field, fld)) {
            (Some(c), Some(n)) => {
                let plain = text::lowered("_Fld"@ + text::dec(n as nat));
                let reference = text::lowered("_Fld"@ + text::dec(n as nat) + "RRef"@);
                &&& cols.contains(c)
                &&& text::lowered(c) == plain || (text::lowered(c) == reference && forall|j: int|
                    0 <= j < cols.len() ==> text::lowered(#[trigger] cols[j]) != plain)
            },
            (None, Some(n)) => forall|j: int|
                0 <= j < cols.len() ==> text::lowered(#[trigger] cols[j]) != text::lowered(
                    "_Fld"@ + text::dec(n as nat),
                ) && text::lowered(cols[j]) != text::lowered(
                    "_Fld"@ + text::dec(n as nat) + "RRef"@,
                ),
            (Some(_), None) => false,
            (None, None) => true,
        },
{
    if let Some(n) = field_number(desc, field, fld) {
        let plain = "_Fld"@ + text::dec(n as nat);
        lemma_column_found(cols, plain, 0);
        lemma_column_found(cols, plain + "RRef"@, 0);
    }
}

/// No identifier reaches over a character that none can hold.
proof fn lemma_uuids_apart(a: Seq<char>, c: char, b: Seq<char>)
    requires
        !text::is_hex(c),
        c != '-',
    ensures
        uuids(a.push(c) + b) == uuids(a) + uuids(b),
    decreases a.len(),
{
    let s = a.push(c) + b;
    if a.len() >= 36 && text::is_uuid(a.take(36)) {
        assert(s.take(36) =~= a.take(36));
        assert(s.skip(36) =~= a.skip(36).push(c) + b);
        lemma_uuids_apart(a.skip(36), c, b);
        assert(uuids(s) =~= uuids(a) + uuids(b));
    } else {
        if s.len() >= 36 && text::is_uuid(s.take(36)) {
            if a.len() < 36 {
                let k = a.len() as int;
                assert(s.take(36)[k] == c);
            } else {
                assert(s.take(36) =~= a.take(36));
            }
            assert(false);
        }
        if a.len() == 0 {
            assert(s.skip(1) =~= b);
            if s.len() < 36 {
                assert(uuids(b) =~= Seq::empty());
            }
            assert(uuids(a) + uuids(b) =~= uuids(b));
        } else {
            assert(s.skip(1) =~= a.skip(1).push(c) + b);
            lemma_uuids_apart(a.skip(1), c, b);
            if s.len() < 36 {
                assert(uuids(b) =~= Seq::empty());
                assert(uuids(a) =~= Seq::empty());
            } else if a.len() < 36 {
                assert(uuids(a.skip(1)) =~= Seq::empty());
                assert(uuids(a) =~= Seq::empty());
            }
        }
    }
}

/// Every identifier that is read of a text stands in it.
proof fn lemma_uuids_stand(s: Seq<char>, k: int) -> (j: int)
    requires
        0 <= k < uuids(s).len(),
    ensures
        0 <= j && j + 36 <= s.len(),
        uuids(s)[k] == s.subrange(j, j + 36),
    decreases s.len(),
{
    if text::is_uuid(s.take(36)) {
        if k == 0 {
            assert(s.take(36) =~= s.subrange(0, 36));
            0
        } else {
            let j = lemma_uuids_stand(s.skip(36), k - 1);
            assert(s.skip(36).subrange(j, j + 36) =~= s.subrange(j + 36, j + 72));
            j + 36
        }
    } else {
        let j = lemma_uuids_stand(s.skip(1), k);
        assert(s.skip(1).subrange(j, j + 36) =~= s.subrange(j + 1, j + 37));
        j + 1
    }
}

proof fn lemma_last_known_before(
    ids: Seq<Seq<char>>,
    tail: Seq<Seq<char>>,
    fld: Map<Seq<char>, u32>,
)
    requires
        forall|k: int|
            0 <= k < tail.len() ==> !fld.dom().contains(text::lowered(#[trigger] tail[k])),
    ensures
        last_known(ids + tail, fld) == last_known(ids, fld),
    decreases tail.len(),
{
    if tail.len() == 0 {
        assert(ids + tail =~= ids);
    } else {
        assert((ids + tail).drop_last() =~= ids + tail.drop_last());
        assert((ids + tail).last() == tail[tail.len() - 1]);
        assert forall|k: int| 0 <= k < tail.drop_last().len() implies !fld.dom().contains(
            text::lowered(#[trigger] tail.drop_last()[k]),
        ) by {
            assert(tail.drop_last()[k] == tail[k]);
        }
        lemma_last_known_before(ids, tail.drop_last(), fld);
    }
}

/// The number of an attribute is that of the identifier that stands before its
/// name: `before`, a brace, the identifier, `between` and the name in quotes,
/// where no other known identifier stands between them, the name is not there
/// earlier and the identifier is at most 900 characters before it.
pub proof fn attribute_has_the_number_of_the_identifier_before_it(
    before: Seq<char>,
    id: Seq<char>,
    between: Seq<char>,
    field: Seq<char>,
    rest: Seq<char>,
    fld: Map<Seq<char>, u32>,
)
    requires
        text::is_uuid(id),
        fld.dom().contains(text::lowered(id)),
        between.len() > 0 && between[0] == ',',
        forall|j: int|
            0 <= j && j + 36 <= between.len() ==> !fld.dom().contains(
                text::lowered(#[trigger] between.subrange(j, j + 36)),
            ),
        id.len() + between.len() <= 900,
        forall|j: int|
            0 <= j < before.len() + 1 + id.len() + between.len() ==> !#[trigger] text::occurs_at(
                before.push('{') + id + between + ("\""@ + field + "\""@) + rest,
                "\""@ + field + "\""@,
                j,
            ),
    ensures
        field_number(
            before.push('{') + id + between + ("\""@ + field + "\""@) + rest,
            field,
            fld,
        ) == Some(fld[text::lowered(id)]),
{
    reveal_strlit("\"");
    let name = in_quotes(field);
    let head = before.push('{') + id + between;
    let desc = head + name + rest;
    let pos = head.len() as int;
    assert(desc.subrange(pos, pos + name.len()) =~= name);
    assert(text::occurs_at(desc, name, pos));
    text::lemma_found(desc, name, pos);
    assert(desc.take(pos) =~= head);
    let window = text::last_part(head, 900);
    // the window reaches to the identifier at least
    let between0 = between.skip(1);
    assert(between =~= seq![','] + between0);
    let tail = uuids(between0);
    assert forall|k: int| 0 <= k < tail.len() implies !fld.dom().contains(
        text::lowered(#[trigger] tail[k]),
    ) by {
        let j = lemma_uuids_stand(between0, k);
        let at = j + 1;
        assert(between0.subrange(j, j + 36) =~= between.subrange(at, at + 36));
    }
    assert(uuids(id) =~= seq![id]) by {
        assert(id.take(36) =~= id);
        assert(uuids(id.skip(36)) =~= Seq::empty());
    }
    lemma_uuids_apart(id, ',', between0);
    let end = id.push(',') + between0;
    assert(id + between =~= end);
    assert(uuids(end) == seq![id] + tail);
    let start = window.len() - end.len();
    assert(start >= 0);
    if start == 0 {
        assert(window =~= end);
        lemma_last_known_before(seq![id], tail, fld);
        assert(seq![id].last() == id);
    } else {
        let front = window.take(start - 1);
        assert(window =~= front.push('{') + end);
        lemma_uuids_apart(front, '{', end);
        assert(uuids(front) + (seq![id] + tail) =~= (uuids(front) + seq![id]) + tail);
        lemma_last_known_before(uuids(front) + seq![id], tail, fld);
        assert((uuids(front) + seq![id]).last() == id);
    }
}

/// Digits are counted up to the first character that is none.
proof fn lemma_digit_count(digits: Seq<char>, rest: Seq<char>)
    requires
        forall|i: int| 0 <= i < digits.len() ==> text::is_digit(#[trigger] digits[i]),
        rest.len() > 0 && !text::is_digit(rest[0]),
    ensures
        digit_count(digits + rest) == digits.len(),
    decreases digits.len(),
{
    let s = digits + rest;
    if digits.len() == 0 {
        assert(s =~= rest);
    } else {
        assert(s[0] == digits[0]);
        assert(s.skip(1) =~= digits.skip(1) + rest);
        assert forall|i: int| 0 <= i < digits.skip(1).len() implies text::is_digit(
            #[trigger] digits.skip(1)[i],
        ) by {
            assert(digits.skip(1)[i] == digits[i + 1]);
        }
        lemma_digit_count(digits.skip(1), rest);
    }
}

/// An entry `{<identifier>,"<kind>",<number>}` of the record `DBNames` is read
/// with its identifier in lower case, its kind and its number, wherever it
/// stands; what stands before it, if it holds no brace, does not matter.
pub proof fn written_entry_is_read(
    before: Seq<char>,
    id: Seq<char>,
    kind: NameKind,
    number: u32,
    rest: Seq<char>,
)
    requires
        !before.contains('{'),
        text::is_uuid(id),
    ensures
        entries(
            before + (seq!['{'] + id + (match kind {
                NameKind::Reference => ",\"Reference\","@,
                NameKind::Fld => ",\"Fld\","@,
                NameKind::Enum => ",\"Enum\","@,
            }) + text::dec(number as nat) + seq!['}']) + rest,
        ) == seq![
            NameEntry { uuid: text::lowered(id), kind, number: number as nat },
        ] + entries(rest),
    decreases before.len(),
{
    reveal_strlit(",\"Reference\",");
    reveal_strlit(",\"Fld\",");
    reveal_strlit(",\"Enum\",");
    let part: Seq<char> = match kind {
        NameKind::Reference => ",\"Reference\","@,
        NameKind::Fld => ",\"Fld\","@,
        NameKind::Enum => ",\"Enum\","@,
    };
    let digits = text::dec(number as nat);
    let entry = seq!['{'] + id + part + digits + seq!['}'];
    let s = before + entry + rest;
    if before.len() > 0 {
        assert(s[0] == before[0]);
        assert(before.contains(before[0]));
        assert(s.skip(1) =~= before.skip(1) + entry + rest);
        assert forall|c: char| before.skip(1).contains(c) implies before.contains(c) by {
            let k = before.skip(1).index_of(c);
            assert(before[k + 1] == c);
        }
        written_entry_is_read(before.skip(1), id, kind, number, rest);
    } else {
        assert(s =~= entry + rest);
        text::decimal_notation_is_read(number as nat);
        assert(s.subrange(1, 37) =~= id);
        let tail = s.skip(37);
        let after = digits + seq!['}'] + rest;
        assert(tail =~= part + after);
        assert(tail.take(part.len() as int) =~= part);
        assert(tail[1] == '"' && tail[2] == part[2] && tail[0] == ',');
        if kind == NameKind::Fld || kind == NameKind::Enum {
            assert(tail.take(13)[2] == part[2] || tail.len() < 13);
            assert(!text::starts(tail, ",\"Reference\","@)) by {
                if text::starts(tail, ",\"Reference\","@) {
                    assert(tail.take(13)[2] == 'R');
                }
            }
        }
        if kind == NameKind::Enum {
            assert(!text::starts(tail, ",\"Fld\","@)) by {
                if text::starts(tail, ",\"Fld\","@) {
                    assert(tail.take(7)[2] == 'F');
                }
            }
        }
        assert(kind_at(tail) == Some(kind));
        let start = 37 + part.len() as int;
        assert(s.skip(start) =~= digits + (seq!['}'] + rest));
        lemma_digit_count(digits, seq!['}'] + rest);
        let end = start + digits.len();
        assert(s[end] == '}');
        assert(s.subrange(start, end) =~= digits);
        assert(s.skip(end + 1) =~= rest);
    }
}

/// The catalogues and the enumerations that are kept are the entries of their
/// kinds, in their order; an attribute has the number of its last entry.
pub proof fn entries_are_kept_by_their_kinds(
    es: Seq<NameEntry>,
    e: NameEntry,
    uuid: Seq<char>,
)
    ensures
        of_kind(es.push(e), NameKind::Reference) == if e.kind == NameKind::Reference {
            of_kind(es, NameKind::Reference).push((e.uuid, e.number))
        } else {
            of_kind(es, NameKind::Reference)
        },
        of_kind(es.push(e), NameKind::Enum) == if e.kind == NameKind::Enum {
            of_kind(es, NameKind::Enum).push((e.uuid, e.number))
        } else {
            of_kind(es, NameKind::Enum)
        },
        e.kind == NameKind::Fld && e.uuid == uuid ==> field_numbers(es.push(e)).dom().contains(uuid)
            && field_numbers(es.push(e))[uuid] == e.number as u32,
        !(e.kind == NameKind::Fld && e.uuid == uuid) ==> {
            &&& field_numbers(es.push(e)).dom().contains(uuid) == field_numbers(es).dom().contains(
                uuid,
            )
            &&& field_numbers(es).dom().contains(uuid) ==> field_numbers(es.push(e))[uuid]
                == field_numbers(es)[uuid]
        },
        of_kind(Seq::empty(), NameKind::Reference).len() == 0,
        of_kind(Seq::empty(), NameKind::Enum).len() == 0,
        field_numbers(Seq::empty()).dom() == Set::<Seq<char>>::empty(),
{
    assert(es.push(e).drop_last() =~= es);
}

/// The parts of a description follow each other in the order of the rows; a row
/// of another name, or one without a name or contents, leaves it as it is.
pub proof fn parts_follow_each_other(rows: Seq<PartRow>, row: PartRow, name: Seq<char>)
    ensures
        ({
            let old = if blobs_of(rows).dom().contains(name) {
                blobs_of(rows)[name]
            } else {
                Seq::empty()
            };
            let new = blobs_of(rows.push(row));
            match row {
                (Some(n), Some(part)) => if text::lower(text::trim(n@)) == name {
                    new.dom().contains(name) && new[name] == old + part@
                } else {
                    new.dom().contains(name) == blobs_of(rows).dom().contains(name) && (
                    new.dom().contains(name) ==> new[name] == old)
                },
                _ => new.dom().contains(name) == blobs_of(rows).dom().contains(name) && (
                new.dom().contains(name) ==> new[name] == old),
            }
        }),
        !blobs_of(Seq::empty()).dom().contains(name),
{
    assert(rows.push(row).drop_last() =~= rows);
    if let (Some(n), Some(part)) = row {
        assert(Seq::<u8>::empty() + part@ =~= part@);
    }
}

/// The objects that are found are those whose descriptions hold the name in
/// quotes, with their numbers, and every such object is found.
pub proof fn named_objects_are_found(
    names: Seq<(Seq<char>, nat)>,
    blobs: Map<Seq<char>, Seq<u8>>,
    short: Seq<char>,
    number: nat,
    desc: Seq<char>,
)
    ensures
        described(names, blobs, short).contains((number, desc)) <==> exists|i: int|
            0 <= i < names.len() && (#[trigger] names[i]).1 == number && blobs.dom().contains(
                names[i].0,
            ) && blobs[names[i].0].len() > 0 && desc == blob_text(blobs[names[i].0]) && text::has(
                desc,
                "\""@ + short + "\""@,
            ),
    decreases names.len(),
{
    if names.len() > 0 {
        let n0 = names.drop_last();
        named_objects_are_found(n0, blobs, short, number, desc);
        let d0 = described(n0, blobs, short);
        let d = described(names, blobs, short);
        let last = names.len() - 1;
        assert(names[last] == names.last());
        if d0.contains((number, desc)) {
            let i = d0.index_of((number, desc));
            assert(d[i] == (number, desc));
            let j = choose|i: int|
                0 <= i < n0.len() && (#[trigger] n0[i]).1 == number && blobs.dom().contains(
                    n0[i].0,
                ) && blobs[n0[i].0].len() > 0 && desc == blob_text(blobs[n0[i].0]) && text::has(
                    desc,
                    "\""@ + short + "\""@,
                );
            assert(names[j] == n0[j]);
        }
        if d.contains((number, desc)) {
            let i = d.index_of((number, desc));
            if i < d0.len() {
                assert(d0[i] == (number, desc));
            }
        }
        if exists|i: int|
            0 <= i < names.len() && (#[trigger] names[i]).1 == number && blobs.dom().contains(
                names[i].0,
            ) && blobs[names[i].0].len() > 0 && desc == blob_text(blobs[names[i].0]) && text::has(
                desc,
                "\""@ + short + "\""@,
            ) {
            let i = choose|i: int|
                0 <= i < names.len() && (#[trigger] names[i]).1 == number && blobs.dom().contains(
                    names[i].0,
                ) && blobs[names[i].0].len() > 0 && desc == blob_text(blobs[names[i].0])
                    && text::has(desc, "\""@ + short + "\""@);
            if i < last {
                assert(n0[i] == names[i]);
            } else {
                assert(d[d.len() - 1] == (number, desc));
            }
        }
    }
}

/// The name of a catalogue is what stands behind the last dot of its full name.
pub proof fn short_name_stands_behind_the_dot(head: Seq<char>, tail: Seq<char>)
    requires
        !tail.contains('.'),
        text::trim(tail) == tail,
    ensures
        short_name(head + seq!['.'] + tail) == tail,
        short_name(tail) == tail,
{
    reveal_strlit(".");
    let s = head + seq!['.'] + tail;
    let k = head.len() as int;
    text::lemma_occurs_char(s, "."@, k);
    assert forall|j: int| k < j <= s.len() - 1 implies !text::occurs_at(s, "."@, j) by {
        text::lemma_occurs_char(s, "."@, j);
        assert(s[j] == tail[j - k - 1]);
        assert(tail.contains(tail[j - k - 1]));
    }
    lemma_rfind_is(s, "."@, s.len() - 1, k);
    assert(s.skip(k + 1) =~= tail);
    assert forall|j: int| !text::occurs_at(tail, "."@, j) by {
        text::lemma_occurs_char(tail, "."@, j);
        if 0 <= j < tail.len() {
            assert(tail.contains(tail[j]));
        }
    }
    lemma_rfind_none(tail, "."@, tail.len() - 1);
}

proof fn lemma_rfind_is(s: Seq<char>, p: Seq<char>, i: int, k: int)
    requires
        0 <= k <= i,
        text::occurs_at(s, p, k),
        forall|j: int| k < j <= i ==> !text::occurs_at(s, p, j),
    ensures
        text::rfind_from(s, p, i) == Some(k),
    decreases i - k,
{
    if k < i {
        lemma_rfind_is(s, p, i - 1, k);
    }
}

proof fn lemma_rfind_none(s: Seq<char>, p: Seq<char>, i: int)
    requires
        forall|j: int| !text::occurs_at(s, p, j),
    ensures
        text::rfind_from(s, p, i) is None,
    decreases i + 1,
{
    if i >= 0 {
        lemma_rfind_none(s, p, i - 1);
    }
}

/// The descriptions are asked for in batches that follow each other without a
/// gap, none of them empty while there are any left.
pub proof fn every_description_is_asked_for(search: ObjectSearch)
    requires
        search.wf(),
    ensures
        search.names@.take(search.asked as int) + search.next_batch() == search.names@.take(
            search.asked + search.next_batch().len(),
        ),
        search.asked < search.names@.len() ==> search.next_batch().len() > 0,
        search.next_batch().len() <= 40,
        search.asked + search.next_batch().len() == batch_end(
            search.asked as int,
            search.names@.len() as int,
        ),
{
    let a = search.asked as int;
    let n = search.names@.len() as int;
    assert(search.names@.take(a) + search.next_batch() =~= search.names@.take(batch_end(a, n)));
}

/// Where the checksum has a number and the table has the column of that number,
/// the hash is that column and is no binary value; otherwise, where the table has
/// neither that column nor the one of a reference, it is the version, which is.
pub proof fn column_of_the_checksum_is_the_hash(
    number: nat,
    desc: Seq<char>,
    cols: Seq<Seq<char>>,
    fld: Map<Seq<char>, u32>,
    n: u32,
    i: int,
)
    requires
        judged(number, desc, cols, fld) is Ok,
        field_number(desc, "КонтрольнаяСумма"@, fld) == Some(n),
    ensures
        ({
            let m = judged(number, desc, cols, fld)->Ok_0;
            let plain = text::lowered("_Fld"@ + text::dec(n as nat));
            let reference = text::lowered("_Fld"@ + text::dec(n as nat) + "RRef"@);
            &&& 0 <= i < cols.len() && text::lowered(cols[i]) == plain ==> text::lowered(
                m.field_hash,
            ) == plain && !m.hash_is_binary
            &&& (forall|j: int|
                0 <= j < cols.len() ==> text::lowered(#[trigger] cols[j]) != plain && text::lowered(
                    cols[j],
                ) != reference) ==> text::lowered(m.field_hash) == text::lowered("_Version"@)
                && m.hash_is_binary
        }),
{
    hash_is_the_checksum_where_there_is_one(number, desc, cols, fld);
    column_bears_the_number_of_its_attribute(desc, "КонтрольнаяСумма"@, fld, cols);
    let m = judged(number, desc, cols, fld)->Ok_0;
    if let Some(c) = attribute_column(desc, "КонтрольнаяСумма"@, fld, cols) {
        let k = cols.index_of(c);
        assert(cols[k] == c);
    }
}

/// The record of names is of use where it names a catalogue and an attribute.
pub proof fn record_of_names_is_of_use(text: Seq<char>, raw_len: nat)
    ensures
        names_error(text, raw_len) is None <==> of_kind(entries(text), NameKind::Reference).len()
            > 0 && field_numbers(entries(text)).dom().len() > 0,
        names_error(text, raw_len) matches Some(e) ==> e
            == "карта имён DBNames не разобрана: справочников "@ + text::dec(
            of_kind(entries(text), NameKind::Reference).len(),
        ) + ", реквизитов "@ + text::dec(field_numbers(entries(text)).dom().len()) + " (блоб "@
            + text::dec(raw_len) + " байт, развёрнутый текст "@ + text::dec(text.len())
            + " символов)"@,
{
}

/// The descriptions are asked for by name, all those of a batch, part by part in
/// their order.
pub proof fn descriptions_are_asked_for_by_name(
    names: Seq<(Seq<char>, nat)>,
    more: (Seq<char>, nat),
)
    ensures
        names.len() > 0 ==> config_sql(names.push(more))
            == "SELECT FileName, BinaryData FROM dbo.Config WITH (NOLOCK) WHERE FileName IN ("@
            + (text::join(
            names.map_values(|p: (Seq<char>, nat)| "N'"@ + p.0 + "'"@),
            ","@,
        ) + ","@ + ("N'"@ + more.0 + "'"@)) + ") ORDER BY FileName, PartNo"@,
        config_sql(seq![more])
            == "SELECT FileName, BinaryData FROM dbo.Config WITH (NOLOCK) WHERE FileName IN ("@
            + ("N'"@ + more.0 + "'"@) + ") ORDER BY FileName, PartNo"@,
{
    let a = name_literals(names);
    let one = "N'"@ + more.0 + "'"@;
    assert(name_literals(names.push(more)) =~= a.push(one));
    assert(name_literals(seq![more]) =~= seq![one]);
    assert(a =~= names.map_values(|p: (Seq<char>, nat)| "N'"@ + p.0 + "'"@));
    text::texts_are_joined_in_order(a, one, ","@);
}

/// The text of a record is what it inflates to, or itself, without the mark of
/// its encoding.
pub proof fn records_are_inflated(bytes: Seq<u8>)
    ensures
        ({
            let d = match codec::inflate(bytes) {
                Ok(data) => data,
                Err(_) => bytes,
            };
            blob_text(bytes) == if d.len() >= 3 && d[0] == 0xEF && d[1] == 0xBB && d[2] == 0xBF {
                codec::lossy_utf8(d.skip(3))
            } else {
                codec::lossy_utf8(d)
            }
        }),
{
}

/// Numbers and parts are taken as they are given.
pub proof fn numbers_are_taken_one_by_one(
    v: Seq<(String, u32)>,
    w: Seq<(u32, String)>,
    m: Map<Seq<char>, Vec<u8>>,
    i: int,
    k: Seq<char>,
)
    ensures
        number_views(v).len() == v.len() && candidate_views(w).len() == w.len(),
        0 <= i < v.len() ==> number_views(v)[i] == (v[i].0@, v[i].1 as nat),
        0 <= i < w.len() ==> candidate_views(w)[i] == (w[i].0 as nat, w[i].1@),
        m.dom().contains(k) ==> blob_views(m).dom().contains(k) && blob_views(m)[k] == m[k]@,
        !m.dom().contains(k) ==> !blob_views(m).dom().contains(k),
{
}

/// What is kept of the record of names are its entries, each under its kind.
pub proof fn kept_names_are_the_entries(names: DbNames, es: Seq<NameEntry>)
    requires
        names.holds(es),
    ensures
        names.reference@.len() == of_kind(es, NameKind::Reference).len(),
        forall|i: int|
            0 <= i < names.reference@.len() ==> (#[trigger] names.reference@[i]).0@ == of_kind(
                es,
                NameKind::Reference,
            )[i].0 && names.reference@[i].1 == of_kind(es, NameKind::Reference)[i].1,
        names.enums@.len() == of_kind(es, NameKind::Enum).len(),
        forall|i: int|
            0 <= i < names.enums@.len() ==> (#[trigger] names.enums@[i]).0@ == of_kind(
                es,
                NameKind::Enum,
            )[i].0 && names.enums@[i].1 == of_kind(es, NameKind::Enum)[i].1,
        names.fld@ == field_numbers(es),
{
    assert forall|i: int| 0 <= i < names.reference@.len() implies (
    #[trigger] names.reference@[i]).0@ == of_kind(es, NameKind::Reference)[i].0
        && names.reference@[i].1 == of_kind(es, NameKind::Reference)[i].1 by {
        assert(number_views(names.reference@)[i].0 == names.reference@[i].0@);
    }
    assert forall|i: int| 0 <= i < names.enums@.len() implies (#[trigger] names.enums@[i]).0@
        == of_kind(es, NameKind::Enum)[i].0 && names.enums@[i].1 == of_kind(
        es,
        NameKind::Enum,
    )[i].1 by {
        assert(number_views(names.enums@)[i].0 == names.enums@[i].0@);
    }
    assert(number_views(names.reference@).len() == names.reference@.len());
    assert(number_views(names.enums@).len() == names.enums@.len());
}

/// The mapping of a candidate takes the checksum for the hash where the table has
/// its column, and then the hash is no binary value; only where the table has
/// neither of its columns it takes the version, and then the hash is one.
pub proof fn candidate_is_compared_by_its_checksum(
    number: u32,
    desc: &str,
    cols: &Vec<String>,
    fld: &StrMap<u32>,
    r: Result<StorageMapping, String>,
    n: u32,
    i: int,
)
    requires
        call_ensures(judge_candidate, (number, desc, cols, fld), r),
        r is Ok,
        field_number(desc@, "КонтрольнаяСумма"@, fld@) == Some(n),
    ensures
        ({
            let m = r->Ok_0;
            let plain = text::lowered("_Fld"@ + text::dec(n as nat));
            let reference = text::lowered("_Fld"@ + text::dec(n as nat) + "RRef"@);
            &&& 0 <= i < cols@.len() && text::lowered(cols@[i]@) == plain ==> text::lowered(
                m.field_hash@,
            ) == plain && !m.hash_is_binary
            &&& (forall|j: int|
                0 <= j < cols@.len() ==> text::lowered((#[trigger] cols@[j])@) != plain
                    && text::lowered(cols@[j]@) != reference) ==> text::lowered(m.field_hash@)
                == text::lowered("_Version"@) && m.hash_is_binary
        }),
{
    let views = text::views(cols@);
    assert(views.len() == cols@.len());
    if 0 <= i < cols@.len() {
        assert(views[i] == cols@[i]@);
    }
    column_of_the_checksum_is_the_hash(number as nat, desc@, views, fld@, n, i);
    if forall|j: int|
        0 <= j < cols@.len() ==> text::lowered((#[trigger] cols@[j])@) != text::lowered(
            "_Fld"@ + text::dec(n as nat),
        ) && text::lowered(cols@[j]@) != text::lowered("_Fld"@ + text::dec(n as nat) + "RRef"@) {
        assert forall|j: int| 0 <= j < views.len() implies text::lowered(#[trigger] views[j])
            != text::lowered("_Fld"@ + text::dec(n as nat)) && text::lowered(views[j])
            != text::lowered("_Fld"@ + text::dec(n as nat) + "RRef"@) by {
            assert(views[j] == cols@[j]@);
        }
    }
}

/// A candidate whose attribute of the checksum is not known is compared by the
/// version of its rows.
pub proof fn candidate_without_checksum_is_compared_by_its_version(
    number: u32,
    desc: &str,
    cols: &Vec<String>,
    fld: &StrMap<u32>,
    r: Result<StorageMapping, String>,
)
    requires
        call_ensures(judge_candidate, (number, desc, cols, fld), r),
        r is Ok,
        field_number(desc@, "КонтрольнаяСумма"@, fld@) is None,
    ensures
        text::lowered(r->Ok_0.field_hash@) == text::lowered("_Version"@),
        r->Ok_0.hash_is_binary,
{
    let views = text::views(cols@);
    hash_is_the_checksum_where_there_is_one(number as nat, desc@, views, fld@);
    column_bears_the_number_of_its_attribute(desc@, "КонтрольнаяСумма"@, fld@, views);
}

/// A text without a brace names nothing, and nothing that is read is anything but
/// an entry with an identifier.
pub proof fn only_entries_are_read(s: Seq<char>, i: int)
    ensures
        !s.contains('{') ==> entries(s).len() == 0,
        0 <= i < entries(s).len() ==> entries(s)[i].uuid.len() == 36 && entries(s)[i].number
            <= u32::MAX,
    decreases s.len(),
{
    if s.len() > 0 {
        match entry_at(s) {
            Some((e, n)) => {
                assert(s[0] == '{');
                assert(s.contains('{'));
                if 0 < n <= s.len() {
                    let rest = s.skip(n);
                    if e.number <= u32::MAX {
                        only_entries_are_read(rest, i - 1);
                    } else {
                        only_entries_are_read(rest, i);
                    }
                }
            },
            None => {
                let rest = s.skip(1);
                only_entries_are_read(rest, i);
                if rest.contains('{') {
                    let k = rest.index_of('{');
                    assert(s[k + 1] == '{');
                    assert(s.contains('{'));
                }
            },
        }
    }
}

} // verus!
