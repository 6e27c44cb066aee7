//! Fingerprints of the service tables of a database, by which a change of the
//! base is seen.

use vstd::prelude::*;
use vstd::string::StringSliceAdditionalSpecFns;

use crate::codec;
use crate::state::{SqlSignals, StoredMapping};
use crate::text;

verus! {

/// The names that the fingerprint of the processors needs.
#[derive(Debug, Clone, PartialEq, Eq)]
pub struct StoredMappingLite {
    pub table: String,
    pub field_hash: String,
    /// Whether the hash is a binary row version rather than a text.
    pub hash_is_binary: bool,
}

/// What is asked of a base: only what is exported from it.
#[derive(Debug, Clone)]
pub struct SignalScope {
    pub base: bool,
    pub extensions: bool,
    /// Nothing where processors are not exported or not located yet.
    pub processings: Option<StoredMappingLite>,
}

/// A column written in lower case holds a binary row version.
pub open spec fn names_version(lower: Seq<char>) -> bool {
    text::has(lower, "version"@)
}

/// Whether a column, its name written in lower case, holds a binary row
/// version.
pub fn is_version_column(lower: &str) -> (r: bool)
    ensures
        r == names_version(lower@),
{
    text::contains(lower, "version")
}

impl StoredMappingLite {
    /// The names from a stored mapping; that the hash is binary is told by the
    /// name of its column.
    pub fn from_stored(m: &StoredMapping) -> (r: StoredMappingLite)
        ensures
            r.table@ == m.table@,
            r.field_hash@ == m.field_hash@,
            r.hash_is_binary == names_version(text::lower(m.field_hash@)),
    {
        let lower = text::to_lowercase(&m.field_hash);
        StoredMappingLite {
            table: m.table.clone(),
            field_hash: m.field_hash.clone(),
            hash_is_binary: is_version_column(&lower),
        }
    }
}

/// The SQL expression of a hash column.
pub open spec fn hash_expression(field: Seq<char>, is_binary: bool) -> Seq<char> {
    if is_binary {
        "CONVERT(VARCHAR(130), CAST("@ + field + " AS VARBINARY(64)), 2)"@
    } else {
        "RTRIM(CONVERT(NVARCHAR(64), "@ + field + "))"@
    }
}

/// The SQL expression of a hash column.
pub fn hash_select(field_hash: &str, hash_is_binary: bool) -> (r: String)
    ensures
        r@ == hash_expression(field_hash@, hash_is_binary),
{
    if hash_is_binary {
        let mut s = "CONVERT(VARCHAR(130), CAST(".to_owned();
        s.append(field_hash);
        s.append(" AS VARBINARY(64)), 2)");
        s
    } else {
        let mut s = "RTRIM(CONVERT(NVARCHAR(64), ".to_owned();
        s.append(field_hash);
        s.append("))");
        s
    }
}

/// The fingerprint of a list of lines.
pub open spec fn fingerprint_of(lines: Seq<Seq<char>>) -> Seq<char> {
    text::hex(
        codec::sha256_digest(vstd::utf8::encode_utf8(text::join(lines, "\n"@))),
        'a',
    )
}

/// The fingerprint of a list of lines: the SHA-256 digest of the lines with
/// line feeds between them.
pub fn fingerprint(lines: &Vec<String>) -> (r: String)
    ensures
        r@ == fingerprint_of(text::views(lines@)),
        r@.len() == 64,
{
    let whole = text::joined(lines, "\n");
    let digest = codec::sha256(whole.as_str().as_bytes());
    proof {
        text::lemma_hex_len(digest@, 'a');
    }
    text::hex_of(&digest, false)
}

/// The query for the fingerprint of the main configuration.
pub const CONFIG_QUERY: &'static str =
    "SELECT CONVERT(VARCHAR(30), MAX(Modified), 121) AS m, COUNT(*) AS c FROM dbo.Config WITH (NOLOCK)";

/// The query for the fingerprint of the extensions.
pub const EXTENSIONS_QUERY: &'static str =
    "SELECT _ExtName AS n, CONVERT(VARCHAR(30), _UpdateTime, 121) AS t, CONVERT(BIGINT, _Version) AS v FROM dbo._ExtensionsInfo WITH (NOLOCK) ORDER BY _ExtName";

/// The query for the fingerprint of the processors.
pub fn processings_query(m: &StoredMappingLite) -> (r: String)
    ensures
        r@ == "SELECT CONVERT(CHAR(32), _IDRRef, 2) AS id, "@ + hash_expression(
            m.field_hash@,
            m.hash_is_binary,
        ) + " AS h FROM dbo."@ + m.table@
            + " WITH (NOLOCK) WHERE _Marked = 0x00 AND _Folder = 0x01 ORDER BY _IDRRef"@,
{
    let mut s = "SELECT CONVERT(CHAR(32), _IDRRef, 2) AS id, ".to_owned();
    let hash = hash_select(&m.field_hash, m.hash_is_binary);
    s.append(&hash);
    s.append(" AS h FROM dbo.");
    s.append(&m.table);
    s.append(" WITH (NOLOCK) WHERE _Marked = 0x00 AND _Folder = 0x01 ORDER BY _IDRRef");
    s
}

/// The fingerprint of the main configuration from a row of its query: the time
/// of the last change, as a text, and the number of rows.
pub fn config_signal(modified: Option<String>, count: Option<i32>) -> (r: String)
    ensures
        r@ == (match modified {
            Some(m) => m@,
            None => ""@,
        }) + "|"@ + text::dec_int(
            match count {
                Some(c) => c as int,
                None => 0,
            },
        ),
{
    let mut s = match modified {
        Some(m) => m,
        None => "".to_owned(),
    };
    s.append("|");
    let n: i64 = match count {
        Some(c) => c as i64,
        None => 0,
    };
    let number = text::dec_int_of(n);
    s.append(&number);
    s
}

/// The line of one extension in the fingerprint of the extensions.
pub open spec fn extension_line(name: Seq<char>, time: Seq<char>, version: int) -> Seq<char> {
    text::trim(name) + "|"@ + time + "|"@ + text::dec_int(version)
}

/// The text, or nothing.
pub open spec fn text_or_empty(o: Option<String>) -> Seq<char> {
    match o {
        Some(s) => s@,
        None => Seq::empty(),
    }
}

/// The line of one extension in the fingerprint of the extensions.
pub fn extension_signal_line(
    name: Option<String>,
    time: Option<String>,
    version: Option<i64>,
) -> (r: String)
    ensures
        r@ == extension_line(
            text_or_empty(name),
            text_or_empty(time),
            match version {
                Some(v) => v as int,
                None => 0,
            },
        ),
{
    let n = match name {
        Some(s) => s,
        None => String::new(),
    };
    let t = match time {
        Some(s) => s,
        None => String::new(),
    };
    let v: i64 = match version {
        Some(x) => x,
        None => 0,
    };
    let mut s = text::trimmed(&n);
    s.append("|");
    s.append(&t);
    s.append("|");
    let number = text::dec_int_of(v);
    s.append(&number);
    s
}

/// The line of one processor in the fingerprint of the processors.
pub fn processing_signal_line(id: Option<String>, hash: Option<String>) -> (r: String)
    ensures
        r@ == text::trim(text_or_empty(id)) + "|"@ + text::trim(text_or_empty(hash)),
{
    let i = match id {
        Some(s) => s,
        None => String::new(),
    };
    let h = match hash {
        Some(s) => s,
        None => String::new(),
    };
    let mut s = text::trimmed(&i);
    s.append("|");
    let tail = text::trimmed(&h);
    s.append(&tail);
    s
}

/// The reasons for an export, for people to read.
pub open spec fn reasons(prev: Option<&SqlSignals>, cur: SqlSignals, scope: SignalScope) -> Seq<
    Seq<char>,
> {
    match prev {
        None => seq!["первый опрос служебных таблиц — выгружаем полностью"@],
        Some(prev) => {
            let base = if scope.base && prev.config@ != cur.config@ {
                seq![
                    "основная конфигурация: Config было '"@ + prev.config@ + "' стало '"@
                        + cur.config@ + "'"@,
                ]
            } else {
                Seq::empty()
            };
            let extensions = if scope.extensions && prev.extensions@ != cur.extensions@ {
                seq!["расширения: отпечаток _ExtensionsInfo изменился"@]
            } else {
                Seq::empty()
            };
            let processings = if scope.processings is Some && prev.processings@
                != cur.processings@ {
                seq!["допобработки: отпечаток изменился"@]
            } else {
                Seq::empty()
            };
            base + extensions + processings
        },
    }
}

/// The reasons for an export; none where nothing has changed.
pub fn diff_signals(prev: Option<&SqlSignals>, cur: &SqlSignals, scope: &SignalScope) -> (r: Vec<
    String,
>)
    ensures
        text::views(r@) == reasons(prev, *cur, *scope),
{
    match prev {
        None => text::list1("первый опрос служебных таблиц — выгружаем полностью"),
        Some(p) => {
            let mut out: Vec<String> = Vec::new();
            if scope.base && p.config != cur.config {
                let mut m = "основная конфигурация: Config было '".to_owned();
                m.append(&p.config);
                m.append("' стало '");
                m.append(&cur.config);
                m.append("'");
                out.push(m);
            }
            if scope.extensions && p.extensions != cur.extensions {
                out.push("расширения: отпечаток _ExtensionsInfo изменился".to_owned());
            }
            if scope.processings.is_some() && p.processings != cur.processings {
                out.push("допобработки: отпечаток изменился".to_owned());
            }
            assert(text::views(out@) =~= reasons(prev, *cur, *scope));
            out
        },
    }
}

/// The main configuration has changed since the fingerprints were last taken;
/// the first time counts as a change.
pub open spec fn config_moved(
    prev: Option<&SqlSignals>,
    cur: SqlSignals,
    scope: SignalScope,
) -> bool {
    scope.base && match prev {
        None => true,
        Some(p) => p.config@ != cur.config@,
    }
}

/// Whether the main configuration has changed since the fingerprints were last
/// taken.
pub fn config_changed(prev: Option<&SqlSignals>, cur: &SqlSignals, scope: &SignalScope) -> (r: bool)
    ensures
        r == config_moved(prev, *cur, *scope),
{
    if !scope.base {
        return false;
    }
    match prev {
        None => true,
        Some(p) => p.config != cur.config,
    }
}

/// There is no reason for an export exactly where the fingerprints of all that
/// is asked for are the same; when they were taken does not matter.
pub proof fn no_reason_means_no_change(prev: SqlSignals, cur: SqlSignals, scope: SignalScope)
    ensures
        reasons(Some(&prev), cur, scope).len() == 0 <==> (scope.base ==> prev.config@
            == cur.config@) && (scope.extensions ==> prev.extensions@ == cur.extensions@) && (
        scope.processings is Some ==> prev.processings@ == cur.processings@),
{
}

/// The first look at a base is always a reason for an export.
pub proof fn first_look_is_a_reason(cur: SqlSignals, scope: SignalScope)
    ensures
        reasons(None, cur, scope).len() == 1,
{
}

/// Where the main configuration has changed, there is a reason for an export.
pub proof fn moved_config_is_a_reason(
    prev: Option<&SqlSignals>,
    cur: SqlSignals,
    scope: SignalScope,
)
    requires
        config_moved(prev, cur, scope),
    ensures
        reasons(prev, cur, scope).len() > 0,
{
}

/// A reason names each part that was asked for and has changed, and no other.
pub proof fn reasons_name_what_changed(prev: SqlSignals, cur: SqlSignals, scope: SignalScope)
    ensures
        ({
            let r = reasons(Some(&prev), cur, scope);
            let b: int = if scope.base && prev.config@ != cur.config@ {
                1
            } else {
                0
            };
            let e: int = if scope.extensions && prev.extensions@ != cur.extensions@ {
                1
            } else {
                0
            };
            let p: int = if scope.processings is Some && prev.processings@ != cur.processings@ {
                1
            } else {
                0
            };
            &&& r.len() == b + e + p
            &&& b == 1 ==> r[0] == "основная конфигурация: Config было '"@ + prev.config@
                + "' стало '"@ + cur.config@ + "'"@
            &&& e == 1 ==> r[b] == "расширения: отпечаток _ExtensionsInfo изменился"@
            &&& p == 1 ==> r[b + e] == "допобработки: отпечаток изменился"@
        }),
        reasons(None, cur, scope)[0] == "первый опрос служебных таблиц — выгружаем полностью"@,
        config_moved(Some(&prev), cur, scope) <==> scope.base && prev.config@ != cur.config@,
        config_moved(None, cur, scope) <==> scope.base,
{
}

/// A hash that is binary is read as hexadecimal digits, any other as a text.
pub proof fn hashes_are_read_by_their_kind(field: Seq<char>)
    ensures
        hash_expression(field, true) == "CONVERT(VARCHAR(130), CAST("@ + field
            + " AS VARBINARY(64)), 2)"@,
        hash_expression(field, false) == "RTRIM(CONVERT(NVARCHAR(64), "@ + field + "))"@,
{
}

/// The fingerprint of lines is the digest of all of them; that of an extension
/// has its name, its time and its version.
pub proof fn fingerprint_covers_every_line(
    lines: Seq<Seq<char>>,
    more: Seq<char>,
    name: Seq<char>,
    time: Seq<char>,
    version: int,
)
    ensures
        lines.len() > 0 ==> fingerprint_of(lines.push(more)) == text::hex(
            codec::sha256_digest(
                vstd::utf8::encode_utf8(text::join(lines, "\n"@) + "\n"@ + more),
            ),
            'a',
        ),
        extension_line(name, time, version) == text::trim(name) + "|"@ + time + "|"@ + text::dec_int(
            version,
        ),
{
    text::texts_are_joined_in_order(lines, more, "\n"@);
}

/// A value that is not there is empty, and a name is that of a version where it
/// has the word in it.
pub proof fn missing_values_are_empty(o: Option<String>, lower: Seq<char>)
    ensures
        o matches Some(s) ==> text_or_empty(o) == s@,
        o is None ==> text_or_empty(o).len() == 0,
        names_version(lower) <==> text::has(lower, "version"@),
{
}

} // verus!
